use oxmap::editor::Editor;
use oxmap::markdown::{note_markdown, parse_note_markdown};
use oxmap::mermaid::{
    escape_mermaid, merge_mmd_and_layout, note_markdown_label, parse_mermaid_graph,
    parse_mermaid_node_line, shell_quote, split_saved_label, split_saved_layout,
    to_mermaid_definition, GraphError,
};
use oxmap::model::{Note, NoteColor, Relation, RelationType};

fn note(key: char, title: &str, body: &str, x: f32, y: f32) -> Note {
    Note {
        key,
        title: title.to_string(),
        body: body.to_string(),
        x: x.to_bits(),
        y: y.to_bits(),
        w: 20.0f32.to_bits(),
        h: 8.0f32.to_bits(),
        color: NoteColor::White,
        file_path: None,
    }
}

fn layout_json(notes: &[Note]) -> String {
    let mut nodes = serde_json::Map::new();
    for n in notes {
        let mut point = serde_json::Map::new();
        point.insert("x".to_string(), serde_json::Value::from(f32::from_bits(n.x)));
        point.insert("y".to_string(), serde_json::Value::from(f32::from_bits(n.y)));
        nodes.insert(n.key.to_string(), serde_json::Value::Object(point));
    }
    let mut root = serde_json::Map::new();
    root.insert("nodes".to_string(), serde_json::Value::Object(nodes));
    serde_json::to_string_pretty(&serde_json::Value::Object(root)).expect("layout json")
}

#[test]
fn mermaid_export_uses_oxdraw_compatible_syntax() {
    let mut app = Editor::demo("vi".to_string());
    app.notes = vec![note('a', "hello world", "", 0.0, 0.0)];
    app.relations = vec![Relation { from: 'a', to: 'a', kind: RelationType::Cluster }];

    let output = app.to_mermaid_definition();

    assert!(output.contains("a[hello world]"));
    assert!(output.contains("a --> a"));
    assert!(!output.contains("[\""));
    assert!(!output.contains("-.-"));
}

#[test]
fn saved_mmd_round_trips_note_positions() {
    let notes = vec![note('a', "hello world", "body text", 123.5, -48.25)];
    let relations: Vec<Relation> = Vec::new();

    let definition = to_mermaid_definition(&notes, &relations);
    let json = layout_json(&notes);
    let saved = merge_mmd_and_layout(&definition, Some(&json));

    let parts = split_saved_layout(&saved);
    let graph = parse_mermaid_graph(&parts.definition).expect("saved mmd should parse");
    let layout: serde_json::Value =
        serde_json::from_str(parts.layout.as_deref().expect("layout block")).expect("layout");

    assert_eq!(graph.nodes.len(), 1);
    let (title, body) = split_saved_label(&graph.nodes[0].title);
    assert_eq!(title, "hello world");
    assert_eq!(body, "body text");
    let key = graph.nodes[0].key.to_string();
    let x = layout["nodes"][&key]["x"].as_f64().expect("x") as f32;
    let y = layout["nodes"][&key]["y"].as_f64().expect("y") as f32;
    assert!((x - 123.5).abs() < f32::EPSILON);
    assert!((y - (-48.25)).abs() < f32::EPSILON);
}

#[test]
fn definition_lists_notes_then_relations() {
    let notes = vec![note('a', "one\ntwo", "", 0.0, 0.0), note('b', "say \"hi\"", "x\ny", 0.0, 0.0)];
    let relations = vec![
        Relation { from: 'a', to: 'b', kind: RelationType::Directional },
        Relation { from: 'b', to: 'a', kind: RelationType::Bidirectional },
        Relation { from: 'a', to: 'a', kind: RelationType::Compositional },
    ];
    let out = to_mermaid_definition(&notes, &relations);
    assert_eq!(
        out,
        "graph LR\n    a[one<br/>two]\n    b[say \\\"hi\\\"<br/>x<br/>y]\n    a --> b\n    b <--> a\n    a --o a\n"
    );
}

#[test]
fn saved_definition_reads_back_keys_labels_and_relations() {
    let notes = vec![note('a', "first", "", 0.0, 0.0), note('b', "second", "details", 0.0, 0.0)];
    let relations = vec![
        Relation { from: 'a', to: 'b', kind: RelationType::Compositional },
        Relation { from: 'b', to: 'a', kind: RelationType::Cluster },
    ];
    let out = to_mermaid_definition(&notes, &relations);
    let graph = parse_mermaid_graph(&out).expect("definition parses");
    assert_eq!(graph.nodes.len(), 2);
    assert_eq!(graph.nodes[0].key, 'a');
    assert_eq!(graph.nodes[0].title, "first");
    assert_eq!(graph.nodes[0].color, NoteColor::Cyan);
    assert_eq!(graph.nodes[1].key, 'b');
    assert_eq!(graph.nodes[1].title, "second<br/>details");
    assert_eq!(graph.nodes[1].color, NoteColor::Yellow);
    assert_eq!(
        graph.relations,
        vec![
            Relation { from: 'a', to: 'b', kind: RelationType::Compositional },
            Relation { from: 'b', to: 'a', kind: RelationType::Directional },
        ]
    );
    assert_eq!(split_saved_label(&graph.nodes[1].title), ("second".to_string(), "details".to_string()));
}

#[test]
fn parse_mermaid_graph_reads_operators_and_skips_other_lines() {
    let source = "graph TD\n\n  x[\"quoted\"]\n  y[plain]\n  x <--> y\n  y --o x\n  x -.- y\n  y ==> x\n  not an edge line here\n%% comment\n";
    let graph = parse_mermaid_graph(source).expect("parses");
    assert_eq!(graph.nodes.len(), 2);
    assert_eq!(graph.nodes[0].title, "quoted");
    assert_eq!(graph.nodes[1].title, "plain");
    assert_eq!(
        graph.relations,
        vec![
            Relation { from: 'x', to: 'y', kind: RelationType::Bidirectional },
            Relation { from: 'y', to: 'x', kind: RelationType::Compositional },
            Relation { from: 'x', to: 'y', kind: RelationType::Cluster },
            Relation { from: 'y', to: 'x', kind: RelationType::Directional },
        ]
    );
}

#[test]
fn node_line_without_key_is_an_error() {
    let result = parse_mermaid_graph("graph LR\n    [orphan]\n");
    assert!(matches!(result, Err(GraphError::MissingNodeKey)));
}

#[test]
fn node_lines_split_at_the_first_bracket() {
    assert_eq!(
        parse_mermaid_node_line("a[b[c]]"),
        Some(("a".to_string(), "b[c]".to_string()))
    );
    assert_eq!(
        parse_mermaid_node_line("key [\"x\"]"),
        Some(("key ".to_string(), "x".to_string()))
    );
    assert_eq!(parse_mermaid_node_line("a[\"]"), Some(("a".to_string(), "\"".to_string())));
    assert_eq!(parse_mermaid_node_line("a --> b"), None);
    assert_eq!(parse_mermaid_node_line("a[open"), None);
}

#[test]
fn labels_fold_title_and_body() {
    let n = note('a', "t1\nt2", "  ", 0.0, 0.0);
    assert_eq!(note_markdown_label(&n), "t1<br/>t2");
    let n = note('a', "t", "b1\nb2", 0.0, 0.0);
    assert_eq!(note_markdown_label(&n), "t<br/>b1<br/>b2");
    assert_eq!(escape_mermaid("a \"b\" c"), "a \\\"b\\\" c");
}

#[test]
fn saved_labels_split_into_title_and_body() {
    assert_eq!(split_saved_label("  Title  <br/> body<br>more  "), ("Title".to_string(), "body\nmore".to_string()));
    assert_eq!(split_saved_label(""), (String::new(), String::new()));
    assert_eq!(split_saved_label("only"), ("only".to_string(), String::new()));
}

#[test]
fn label_round_trip_gives_back_trimmed_title_and_body() {
    let n = note('a', " My title ", "line one\n\nline three\n", 0.0, 0.0);
    let label = note_markdown_label(&n);
    assert_eq!(split_saved_label(&label), ("My title".to_string(), "line one\n\nline three".to_string()));
}

#[test]
fn layout_block_is_framed_and_recovered() {
    let saved = merge_mmd_and_layout("graph LR\n    a[x]\n\n\n", Some("{\n  \"nodes\": {}\n}"));
    assert_eq!(
        saved,
        "graph LR\n    a[x]\n\n%% OXDRAW LAYOUT START\n%% {\n%%   \"nodes\": {}\n%% }\n%% OXDRAW LAYOUT END\n"
    );
    let parts = split_saved_layout(&saved);
    assert_eq!(parts.definition, "graph LR\n    a[x]\n\n");
    assert_eq!(parts.layout.as_deref(), Some("{\n\"nodes\": {}\n}"));
}

#[test]
fn definition_without_layout_ends_with_one_line_break() {
    assert_eq!(merge_mmd_and_layout("graph LR\n\n\n", None), "graph LR\n");
    let parts = split_saved_layout("graph LR\n    a[x]");
    assert_eq!(parts.definition, "graph LR\n    a[x]");
    assert!(parts.layout.is_none());
}

#[test]
fn layout_markers_ignore_case_and_blank_lines() {
    let parts = split_saved_layout("graph LR\n  %% oxdraw layout start  \n   %%   1\n\n%%\n%% 2\n%% OXDRAW LAYOUT END\nx[y]\n");
    assert_eq!(parts.definition, "graph LR\nx[y]\n");
    assert_eq!(parts.layout.as_deref(), Some("1\n2"));
}

#[test]
fn markdown_round_trip() {
    let text = note_markdown("Title", "body\nmore\n");
    assert_eq!(text, "# Title\n\nbody\nmore\n");
    assert_eq!(parse_note_markdown(&text), ("Title".to_string(), "body\nmore".to_string()));
    let text = note_markdown(" Spaced ", " \n ");
    assert_eq!(text, "#  Spaced \n");
    assert_eq!(parse_note_markdown(&text), ("Spaced".to_string(), String::new()));
}

#[test]
fn markdown_without_heading_keeps_the_first_line() {
    assert_eq!(parse_note_markdown("plain first\nsecond"), ("plain first".to_string(), "second".to_string()));
    assert_eq!(parse_note_markdown("#\n"), ("#".to_string(), String::new()));
    assert_eq!(parse_note_markdown(""), (String::new(), String::new()));
}

#[test]
fn shell_quote_wraps_and_escapes_single_quotes() {
    assert_eq!(shell_quote("/tmp/a b.md"), "'/tmp/a b.md'");
    assert_eq!(shell_quote("it's"), "'it'\\''s'");
    assert_eq!(shell_quote(""), "''");
}

#[test]
fn any_definition_comes_back_from_a_merged_file() {
    let def = "flowchart TD\n  x --> y\n\n";
    let with_layout = merge_mmd_and_layout(def, Some("{\n  \"nodes\": {}\n}"));
    let parts = split_saved_layout(&with_layout);
    assert_eq!(parts.definition, "flowchart TD\n  x --> y\n\n");
    assert_eq!(parts.layout.as_deref(), Some("{\n\"nodes\": {}\n}"));
    let without = merge_mmd_and_layout(def, None);
    let parts = split_saved_layout(&without);
    assert_eq!(parts.definition, "flowchart TD\n  x --> y\n");
    assert!(parts.layout.is_none());
}
