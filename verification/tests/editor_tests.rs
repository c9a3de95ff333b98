use oxmap::editor::{move_cursor, parse_count, Action, EditField, EditState, Editor, Key, Mode};
use oxmap::model::{Note, NoteColor, Relation, RelationType};

fn note(key: char, title: &str, x: f32, y: f32) -> Note {
    Note {
        key,
        title: title.to_string(),
        body: String::new(),
        x: x.to_bits(),
        y: y.to_bits(),
        w: 20.0f32.to_bits(),
        h: 8.0f32.to_bits(),
        color: NoteColor::White,
        file_path: None,
    }
}

fn app() -> Editor {
    Editor::demo("vi".to_string())
}

fn normal_app() -> Editor {
    let mut app = app();
    app.handle_key(Key::Esc);
    app
}

#[test]
fn unsaved_quit_stays_in_app() {
    let mut app = app();
    app.dirty = true;

    app.run_command("q");

    assert!(!app.should_quit);
    assert!(app.status.contains("unsaved changes"));
}

#[test]
fn deleting_selected_note_removes_attached_relations() {
    let mut app = app();
    app.notes = vec![note('a', "a", 0.0, 0.0), note('b', "b", 10.0, 10.0)];
    app.relations = vec![Relation { from: 'a', to: 'b', kind: RelationType::Directional }];
    app.selected = Some(0);

    app.delete_selected_note();

    assert_eq!(app.notes.len(), 1);
    assert_eq!(app.notes[0].key, 'b');
    assert!(app.relations.is_empty());
    assert!(app.selected.is_none());
}

#[test]
fn removing_relation_to_target_deletes_only_matching_edge() {
    let mut app = app();
    app.notes = vec![
        note('a', "a", 0.0, 0.0),
        note('b', "b", 10.0, 10.0),
        note('c', "c", 20.0, 20.0),
    ];
    app.relations = vec![
        Relation { from: 'a', to: 'b', kind: RelationType::Directional },
        Relation { from: 'a', to: 'c', kind: RelationType::Directional },
    ];
    app.selected = Some(0);

    app.remove_relation_to('b');

    assert_eq!(app.relations.len(), 1);
    assert_eq!(app.relations[0].to, 'c');
    assert!(app.status.contains("unlinked"));
}

#[test]
fn demo_starts_editing_the_first_note() {
    let app = app();
    assert_eq!(app.notes.len(), 1);
    assert_eq!(app.notes[0].key, 'a');
    assert_eq!(app.notes[0].x, (-10.0f32).to_bits());
    assert_eq!(app.notes[0].y, (-4.0f32).to_bits());
    assert_eq!(app.notes[0].w, 20.0f32.to_bits());
    assert_eq!(app.notes[0].h, 8.0f32.to_bits());
    assert_eq!(app.notes[0].file_path.as_deref(), Some("nodes/a.md"));
    assert_eq!(app.selected, Some(0));
    assert_eq!(
        app.mode,
        Mode::Edit(EditState { field: EditField::Title, title_cursor: 0, body_cursor: 0 })
    );
    assert_eq!(app.status, "start typing");
    assert_eq!(app.editor_command, "vi");
    assert!(!app.dirty);
}

#[test]
fn quit_is_refused_while_dirty_but_forced_quit_leaves() {
    let mut app = app();
    app.dirty = true;
    assert_eq!(app.run_command("q"), Action::Nothing);
    assert!(!app.should_quit);
    assert_eq!(app.status, "unsaved changes; use :w to save or :q! to force");
    assert_eq!(app.run_command("q!"), Action::Nothing);
    assert!(app.should_quit);
}

#[test]
fn quit_leaves_when_clean() {
    let mut app = app();
    app.run_command("q");
    assert!(app.should_quit);
}

#[test]
fn write_commands_ask_for_a_save() {
    let mut app = app();
    assert_eq!(app.run_command("w"), Action::Save { quit: false });
    assert_eq!(app.run_command("wq"), Action::Save { quit: true });
    assert!(!app.should_quit);
    app.dirty = true;
    app.saved("graph.mmd", true);
    assert!(app.should_quit);
    assert!(!app.dirty);
    assert_eq!(app.loaded_path.as_deref(), Some("graph.mmd"));
    assert_eq!(app.status, "saved graph.mmd");
}

#[test]
fn export_and_unknown_commands() {
    let mut app = app();
    assert_eq!(app.run_command("export"), Action::Export);
    assert_eq!(app.run_command("nonsense"), Action::Nothing);
    assert_eq!(app.status, "unknown command: :nonsense");
    assert_eq!(app.run_command(""), Action::Nothing);
}

#[test]
fn editor_command_is_shown_or_changed() {
    let mut app = app();
    assert_eq!(app.run_command("editor"), Action::Nothing);
    assert_eq!(app.status, "editor vi");
    assert_eq!(app.run_command("editor   nvim -u NONE  "), Action::SaveConfig);
    assert_eq!(app.editor_command, "nvim -u NONE");
    assert_eq!(app.status, "editor vi");
    assert!(!app.dirty);
    app.config_saved();
    assert_eq!(app.status, "editor set to nvim -u NONE");
    assert!(app.dirty);
}

#[test]
fn command_line_is_typed_and_run() {
    let mut app = normal_app();
    assert_eq!(app.handle_key(Key::Char(':')), Action::Nothing);
    assert_eq!(app.mode, Mode::Command);
    app.handle_key(Key::Char('w'));
    app.handle_key(Key::Char('q'));
    assert_eq!(app.status_text("zoom"), ":wq_");
    assert_eq!(app.handle_key(Key::Enter), Action::Save { quit: true });
    assert_eq!(app.mode, Mode::Normal);
}

#[test]
fn escape_leaves_edit_mode_and_then_clears_the_selection() {
    let mut app = app();
    app.handle_key(Key::Esc);
    assert_eq!(app.mode, Mode::Normal);
    assert_eq!(app.selected, Some(0));
    assert_eq!(app.status, "edited a");
    app.handle_key(Key::Esc);
    assert_eq!(app.mode, Mode::Normal);
    assert!(app.selected.is_none());
    assert_eq!(app.status, "selection cleared");
}

#[test]
fn typing_edits_the_title_and_backspace_undoes_it() {
    let mut app = app();
    app.handle_key(Key::Char('h'));
    app.handle_key(Key::Char('é'));
    app.handle_key(Key::Char('!'));
    assert_eq!(app.notes[0].title, "hé!");
    assert_eq!(
        app.mode,
        Mode::Edit(EditState { field: EditField::Title, title_cursor: 4, body_cursor: 0 })
    );
    app.handle_key(Key::Backspace);
    assert_eq!(app.notes[0].title, "hé");
    assert!(app.dirty);
}

#[test]
fn type_then_backspace_gives_back_the_text() {
    let mut app = app();
    app.notes[0].title = "note".to_string();
    app.mode = Mode::Edit(EditState { field: EditField::Title, title_cursor: 2, body_cursor: 0 });
    app.handle_key(Key::Char('x'));
    assert_eq!(app.notes[0].title, "noxte");
    app.handle_key(Key::Backspace);
    assert_eq!(app.notes[0].title, "note");
    assert_eq!(
        app.mode,
        Mode::Edit(EditState { field: EditField::Title, title_cursor: 2, body_cursor: 0 })
    );
}

#[test]
fn tab_switches_to_the_body_and_enter_breaks_lines() {
    let mut app = app();
    app.handle_key(Key::Tab);
    app.handle_key(Key::Char('a'));
    app.handle_key(Key::Enter);
    app.handle_key(Key::Char('b'));
    assert_eq!(app.notes[0].body, "a\nb");
    assert_eq!(app.notes[0].title, "");
    app.handle_key(Key::Left);
    app.handle_key(Key::Left);
    app.handle_key(Key::Char('c'));
    assert_eq!(app.notes[0].body, "ac\nb");
    app.handle_key(Key::Right);
    app.handle_key(Key::Right);
    app.handle_key(Key::Right);
    assert_eq!(
        app.mode,
        Mode::Edit(EditState { field: EditField::Body, title_cursor: 0, body_cursor: 4 })
    );
}

#[test]
fn backspace_at_the_start_changes_nothing() {
    let mut app = app();
    app.handle_key(Key::Backspace);
    assert_eq!(app.notes[0].title, "");
    assert!(!app.dirty);
}

#[test]
fn accepts_key_refuses_a_cursor_inside_a_character() {
    let mut app = app();
    app.notes[0].title = "é".to_string();
    app.mode = Mode::Edit(EditState { field: EditField::Title, title_cursor: 1, body_cursor: 0 });
    assert!(!app.accepts_key(Key::Char('x')));
    assert!(!app.accepts_key(Key::Enter));
    assert!(app.accepts_key(Key::Backspace));
    assert!(app.accepts_key(Key::Esc));
    app.mode = Mode::Edit(EditState { field: EditField::Title, title_cursor: 2, body_cursor: 0 });
    assert!(app.accepts_key(Key::Char('x')));
    assert!(!app.accepts_key(Key::Backspace));
    app.mode = Mode::Normal;
    assert!(app.accepts_key(Key::Char('x')));
}

#[test]
fn a_asks_for_a_note_and_add_node_takes_the_next_free_key() {
    let mut app = normal_app();
    assert_eq!(app.handle_key(Key::Char('a')), Action::AddNote);
    app.add_node(1.5f32.to_bits(), 2.5f32.to_bits());
    assert_eq!(app.notes.len(), 2);
    assert_eq!(app.notes[1].key, 'b');
    assert_eq!(app.notes[1].x, 1.5f32.to_bits());
    assert_eq!(app.notes[1].y, 2.5f32.to_bits());
    assert_eq!(app.notes[1].color, NoteColor::Yellow);
    assert_eq!(app.notes[1].file_path.as_deref(), Some("nodes/b.md"));
    assert_eq!(app.selected, Some(1));
    assert_eq!(app.status, "added node [b]");
    assert!(app.dirty);
}

#[test]
fn next_key_skips_used_keys_and_runs_out_after_thirty_six() {
    let mut app = app();
    app.notes = vec![note('a', "", 0.0, 0.0), note('c', "", 0.0, 0.0)];
    assert_eq!(app.next_key(), Some('b'));
    let mut notes = Vec::new();
    for c in ('a'..='z').chain('0'..='9') {
        notes.push(note(c, "", 0.0, 0.0));
    }
    app.notes = notes;
    assert_eq!(app.next_key(), None);
    app.mode = Mode::Normal;
    app.add_node(0, 0);
    assert_eq!(app.notes.len(), 36);
    assert_eq!(app.status, "no available node keys");
}

#[test]
fn added_keys_stay_distinct() {
    let mut app = normal_app();
    for _ in 0..5 {
        app.mode = Mode::Normal;
        app.add_node(0, 0);
    }
    let keys: Vec<char> = app.notes.iter().map(|n| n.key).collect();
    assert_eq!(keys, vec!['a', 'b', 'c', 'd', 'e', 'f']);
}

#[test]
fn f_then_key_selects_a_note() {
    let mut app = normal_app();
    app.notes = vec![note('a', "alpha", 0.0, 0.0), note('b', "beta", 0.0, 0.0)];
    app.selected = None;
    app.handle_key(Key::Char('f'));
    assert_eq!(app.mode, Mode::AwaitSelect);
    app.handle_key(Key::Char('b'));
    assert_eq!(app.selected, Some(1));
    assert_eq!(app.status, "selected [b] beta");
    app.handle_key(Key::Char('f'));
    app.handle_key(Key::Char('z'));
    assert_eq!(app.selected, Some(1));
    assert_eq!(app.status, "unknown node key [z]");
}

#[test]
fn m_f_key_links_and_u_f_key_unlinks() {
    let mut app = normal_app();
    app.notes = vec![note('a', "a", 0.0, 0.0), note('b', "b", 0.0, 0.0)];
    app.selected = Some(0);
    app.handle_key(Key::Char('m'));
    assert_eq!(app.mode, Mode::AwaitRelationPrefix(RelationType::Directional));
    app.handle_key(Key::Char('f'));
    assert_eq!(app.mode, Mode::AwaitRelationTarget(RelationType::Directional));
    app.handle_key(Key::Char('b'));
    assert_eq!(app.relations, vec![Relation { from: 'a', to: 'b', kind: RelationType::Directional }]);
    assert_eq!(app.status, "linked [a] -> [b] (directional)");
    app.handle_key(Key::Char('u'));
    app.handle_key(Key::Char('f'));
    assert_eq!(app.mode, Mode::AwaitUnlinkTarget);
    app.handle_key(Key::Char('b'));
    assert!(app.relations.is_empty());
    assert_eq!(app.status, "unlinked [a] -> [b]");
    app.handle_key(Key::Char('u'));
    app.handle_key(Key::Char('f'));
    app.handle_key(Key::Char('b'));
    assert_eq!(app.status, "no relation [a] -> [b]");
}

#[test]
fn a_count_before_m_picks_the_relation_type() {
    let mut app = normal_app();
    app.notes = vec![note('a', "a", 0.0, 0.0), note('b', "b", 0.0, 0.0)];
    app.selected = Some(0);
    app.handle_key(Key::Char('3'));
    app.handle_key(Key::Char('m'));
    assert_eq!(app.mode, Mode::AwaitRelationPrefix(RelationType::Compositional));
    app.handle_key(Key::Char('x'));
    assert_eq!(app.mode, Mode::Normal);
    assert_eq!(app.status, "relation expects f then target key");
    app.create_relation_to('q', RelationType::Cluster);
    assert_eq!(app.status, "unknown target [q]");
    assert!(app.relations.is_empty());
}

#[test]
fn counts_repeat_moves() {
    let mut app = normal_app();
    app.handle_key(Key::Char('8'));
    assert_eq!(app.status, "count 8");
    assert_eq!(app.handle_key(Key::Char('l')), Action::Move { dx: 1, dy: 0, count: 8 });
    assert_eq!(app.count_buffer, "");
    assert_eq!(app.handle_key(Key::Char('h')), Action::Move { dx: -1, dy: 0, count: 1 });
    assert_eq!(app.handle_key(Key::Up), Action::Move { dx: 0, dy: -1, count: 1 });
    assert_eq!(app.handle_key(Key::Char('j')), Action::Move { dx: 0, dy: 1, count: 1 });
}

#[test]
fn zoom_fit_and_open_keys() {
    let mut app = normal_app();
    assert_eq!(app.handle_key(Key::Char('s')), Action::ZoomIn);
    assert_eq!(app.handle_key(Key::Char('d')), Action::ZoomOut);
    assert_eq!(app.handle_key(Key::Char('G')), Action::FitAll);
    assert_eq!(app.handle_key(Key::Char('o')), Action::OpenEditor(0));
    app.selected = None;
    assert_eq!(app.handle_key(Key::Char('o')), Action::Nothing);
    assert_eq!(app.status, "select a node first");
}

#[test]
fn i_starts_editing_at_the_end_of_the_text() {
    let mut app = normal_app();
    app.notes[0].title = "héllo".to_string();
    app.notes[0].body = "ab".to_string();
    app.handle_key(Key::Char('i'));
    assert_eq!(
        app.mode,
        Mode::Edit(EditState { field: EditField::Title, title_cursor: 6, body_cursor: 2 })
    );
    assert_eq!(app.status, "editing a");
}

#[test]
fn x_deletes_the_selected_note() {
    let mut app = normal_app();
    app.handle_key(Key::Char('x'));
    assert!(app.notes.is_empty());
    assert_eq!(app.status, "deleted [a]");
    app.handle_key(Key::Char('x'));
    assert_eq!(app.status, "select a node first");
}

#[test]
fn parse_count_reads_digits_or_gives_one() {
    assert_eq!(parse_count(""), 1);
    assert_eq!(parse_count("12"), 12);
    assert_eq!(parse_count("65535"), 65535);
    assert_eq!(parse_count("65536"), 1);
    assert_eq!(parse_count("007"), 7);
}

#[test]
fn move_cursor_stays_within_the_text() {
    let mut st = EditState { field: EditField::Body, title_cursor: 3, body_cursor: 2 };
    move_cursor(&mut st, -5, 10);
    assert_eq!(st, EditState { field: EditField::Body, title_cursor: 3, body_cursor: 0 });
    move_cursor(&mut st, 4, 10);
    assert_eq!(st.body_cursor, 4);
    move_cursor(&mut st, 40, 10);
    assert_eq!(st.body_cursor, 10);
    st.field = EditField::Title;
    move_cursor(&mut st, 1, 3);
    assert_eq!(st, EditState { field: EditField::Title, title_cursor: 3, body_cursor: 10 });
}

#[test]
fn status_text_describes_the_mode_and_selection() {
    let mut app = normal_app();
    app.notes[0].title = "idea".to_string();
    app.dirty = true;
    app.status = "ready".to_string();
    assert_eq!(app.status_text("zoom 1.40"), "ready  zoom 1.40  sel [a] idea  *dirty");
    app.selected = None;
    app.dirty = false;
    app.mode = Mode::AwaitSelect;
    assert_eq!(app.status_text("z"), "awaiting node key  z  pan");
}

#[test]
fn markdown_sync_takes_the_title_and_body() {
    let mut app = normal_app();
    app.notes[0].title = "old".to_string();
    assert_eq!(app.note_markdown(0), "# old\n");
    app.sync_note_from_markdown(0, "#  new title \n\n\nbody line\nmore\n");
    assert_eq!(app.notes[0].title, "new title");
    assert_eq!(app.notes[0].body, "body line\nmore");
    assert!(app.dirty);
    app.sync_note_from_markdown(0, "");
    assert_eq!(app.notes[0].title, "new title");
    assert_eq!(app.notes[0].body, "");
}

#[test]
fn note_moved_records_the_new_place() {
    let mut app = normal_app();
    app.note_moved(5.0f32.to_bits(), 6.0f32.to_bits(), "2x3");
    assert_eq!(app.notes[0].x, 5.0f32.to_bits());
    assert_eq!(app.notes[0].y, 6.0f32.to_bits());
    assert_eq!(app.status, "moved [a] by 2x3");
    assert!(app.dirty);
}

#[test]
fn note_palette_follows_colour_unless_monocolor() {
    let mut app = normal_app();
    assert_eq!(app.note_palette(0), 116);
    app.monocolor = true;
    assert_eq!(app.note_palette(0), 231);
}

#[test]
fn replace_graph_and_config() {
    let mut app = normal_app();
    app.dirty = true;
    app.replace_graph(
        vec![note('k', "k", 0.0, 0.0)],
        vec![Relation { from: 'k', to: 'k', kind: RelationType::Cluster }],
        Some("hx".to_string()),
    );
    assert_eq!(app.notes.len(), 1);
    assert_eq!(app.relations.len(), 1);
    assert_eq!(app.editor_command, "hx");
    assert!(app.selected.is_none());
    assert!(!app.dirty);
    app.apply_config(None, Some(true));
    assert_eq!(app.editor_command, "hx");
    assert!(app.monocolor);
}
