//! The Mermaid `.mmd` format the editor saves and loads: a `graph LR`
//! definition with one line per note and per relation, a note's title and
//! body folded into its label, and the canvas layout kept in a comment block.
use vstd::prelude::*;
use crate::model::{Note, NoteView, Relation, RelationType, operator_of};
use crate::text::{
    is_blank, blank, replace_char, replace_char_with, replace_seq, replace_with, push_str,
    push_char, push_chars, chars_of, lines, lines_of, views, join, join_with, trim, trimmed,
    trim_start, trimmed_start, starts_with, has_prefix, find, find_from, lemma_find, words,
    split_words, same_chars, chars_are, eq_ignore_case, same_ignoring_case, trim_end_char,
    trimmed_end_char, string_of, slice_range, append_slice,
};

verus! {

/// A label with every `"` written `\"`.
pub open spec fn escaped(text: Seq<char>) -> Seq<char> {
    replace_char(text, '"', "\\\""@)
}

/// Escapes the double quotes of a label.
pub fn escape_mermaid(text: &str) -> (r: String)
    ensures
        r@ == escaped(text@),
{
    let cs = chars_of(text);
    let r = replace_char_with(cs.as_slice(), '"', "\\\"");
    string_of(r.as_slice())
}

/// Line breaks written as `<br/>`.
pub open spec fn with_breaks(text: Seq<char>) -> Seq<char> {
    replace_char(text, '\n', "<br/>"@)
}

/// The label a note is exported with: its title, and its body after a
/// `<br/>` when the body is not blank, line breaks written `<br/>`.
pub open spec fn label_of_note(title: Seq<char>, body: Seq<char>) -> Seq<char> {
    if is_blank(body) {
        with_breaks(title)
    } else {
        with_breaks(title) + "<br/>"@ + with_breaks(body)
    }
}

/// The label a note is exported with.
pub fn note_markdown_label(note: &Note) -> (r: String)
    ensures
        r@ == label_of_note(note.title@, note.body@),
{
    let title = chars_of(note.title.as_str());
    let body = chars_of(note.body.as_str());
    let t = replace_char_with(title.as_slice(), '\n', "<br/>");
    if blank(body.as_slice()) {
        string_of(t.as_slice())
    } else {
        let b = replace_char_with(body.as_slice(), '\n', "<br/>");
        let mut r = string_of(t.as_slice());
        push_str(&mut r, "<br/>");
        push_chars(&mut r, b.as_slice());
        r
    }
}

/// The definition line of a note: `    k[label]`.
pub open spec fn node_line(n: NoteView) -> Seq<char> {
    "    "@ + seq![n.key] + "["@ + escaped(label_of_note(n.title, n.body)) + "]\n"@
}

/// The definition line of a relation: `    a --> b`.
pub open spec fn edge_line(r: Relation) -> Seq<char> {
    "    "@ + seq![r.from] + " "@ + operator_of(r.kind) + " "@ + seq![r.to] + "\n"@
}

/// The definition lines of the notes, in order.
pub open spec fn node_lines(notes: Seq<NoteView>) -> Seq<char>
    decreases notes.len(),
{
    if notes.len() == 0 {
        seq![]
    } else {
        node_lines(notes.drop_last()) + node_line(notes.last())
    }
}

/// The definition lines of the relations, in order.
pub open spec fn edge_lines(rels: Seq<Relation>) -> Seq<char>
    decreases rels.len(),
{
    if rels.len() == 0 {
        seq![]
    } else {
        edge_lines(rels.drop_last()) + edge_line(rels.last())
    }
}

/// The Mermaid definition of a document.
pub open spec fn definition_of(notes: Seq<NoteView>, rels: Seq<Relation>) -> Seq<char> {
    "graph LR\n"@ + node_lines(notes) + edge_lines(rels)
}

/// The Mermaid definition of a document: `graph LR`, a line per note, then a
/// line per relation.
pub fn to_mermaid_definition(notes: &Vec<Note>, relations: &Vec<Relation>) -> (r: String)
    ensures
        r@ == definition_of(crate::model::note_views(notes@), relations@),
{
    let ghost nv = crate::model::note_views(notes@);
    let mut out = String::new();
    push_str(&mut out, "graph LR\n");
    let mut i: usize = 0;
    while i < notes.len()
        invariant
            i <= notes@.len(),
            nv == crate::model::note_views(notes@),
            out@ == "graph LR\n"@ + node_lines(nv.take(i as int)),
        decreases notes@.len() - i,
    {
        let note = &notes[i];
        push_str(&mut out, "    ");
        push_char(&mut out, note.key);
        push_str(&mut out, "[");
        let label = note_markdown_label(note);
        let esc = escape_mermaid(label.as_str());
        push_str(&mut out, esc.as_str());
        push_str(&mut out, "]\n");
        proof {
            assert(nv.take(i + 1).drop_last() =~= nv.take(i as int));
            assert(nv.take(i + 1).last() == note@);
            assert(out@ =~= "graph LR\n"@ + node_lines(nv.take(i + 1)));
        }
        i += 1;
    }
    assert(nv.take(notes@.len() as int) =~= nv);
    let ghost head = out@;
    let mut j: usize = 0;
    while j < relations.len()
        invariant
            j <= relations@.len(),
            head == "graph LR\n"@ + node_lines(nv),
            out@ == head + edge_lines(relations@.take(j as int)),
        decreases relations@.len() - j,
    {
        let rel = relations[j];
        push_str(&mut out, "    ");
        push_char(&mut out, rel.from);
        push_str(&mut out, " ");
        push_str(&mut out, rel.kind.mermaid_operator());
        push_str(&mut out, " ");
        push_char(&mut out, rel.to);
        push_str(&mut out, "\n");
        proof {
            assert(relations@.take(j + 1).drop_last() =~= relations@.take(j as int));
            assert(relations@.take(j + 1).last() == rel);
            assert(out@ =~= head + edge_lines(relations@.take(j + 1)));
        }
        j += 1;
    }
    assert(relations@.take(relations@.len() as int) =~= relations@);
    assert(out@ =~= definition_of(nv, relations@));
    out
}

/// The key part and the label of a node line `key[label]`, the label
/// unquoted when it is written `"..."`; none when the line has no `[` or
/// does not end with `]`.
pub open spec fn node_line_parts(line: Seq<char>) -> Option<(Seq<char>, Seq<char>)> {
    let p = find(line, '[');
    if p >= line.len() {
        None
    } else {
        let right = line.skip(p as int + 1);
        if right.len() == 0 || right.last() != ']' {
            None
        } else {
            let label = right.drop_last();
            let unquoted = if label.len() >= 2 && label[0] == '"' && label.last() == '"' {
                label.drop_first().drop_last()
            } else {
                label
            };
            Some((line.take(p as int), unquoted))
        }
    }
}

/// Splits a node line into its key part and its label.
pub fn parse_mermaid_node_line(line: &str) -> (r: Option<(String, String)>)
    ensures
        match r {
            None => node_line_parts(line@) is None,
            Some((left, label)) => node_line_parts(line@) == Some((left@, label@)),
        },
{
    let cs = chars_of(line);
    let p = find_from(cs.as_slice(), '[', 0);
    assert(cs@.skip(0) =~= cs@);
    if p >= cs.len() {
        return None;
    }
    if p + 1 >= cs.len() || cs[cs.len() - 1] != ']' {
        proof {
            let right = cs@.skip(p + 1);
            if right.len() > 0 {
                assert(right.last() == cs@[cs@.len() - 1]);
            }
        }
        return None;
    }
    let label_end = cs.len() - 1;
    let ghost right = cs@.skip(p + 1);
    let ghost label = right.drop_last();
    assert(label =~= cs@.subrange(p + 1, label_end as int));
    let quoted = label_end - p >= 3 && cs[p + 1] == '"' && cs[label_end - 1] == '"';
    let (from, to) = if quoted {
        (p + 2, label_end - 1)
    } else {
        (p + 1, label_end)
    };
    proof {
        assert(right.last() == cs@[cs@.len() - 1]);
        if label.len() >= 2 {
            assert(label[0] == cs@[p + 1]);
            assert(label.last() == cs@[label_end - 1]);
        }
        if quoted {
            assert(label.drop_first().drop_last() =~= cs@.subrange(from as int, to as int));
        }
    }
    let left = slice_range(cs.as_slice(), 0, p);
    let lab = slice_range(cs.as_slice(), from, to);
    assert(left@ =~= cs@.take(p as int));
    Some((string_of(left.as_slice()), string_of(lab.as_slice())))
}

/// The relation type a Mermaid operator is read as.
pub open spec fn kind_of_operator(op: Seq<char>) -> RelationType {
    if op == "<-->"@ {
        RelationType::Bidirectional
    } else if op == "--o"@ {
        RelationType::Compositional
    } else if op == "-.-"@ {
        RelationType::Cluster
    } else {
        RelationType::Directional
    }
}

/// What one line of a Mermaid definition contributes.
pub enum LineItem {
    Skip,
    Node(char, Seq<char>),
    Edge(Relation),
    MissingKey,
}

/// What one line contributes: blank lines and the `graph` header nothing; a
/// line `key[label]` a note; a line of exactly three words `a op b` a
/// relation; other lines nothing.
pub open spec fn line_item(line: Seq<char>) -> LineItem {
    let t = trim(line);
    if t.len() == 0 || starts_with(t, "graph "@) {
        LineItem::Skip
    } else {
        match node_line_parts(t) {
            Some((left, title)) => {
                let k = trim(left);
                if k.len() == 0 {
                    LineItem::MissingKey
                } else {
                    LineItem::Node(k[0], title)
                }
            },
            None => {
                let ws = words(t);
                if ws.len() == 3 {
                    LineItem::Edge(
                        Relation { from: ws[0][0], to: ws[2][0], kind: kind_of_operator(ws[1]) },
                    )
                } else {
                    LineItem::Skip
                }
            },
        }
    }
}

/// The nodes (key, raw label) and relations of a sequence of lines, or
/// nothing when a node line has no key.
pub open spec fn parse_lines(ls: Seq<Seq<char>>) -> Option<(Seq<(char, Seq<char>)>, Seq<Relation>)>
    decreases ls.len(),
{
    if ls.len() == 0 {
        Some((seq![], seq![]))
    } else {
        match parse_lines(ls.drop_last()) {
            None => None,
            Some((ns, rs)) => match line_item(ls.last()) {
                LineItem::Skip => Some((ns, rs)),
                LineItem::Node(k, t) => Some((ns.push((k, t)), rs)),
                LineItem::Edge(r) => Some((ns, rs.push(r))),
                LineItem::MissingKey => None,
            },
        }
    }
}

/// A note read from a Mermaid definition, before it is placed on the canvas.
pub struct ParsedNode {
    pub key: char,
    pub title: String,
    /// The colour of the note's place in the colour cycle.
    pub color: crate::model::NoteColor,
}

/// The notes (in order) and relations of a Mermaid definition.
pub struct ParsedGraph {
    pub nodes: Vec<ParsedNode>,
    pub relations: Vec<Relation>,
}

/// Why a Mermaid definition could not be read.
#[derive(Clone, Copy, PartialEq, Eq, Debug, Structural)]
pub enum GraphError {
    /// A node line `[label]` has nothing before the `[`.
    MissingNodeKey,
}

/// The (key, label) pairs of parsed nodes.
pub open spec fn parsed_pairs(nodes: Seq<ParsedNode>) -> Seq<(char, Seq<char>)> {
    nodes.map_values(|n: ParsedNode| (n.key, n.title@))
}

/// Reads the notes and relations of a Mermaid definition.
pub fn parse_mermaid_graph(source: &str) -> (r: Result<ParsedGraph, GraphError>)
    ensures
        match r {
            Ok(g) => parse_lines(lines(source@)) == Some((parsed_pairs(g.nodes@), g.relations@))
                && forall|i: int|
                0 <= i < g.nodes@.len() ==> #[trigger] g.nodes@[i].color
                    == crate::model::color_in_cycle(i % 7),
            Err(e) => parse_lines(lines(source@)) is None && e == GraphError::MissingNodeKey,
        },
{
    let cs = chars_of(source);
    let ls = lines_of(cs.as_slice());
    let ghost lv = views(ls@);
    let mut nodes: Vec<ParsedNode> = Vec::new();
    let mut relations: Vec<Relation> = Vec::new();
    let mut i: usize = 0;
    assert(lv.take(0) =~= Seq::<Seq<char>>::empty());
    while i < ls.len()
        invariant
            i <= ls@.len(),
            lv == views(ls@),
            lv == lines(source@),
            parse_lines(lv.take(i as int)) == Some((parsed_pairs(nodes@), relations@)),
            forall|j: int|
                0 <= j < nodes@.len() ==> #[trigger] nodes@[j].color
                    == crate::model::color_in_cycle(j % 7),
        decreases ls@.len() - i,
    {
        let line = &ls[i];
        assert(lv.take(i + 1).drop_last() =~= lv.take(i as int));
        assert(lv.take(i + 1).last() == line@);
        let t = trimmed(line.as_slice());
        let graph_word = chars_of("graph ");
        if t.len() == 0 || has_prefix(t.as_slice(), graph_word.as_slice()) {
            i += 1;
            continue;
        }
        let ts = string_of(t.as_slice());
        match parse_mermaid_node_line(ts.as_str()) {
            Some((left, title)) => {
                let lc = chars_of(left.as_str());
                let k = trimmed(lc.as_slice());
                if k.len() == 0 {
                    proof {
                        lemma_parse_lines_none(lv, i + 1);
                    }
                    return Err(GraphError::MissingNodeKey);
                }
                push_node(&mut nodes, k[0], title);
            },
            None => {
                let ws = split_words(t.as_slice());
                if ws.len() == 3 {
                    proof {
                        assert(views(ws@)[0] == ws@[0]@);
                        assert(views(ws@)[1] == ws@[1]@);
                        assert(views(ws@)[2] == ws@[2]@);
                        lemma_words_nonempty(t@);
                        assert(views(ws@)[0].len() > 0);
                        assert(views(ws@)[2].len() > 0);
                    }
                    let from = ws[0][0];
                    let to = ws[2][0];
                    let kind = operator_kind(ws[1].as_slice());
                    relations.push(Relation { from, to, kind });
                }
            },
        }
        i += 1;
    }
    assert(lv.take(ls@.len() as int) =~= lv);
    Ok(ParsedGraph { nodes, relations })
}

fn push_node(nodes: &mut Vec<ParsedNode>, key: char, title: String)
    requires
        forall|j: int|
            0 <= j < old(nodes)@.len() ==> #[trigger] old(nodes)@[j].color
                == crate::model::color_in_cycle(j % 7),
    ensures
        parsed_pairs(final(nodes)@) == parsed_pairs(old(nodes)@).push((key, title@)),
        forall|j: int|
            0 <= j < final(nodes)@.len() ==> #[trigger] final(nodes)@[j].color
                == crate::model::color_in_cycle(j % 7),
{
    let ghost tv = title@;
    let color = crate::model::NoteColor::cycle(nodes.len());
    nodes.push(ParsedNode { key, title, color });
    assert forall|j: int| 0 <= j < nodes@.len() implies #[trigger] nodes@[j].color
        == crate::model::color_in_cycle(j % 7) by {
        if j < old(nodes)@.len() {
            assert(nodes@[j] == old(nodes)@[j]);
        }
    }
    assert(parsed_pairs(nodes@) =~= parsed_pairs(old(nodes)@).push((key, tv)));
}

pub proof fn lemma_parse_lines_none(ls: Seq<Seq<char>>, i: int)
    requires
        0 < i <= ls.len(),
        line_item(ls[i - 1]) == LineItem::MissingKey,
    ensures
        parse_lines(ls) is None,
    decreases ls.len(),
{
    if i < ls.len() {
        lemma_parse_lines_none(ls.drop_last(), i);
    } else {
        assert(ls.last() == ls[i - 1]);
    }
}

pub proof fn lemma_words_nonempty(s: Seq<char>)
    ensures
        forall|j: int| 0 <= j < words(s).len() ==> #[trigger] words(s)[j].len() > 0,
    decreases s.len(),
{
    if s.len() > 0 {
        if crate::text::is_ws(s[0]) {
            lemma_words_nonempty(s.drop_first());
            assert(words(s) == words(s.drop_first()));
        } else {
            crate::text::lemma_find_ws(s);
            lemma_words_nonempty(s.skip(find_ws_of(s) as int));
            let w = seq![s.take(find_ws_of(s) as int)] + words(s.skip(find_ws_of(s) as int));
            assert(find_ws_of(s) == 1 + crate::text::find_ws(s.drop_first()));
            assert(words(s) == w);
            assert(w[0].len() == find_ws_of(s));
            assert forall|j: int| 0 <= j < w.len() implies #[trigger] w[j].len() > 0 by {
                if j > 0 {
                    assert(w[j] == words(s.skip(find_ws_of(s) as int))[j - 1]);
                }
            }
            assert forall|j: int| 0 <= j < words(s).len() implies #[trigger] words(s)[j].len() > 0 by {
                assert(words(s)[j] == w[j]);
            }
        }
    }
}

spec fn find_ws_of(s: Seq<char>) -> nat {
    crate::text::find_ws(s)
}

/// The relation type of an operator word.
fn operator_kind(op: &[char]) -> (k: RelationType)
    ensures
        k == kind_of_operator(op@),
{
    if chars_are(op, "<-->") {
        RelationType::Bidirectional
    } else if chars_are(op, "--o") {
        RelationType::Compositional
    } else if chars_are(op, "-.-") {
        RelationType::Cluster
    } else {
        RelationType::Directional
    }
}


/// A saved label split back into title and body: `<br/>` and `<br>` read as
/// line breaks, the first line (trimmed) the title, the rest (joined and
/// trimmed) the body.
pub open spec fn saved_label_parts(label: Seq<char>) -> (Seq<char>, Seq<char>) {
    let normalized = replace_seq(replace_seq(label, "<br/>"@, "\n"@), "<br>"@, "\n"@);
    let ls = lines(normalized);
    let title = if ls.len() > 0 {
        trim(ls[0])
    } else {
        seq![]
    };
    let rest = if ls.len() > 0 {
        ls.drop_first()
    } else {
        seq![]
    };
    (title, trim(join(rest, "\n"@)))
}

/// Splits a saved label into the note's title and body.
pub fn split_saved_label(label: &str) -> (r: (String, String))
    ensures
        (r.0@, r.1@) == saved_label_parts(label@),
{
    let cs = chars_of(label);
    proof {
        reveal_strlit("<br/>");
        reveal_strlit("<br>");
    }
    let a = replace_with(cs.as_slice(), "<br/>", "\n");
    let b = replace_with(a.as_slice(), "<br>", "\n");
    let mut ls = lines_of(b.as_slice());
    let title = if ls.len() > 0 {
        trimmed(ls[0].as_slice())
    } else {
        Vec::new()
    };
    let ghost lv = views(ls@);
    if ls.len() > 0 {
        ls.remove(0);
        assert(views(ls@) =~= lv.drop_first());
    }
    let nl = chars_of("\n");
    let body_raw = join_with(&ls, nl.as_slice());
    let body = trimmed(body_raw.as_slice());
    proof {
        if lv.len() == 0 {
            assert(title@ =~= Seq::<char>::empty());
            assert(views(ls@) =~= Seq::<Seq<char>>::empty());
        }
    }
    (string_of(title.as_slice()), string_of(body.as_slice()))
}

/// The first line of the layout block.
pub open spec fn layout_start() -> Seq<char> {
    "%% OXDRAW LAYOUT START"@
}

/// The last line of the layout block.
pub open spec fn layout_end() -> Seq<char> {
    "%% OXDRAW LAYOUT END"@
}

/// A line inside the layout block without its indentation and `%%`.
pub open spec fn layout_segment(line: Seq<char>) -> Seq<char> {
    let a = trim_start(line);
    if starts_with(a, "%%"@) {
        trim_start(a.skip(2))
    } else {
        a
    }
}

/// The definition lines and the layout lines of a saved file, and whether
/// the scan ends inside the layout block. The block markers are matched
/// ignoring ASCII case and surrounding white space; blank layout lines are
/// dropped.
pub open spec fn scan_layout(ls: Seq<Seq<char>>) -> (Seq<Seq<char>>, Seq<Seq<char>>, bool)
    decreases ls.len(),
{
    if ls.len() == 0 {
        (seq![], seq![], false)
    } else {
        let (d, l, b) = scan_layout(ls.drop_last());
        let line = ls.last();
        let t = trim(line);
        if eq_ignore_case(t, layout_start()) {
            (d, l, true)
        } else if eq_ignore_case(t, layout_end()) {
            (d, l, false)
        } else if b {
            if is_blank(layout_segment(line)) {
                (d, l, b)
            } else {
                (d, l.push(layout_segment(line)), b)
            }
        } else {
            (d.push(line), l, b)
        }
    }
}

/// A saved file split into its Mermaid definition (lines outside the layout
/// block, ending with a line break when the file does) and the text of its
/// layout block, if the block has any line.
pub open spec fn saved_parts(source: Seq<char>) -> (Seq<char>, Option<Seq<char>>) {
    let (d, l, _) = scan_layout(lines(source));
    let def = join(d, "\n"@) + if source.len() > 0 && source.last() == '\n' {
        "\n"@
    } else {
        seq![]
    };
    (def, if l.len() == 0 {
        None
    } else {
        Some(join(l, "\n"@))
    })
}

/// A saved file: its Mermaid definition, and the JSON text of its layout
/// block when it has one.
pub struct SavedText {
    pub definition: String,
    pub layout: Option<String>,
}

/// Splits a saved `.mmd` file into its definition and its layout block.
pub fn split_saved_layout(source: &str) -> (r: SavedText)
    ensures
        (r.definition@, match r.layout {
            Some(t) => Some(t@),
            None => None,
        }) == saved_parts(source@),
{
    let cs = chars_of(source);
    let ls = lines_of(cs.as_slice());
    let ghost lv = views(ls@);
    let mut defs: Vec<Vec<char>> = Vec::new();
    let mut layout: Vec<Vec<char>> = Vec::new();
    let mut in_block = false;
    let mut i: usize = 0;
    assert(lv.take(0) =~= Seq::<Seq<char>>::empty());
    while i < ls.len()
        invariant
            i <= ls@.len(),
            lv == views(ls@),
            lv == lines(source@),
            scan_layout(lv.take(i as int)) == (views(defs@), views(layout@), in_block),
        decreases ls@.len() - i,
    {
        let line = &ls[i];
        assert(lv.take(i + 1).drop_last() =~= lv.take(i as int));
        assert(lv.take(i + 1).last() == line@);
        let t = trimmed(line.as_slice());
        if same_ignoring_case(t.as_slice(), "%% OXDRAW LAYOUT START") {
            in_block = true;
        } else if same_ignoring_case(t.as_slice(), "%% OXDRAW LAYOUT END") {
            in_block = false;
        } else if in_block {
            let seg = layout_segment_of(line.as_slice());
            if !blank(seg.as_slice()) {
                let ghost before = layout@;
                let ghost sv = seg@;
                layout.push(seg);
                assert(views(layout@) =~= views(before).push(sv));
            }
        } else {
            let ghost before = defs@;
            let copy = slice_range(line.as_slice(), 0, line.len());
            assert(copy@ =~= line@);
            let ghost cv = copy@;
            defs.push(copy);
            assert(views(defs@) =~= views(before).push(cv));
        }
        i += 1;
    }
    assert(lv.take(ls@.len() as int) =~= lv);
    let nl = chars_of("\n");
    let mut def = join_with(&defs, nl.as_slice());
    proof {
        reveal_strlit("\n");
    }
    if cs.len() > 0 && cs[cs.len() - 1] == '\n' {
        def.push('\n');
    }
    assert(def@ =~= saved_parts(source@).0);
    let layout_text = if layout.len() == 0 {
        None
    } else {
        let j = join_with(&layout, nl.as_slice());
        Some(string_of(j.as_slice()))
    };
    SavedText { definition: string_of(def.as_slice()), layout: layout_text }
}

/// The layout segment of one line inside the block.
fn layout_segment_of(line: &[char]) -> (r: Vec<char>)
    ensures
        r@ == layout_segment(line@),
{
    let a = trimmed_start(line);
    let pct = chars_of("%%");
    proof {
        reveal_strlit("%%");
    }
    if has_prefix(a.as_slice(), pct.as_slice()) {
        let rest = slice_range(a.as_slice(), 2, a.len());
        assert(rest@ =~= a@.skip(2));
        trimmed_start(rest.as_slice())
    } else {
        a
    }
}

/// The lines of `ls`, each written as a Mermaid comment `%% line`.
pub open spec fn comment_lines(ls: Seq<Seq<char>>) -> Seq<char>
    decreases ls.len(),
{
    if ls.len() == 0 {
        seq![]
    } else {
        comment_lines(ls.drop_last()) + "%% "@ + ls.last() + "\n"@
    }
}

/// A definition followed by a layout block holding `layout` (JSON text)
/// line by line as comments; the definition alone, ending with one line
/// break, when there is no layout.
pub open spec fn merged(definition: Seq<char>, layout: Option<Seq<char>>) -> Seq<char> {
    let base = trim_end_char(definition, '\n') + "\n"@;
    match layout {
        None => base,
        Some(json) => base + "\n"@ + layout_start() + "\n"@ + comment_lines(lines(json))
            + layout_end() + "\n"@,
    }
}

/// Appends the layout block to a definition.
pub fn merge_mmd_and_layout(definition: &str, layout: Option<&str>) -> (r: String)
    ensures
        r@ == merged(definition@, match layout {
            Some(t) => Some(t@),
            None => None,
        }),
{
    let cs = chars_of(definition);
    let trimmed_def = trimmed_end_char(cs.as_slice(), '\n');
    let mut out = string_of(trimmed_def.as_slice());
    push_str(&mut out, "\n");
    match layout {
        None => out,
        Some(json) => {
            let ghost base = out@;
            push_str(&mut out, "\n");
            push_str(&mut out, "%% OXDRAW LAYOUT START");
            push_str(&mut out, "\n");
            let jc = chars_of(json);
            let ls = lines_of(jc.as_slice());
            let ghost lv = views(ls@);
            let ghost head = out@;
            let mut i: usize = 0;
            assert(lv.take(0) =~= Seq::<Seq<char>>::empty());
            while i < ls.len()
                invariant
                    i <= ls@.len(),
                    lv == views(ls@),
                    out@ == head + comment_lines(lv.take(i as int)),
                decreases ls@.len() - i,
            {
                push_str(&mut out, "%% ");
                push_chars(&mut out, ls[i].as_slice());
                push_str(&mut out, "\n");
                proof {
                    assert(lv.take(i + 1).drop_last() =~= lv.take(i as int));
                    assert(lv.take(i + 1).last() == ls@[i as int]@);
                    assert(out@ =~= head + comment_lines(lv.take(i + 1)));
                }
                i += 1;
            }
            assert(lv.take(ls@.len() as int) =~= lv);
            push_str(&mut out, "%% OXDRAW LAYOUT END");
            push_str(&mut out, "\n");
            assert(out@ =~= merged(definition@, Some(json@)));
            out
        },
    }
}

/// A path quoted for the shell: in single quotes, each `'` written `'\''`.
pub open spec fn quoted_for_shell(path: Seq<char>) -> Seq<char> {
    "'"@ + replace_char(path, '\'', "'\\''"@) + "'"@
}

/// Quotes a path (as displayed) for the shell.
pub fn shell_quote(path: &str) -> (r: String)
    ensures
        r@ == quoted_for_shell(path@),
{
    let cs = chars_of(path);
    let inner = replace_char_with(cs.as_slice(), '\'', "'\\''");
    let mut r = text("'");
    push_chars(&mut r, inner.as_slice());
    push_str(&mut r, "'");
    r
}

fn text(s: &str) -> (r: String)
    ensures
        r@ == s@,
{
    let mut r = String::new();
    push_str(&mut r, s);
    r
}

} // verus!
