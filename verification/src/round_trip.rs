//! What a saved document gives back when it is read again: the Mermaid
//! definition yields the notes' keys and labels and the relations, and a
//! label yields the note's title and body.
use vstd::prelude::*;
use crate::model::{NoteView, Relation, RelationType, operator_of};
use crate::text::{
    is_ws, is_blank, trim, trim_start, trim_end, starts_with, find, lines, strip_cr, words,
    join, replace_char, replace_seq, lemma_trim_start_skip, lemma_trim_start_blank,
    lemma_trim_end_len, lemma_find_at, lemma_find_ws_at, eq_ignore_case, ascii_lower,
    trim_end_char, lemma_find, trim_start_char, lemma_trim_end_take,
};
use crate::markdown::{markdown_of, markdown_parts};
use crate::mermaid::{
    escaped, with_breaks, label_of_note, node_line, edge_line, node_lines, edge_lines,
    definition_of, kind_of_operator, line_item, LineItem, parse_lines, saved_label_parts,
    layout_start, layout_end, layout_segment, scan_layout, saved_parts, merged, comment_lines,
};

verus! {

/// No character of `s` is `c`.
pub open spec fn lacks(s: Seq<char>, c: char) -> bool {
    forall|i: int| 0 <= i < s.len() ==> #[trigger] s[i] != c
}

/// A character that can stand as a key in a saved definition: not white
/// space and not `[`.
pub open spec fn plain_key(c: char) -> bool {
    !is_ws(c) && c != '['
}

/// The label a note is saved with, as it stands between the brackets.
pub open spec fn saved_label(n: NoteView) -> Seq<char> {
    escaped(label_of_note(n.title, n.body))
}

/// A relation whose two keys are plain.
pub open spec fn plain_relation(r: Relation) -> bool {
    plain_key(r.from) && plain_key(r.to)
}

/// The (key, label) pairs a saved definition gives back for `notes`.
pub open spec fn saved_nodes(notes: Seq<NoteView>) -> Seq<(char, Seq<char>)> {
    notes.map_values(|n: NoteView| (n.key, saved_label(n)))
}

/// The relation type read back from the operator `kind` is saved with: a
/// cluster is saved with the plain arrow and read back as directional.
pub open spec fn read_back_kind(kind: RelationType) -> RelationType {
    match kind {
        RelationType::Cluster => RelationType::Directional,
        _ => kind,
    }
}

/// The relations a saved definition gives back for `rels`.
pub open spec fn read_back_relations(rels: Seq<Relation>) -> Seq<Relation> {
    rels.map_values(|r: Relation| Relation { from: r.from, to: r.to, kind: read_back_kind(r.kind) })
}

/// Reading the operator a relation type is saved with gives the type back,
/// but for a cluster, which reads back as directional.
pub proof fn law_operator_reads_back(kind: RelationType)
    ensures
        kind_of_operator(operator_of(kind)) == read_back_kind(kind),
{
    reveal_strlit("-->");
    reveal_strlit("<-->");
    reveal_strlit("--o");
    reveal_strlit("-.-");
    assert("-->"@.len() != "<-->"@.len());
    assert("-->"@[2] != "--o"@[2]);
    assert("-->"@[1] != "-.-"@[1]);
    assert("--o"@.len() != "<-->"@.len());
    assert("--o"@[1] != "-.-"@[1]);
}

/// The definition line of a note, without its line break.
spec fn node_text(n: NoteView) -> Seq<char> {
    seq![' ', ' ', ' ', ' ', n.key, '['] + saved_label(n) + seq![']']
}

/// The definition line of a relation, without its line break.
spec fn edge_text(r: Relation) -> Seq<char> {
    seq![' ', ' ', ' ', ' ', r.from, ' '] + operator_of(r.kind) + seq![' ', r.to]
}

spec fn node_texts(notes: Seq<NoteView>) -> Seq<Seq<char>> {
    notes.map_values(|n: NoteView| node_text(n))
}

spec fn edge_texts(rels: Seq<Relation>) -> Seq<Seq<char>> {
    rels.map_values(|r: Relation| edge_text(r))
}

spec fn header() -> Seq<char> {
    seq!['g', 'r', 'a', 'p', 'h', ' ', 'L', 'R']
}

proof fn lemma_replace_char_lacks(s: Seq<char>, c: char, rep: Seq<char>, x: char)
    requires
        forall|i: int| 0 <= i < s.len() ==> #[trigger] s[i] != x || s[i] == c,
        lacks(rep, x),
    ensures
        lacks(replace_char(s, c, rep), x),
    decreases s.len(),
{
    if s.len() > 0 {
        let p = s.drop_last();
        assert forall|i: int| 0 <= i < p.len() implies #[trigger] p[i] != x || p[i] == c by {
            assert(p[i] == s[i]);
        }
        lemma_replace_char_lacks(p, c, rep, x);
        let pre = replace_char(p, c, rep);
        let piece = if s.last() == c {
            rep
        } else {
            seq![s.last()]
        };
        let out = pre + piece;
        assert(replace_char(s, c, rep) == out);
        assert forall|i: int| 0 <= i < out.len() implies #[trigger] out[i] != x by {
            if i < pre.len() {
                assert(out[i] == pre[i]);
            } else {
                assert(out[i] == piece[i - pre.len()]);
            }
        }
    }
}

proof fn lemma_replace_char_first(s: Seq<char>, c: char, rep: Seq<char>)
    requires
        s.len() > 0,
        rep.len() > 0,
    ensures
        replace_char(s, c, rep).len() > 0,
        replace_char(s, c, rep)[0] == (if s[0] == c {
            rep[0]
        } else {
            s[0]
        }),
    decreases s.len(),
{
    let p = s.drop_last();
    if s.len() == 1 {
        assert(replace_char(p, c, rep) == Seq::<char>::empty());
    } else {
        lemma_replace_char_first(p, c, rep);
        assert(p[0] == s[0]);
    }
}

proof fn lemma_replace_char_same(s: Seq<char>, c: char, rep: Seq<char>)
    requires
        lacks(s, c),
    ensures
        replace_char(s, c, rep) == s,
    decreases s.len(),
{
    if s.len() > 0 {
        let p = s.drop_last();
        assert forall|i: int| 0 <= i < p.len() implies #[trigger] p[i] != c by {
            assert(p[i] == s[i]);
        }
        lemma_replace_char_same(p, c, rep);
        assert(s.last() == s[s.len() - 1]);
        assert(p.push(s.last()) =~= s);
        assert(p + seq![s.last()] =~= s);
    }
}

/// A saved label has no line break, and does not begin with `"`.
proof fn lemma_saved_label(n: NoteView)
    ensures
        lacks(saved_label(n), '\n'),
        saved_label(n).len() > 0 ==> saved_label(n)[0] != '"',
{
    reveal_strlit("<br/>");
    reveal_strlit("\\\"");
    let br = "<br/>"@;
    assert(lacks(br, '\n'));
    assert(lacks("\\\""@, '\n'));
    lemma_replace_char_lacks(n.title, '\n', br, '\n');
    lemma_replace_char_lacks(n.body, '\n', br, '\n');
    let label = label_of_note(n.title, n.body);
    let t = with_breaks(n.title);
    let b = with_breaks(n.body);
    if !is_blank(n.body) {
        assert forall|i: int| 0 <= i < label.len() implies #[trigger] label[i] != '\n' by {
            assert(label == t + br + b);
            if i < t.len() {
                assert(label[i] == t[i]);
            } else if i < t.len() + br.len() {
                assert(label[i] == br[i - t.len()]);
            } else {
                assert(label[i] == b[i - t.len() - br.len()]);
            }
        }
    }
    lemma_replace_char_lacks(label, '"', "\\\""@, '\n');
    if label.len() > 0 {
        lemma_replace_char_first(label, '"', "\\\""@);
    }
}

proof fn lemma_lines_cons(a: Seq<char>, rest: Seq<char>)
    requires
        lacks(a, '\n'),
    ensures
        lines(a + seq!['\n'] + rest) == seq![strip_cr(a)] + lines(rest),
{
    let s = a + seq!['\n'] + rest;
    assert forall|k: int| 0 <= k < a.len() implies #[trigger] s[k] != '\n' by {
        assert(s[k] == a[k]);
    }
    assert(s[a.len() as int] == '\n');
    lemma_find_at(s, '\n', a.len() as int);
    assert(s.take(a.len() as int) =~= a);
    assert(s.skip(a.len() as int + 1) =~= rest);
}

proof fn lemma_node_line(n: NoteView)
    requires
        n.key != '\n',
    ensures
        node_line(n) == node_text(n) + seq!['\n'],
        lacks(node_text(n), '\n'),
        strip_cr(node_text(n)) == node_text(n),
{
    reveal_strlit("    ");
    reveal_strlit("[");
    reveal_strlit("]\n");
    assert(node_line(n) =~= node_text(n) + seq!['\n']);
    lemma_saved_label(n);
    let t = node_text(n);
    let e = saved_label(n);
    assert forall|i: int| 0 <= i < t.len() implies #[trigger] t[i] != '\n' by {
        if 6 <= i < 6 + e.len() {
            assert(t[i] == e[i - 6]);
        }
    }
}

proof fn lemma_edge_line(r: Relation)
    requires
        plain_key(r.from),
        plain_key(r.to),
    ensures
        edge_line(r) == edge_text(r) + seq!['\n'],
        lacks(edge_text(r), '\n'),
        strip_cr(edge_text(r)) == edge_text(r),
{
    reveal_strlit("    ");
    reveal_strlit(" ");
    reveal_strlit("\n");
    assert(edge_line(r) =~= edge_text(r) + seq!['\n']);
    lemma_operator_word(r.kind);
    let t = edge_text(r);
    let op = operator_of(r.kind);
    assert forall|i: int| 0 <= i < t.len() implies #[trigger] t[i] != '\n' by {
        if 6 <= i < 6 + op.len() {
            assert(t[i] == op[i - 6]);
        }
    }
}

proof fn lemma_operator_word(kind: RelationType)
    ensures
        operator_of(kind).len() > 0,
        forall|i: int|
            0 <= i < operator_of(kind).len() ==> !is_ws(#[trigger] operator_of(kind)[i])
                && operator_of(kind)[i] != '[' && operator_of(kind)[i] != '\n',
{
    reveal_strlit("-->");
    reveal_strlit("<-->");
    reveal_strlit("--o");
}

proof fn lemma_lines_nodes(notes: Seq<NoteView>, x: Seq<char>)
    requires
        forall|i: int| 0 <= i < notes.len() ==> plain_key(#[trigger] notes[i].key),
    ensures
        lines(node_lines(notes) + x) == node_texts(notes) + lines(x),
    decreases notes.len(),
{
    if notes.len() == 0 {
        assert(node_lines(notes) + x =~= x);
        assert(node_texts(notes) + lines(x) =~= lines(x));
    } else {
        let p = notes.drop_last();
        let l = notes.last();
        assert(plain_key(notes[notes.len() - 1].key));
        assert forall|i: int| 0 <= i < p.len() implies plain_key(#[trigger] p[i].key) by {
            assert(p[i] == notes[i]);
        }
        lemma_node_line(l);
        let y = node_line(l) + x;
        lemma_lines_nodes(p, y);
        assert(node_lines(notes) + x =~= node_lines(p) + y);
        assert(y =~= node_text(l) + seq!['\n'] + x);
        lemma_lines_cons(node_text(l), x);
        assert(node_texts(notes) =~= node_texts(p).push(node_text(l)));
        assert(node_texts(notes) + lines(x) =~= node_texts(p) + (seq![node_text(l)] + lines(x)));
    }
}

proof fn lemma_lines_edges(rels: Seq<Relation>, x: Seq<char>)
    requires
        forall|j: int|
            0 <= j < rels.len() ==> plain_relation(#[trigger] rels[j]),
    ensures
        lines(edge_lines(rels) + x) == edge_texts(rels) + lines(x),
    decreases rels.len(),
{
    if rels.len() == 0 {
        assert(edge_lines(rels) + x =~= x);
        assert(edge_texts(rels) + lines(x) =~= lines(x));
    } else {
        let p = rels.drop_last();
        let l = rels.last();
        assert(plain_relation(rels[rels.len() - 1]));
        assert forall|j: int| 0 <= j < p.len() implies plain_relation(#[trigger] p[j]) by {
            assert(p[j] == rels[j]);
            assert(plain_relation(rels[j]));
        }
        lemma_edge_line(l);
        let y = edge_line(l) + x;
        lemma_lines_edges(p, y);
        assert(edge_lines(rels) + x =~= edge_lines(p) + y);
        assert(y =~= edge_text(l) + seq!['\n'] + x);
        lemma_lines_cons(edge_text(l), x);
        assert(edge_texts(rels) =~= edge_texts(p).push(edge_text(l)));
        assert(edge_texts(rels) + lines(x) =~= edge_texts(p) + (seq![edge_text(l)] + lines(x)));
    }
}

proof fn lemma_trim_plain(t: Seq<char>)
    requires
        t.len() > 0,
        !is_ws(t[0]),
        !is_ws(t.last()),
    ensures
        trim(t) == t,
{
    assert(trim_start(t) == t);
    assert(trim_end(t) == t);
}

proof fn lemma_header_item()
    ensures
        line_item(header()) == LineItem::Skip,
        trim(header()) == header(),
{
    reveal_strlit("graph ");
    let h = header();
    lemma_trim_plain(h);
    assert(h.take(6) =~= "graph "@);
}

proof fn lemma_not_graph(t: Seq<char>)
    requires
        t.len() >= 2,
        t[1] != 'r',
    ensures
        !starts_with(t, "graph "@),
{
    reveal_strlit("graph ");
    if starts_with(t, "graph "@) {
        assert(t.take(6)[1] == "graph "@[1]);
    }
}

proof fn lemma_node_item(n: NoteView)
    requires
        plain_key(n.key),
    ensures
        line_item(node_text(n)) == LineItem::Node(n.key, saved_label(n)),
        trim(node_text(n)).len() >= 2,
        trim(node_text(n))[1] == '[',
{
    let e = saved_label(n);
    lemma_saved_label(n);
    let s = node_text(n);
    let t = s.skip(4);
    assert(t =~= seq![n.key, '['] + e + seq![']']);
    lemma_trim_start_skip(s, 4);
    lemma_trim_plain(t);
    assert(trim(s) == t);
    lemma_not_graph(t);
    lemma_find_at(t, '[', 1);
    let right = t.skip(2);
    assert(right =~= e + seq![']']);
    assert(right.drop_last() =~= e);
    assert(t.take(1) =~= seq![n.key]);
    lemma_trim_plain(seq![n.key]);
}

proof fn lemma_edge_item(r: Relation)
    requires
        plain_key(r.from),
        plain_key(r.to),
    ensures
        line_item(edge_text(r)) == LineItem::Edge(
            Relation { from: r.from, to: r.to, kind: kind_of_operator(operator_of(r.kind)) },
        ),
        trim(edge_text(r)).len() >= 2,
        trim(edge_text(r))[1] == ' ',
{
    let op = operator_of(r.kind);
    lemma_operator_word(r.kind);
    let s = edge_text(r);
    let t = s.skip(4);
    assert(t =~= seq![r.from, ' '] + op + seq![' ', r.to]);
    lemma_trim_start_skip(s, 4);
    lemma_trim_plain(t);
    assert(trim(s) == t);
    lemma_not_graph(t);
    assert forall|k: int| 0 <= k < t.len() implies #[trigger] t[k] != '[' by {
        if 2 <= k < 2 + op.len() {
            assert(t[k] == op[k - 2]);
        }
    }
    lemma_find_at(t, '[', t.len() as int);
    lemma_find_ws_at(t, 1);
    let u = t.skip(1);
    assert(u =~= seq![' '] + op + seq![' ', r.to]);
    let v = u.drop_first();
    assert(v =~= op + seq![' ', r.to]);
    assert forall|k: int| 0 <= k < op.len() implies !is_ws(#[trigger] v[k]) by {
        assert(v[k] == op[k]);
    }
    lemma_find_ws_at(v, op.len() as int);
    let w = v.skip(op.len() as int);
    assert(w =~= seq![' ', r.to]);
    let z = w.drop_first();
    assert(z =~= seq![r.to]);
    lemma_find_ws_at(z, 1);
    assert(z.skip(1) =~= Seq::<char>::empty());
    assert(words(z.skip(1)) == Seq::<Seq<char>>::empty());
    assert(z.take(1) =~= z);
    assert(words(z) =~= seq![z]);
    assert(words(w) == words(z));
    assert(v.take(op.len() as int) =~= op);
    assert(words(v) =~= seq![op] + words(w));
    assert(words(u) == words(v));
    assert(t.take(1) =~= seq![r.from]);
    assert(words(t) =~= seq![seq![r.from]] + words(u));
    assert(words(trim(s)) =~= seq![seq![r.from], op, seq![r.to]]);
}

proof fn lemma_parse_nodes(notes: Seq<NoteView>)
    requires
        forall|i: int| 0 <= i < notes.len() ==> plain_key(#[trigger] notes[i].key),
    ensures
        parse_lines(seq![header()] + node_texts(notes)) == Some(
            (saved_nodes(notes), Seq::<Relation>::empty()),
        ),
    decreases notes.len(),
{
    lemma_header_item();
    let ls = seq![header()] + node_texts(notes);
    if notes.len() == 0 {
        assert(ls =~= seq![header()]);
        assert(ls.drop_last() =~= Seq::<Seq<char>>::empty());
        assert(parse_lines(ls.drop_last()) == Some(
            (Seq::<(char, Seq<char>)>::empty(), Seq::<Relation>::empty()),
        ));
        assert(ls.last() == header());
        assert(saved_nodes(notes) =~= Seq::<(char, Seq<char>)>::empty());
    } else {
        let p = notes.drop_last();
        assert forall|i: int| 0 <= i < p.len() implies plain_key(#[trigger] p[i].key) by {
            assert(p[i] == notes[i]);
        }
        lemma_parse_nodes(p);
        assert(ls.drop_last() =~= seq![header()] + node_texts(p));
        assert(ls.last() == node_text(notes.last()));
        assert(plain_key(notes[notes.len() - 1].key));
        lemma_node_item(notes.last());
        assert(saved_nodes(notes) =~= saved_nodes(p).push(
            (notes.last().key, saved_label(notes.last())),
        ));
        assert(parse_lines(ls) == Some((saved_nodes(p).push(
            (notes.last().key, saved_label(notes.last())),
        ), Seq::<Relation>::empty())));
    }
}

proof fn lemma_parse_edges(notes: Seq<NoteView>, rels: Seq<Relation>)
    requires
        forall|i: int| 0 <= i < notes.len() ==> plain_key(#[trigger] notes[i].key),
        forall|j: int|
            0 <= j < rels.len() ==> plain_relation(#[trigger] rels[j]),
    ensures
        parse_lines(seq![header()] + node_texts(notes) + edge_texts(rels)) == Some(
            (saved_nodes(notes), read_back_relations(rels)),
        ),
    decreases rels.len(),
{
    let ls = seq![header()] + node_texts(notes) + edge_texts(rels);
    if rels.len() == 0 {
        lemma_parse_nodes(notes);
        assert(ls =~= seq![header()] + node_texts(notes));
        assert(read_back_relations(rels) =~= Seq::<Relation>::empty());
    } else {
        let p = rels.drop_last();
        let l = rels.last();
        assert forall|j: int| 0 <= j < p.len() implies plain_relation(#[trigger] p[j]) by {
            assert(p[j] == rels[j]);
            assert(plain_relation(rels[j]));
        }
        lemma_parse_edges(notes, p);
        assert(ls.drop_last() =~= seq![header()] + node_texts(notes) + edge_texts(p));
        assert(ls.last() == edge_text(l));
        assert(plain_relation(rels[rels.len() - 1]));
        lemma_edge_item(l);
        law_operator_reads_back(l.kind);
        assert(read_back_relations(rels) =~= read_back_relations(p).push(
            Relation { from: l.from, to: l.to, kind: read_back_kind(l.kind) },
        ));
    }
}

/// Reading back the Mermaid definition of a document gives each note's key
/// with the label it was saved with, in order, and each relation with its
/// type read back from its operator, when no key is white space or `[`.
pub proof fn law_definition_round_trip(notes: Seq<NoteView>, rels: Seq<Relation>)
    requires
        forall|i: int| 0 <= i < notes.len() ==> plain_key(#[trigger] notes[i].key),
        forall|j: int|
            0 <= j < rels.len() ==> plain_relation(#[trigger] rels[j]),
    ensures
        parse_lines(lines(definition_of(notes, rels))) == Some(
            (saved_nodes(notes), read_back_relations(rels)),
        ),
{
    lemma_definition_lines(notes, rels);
    lemma_parse_edges(notes, rels);
}

/// The lines of a definition.
spec fn definition_lines(notes: Seq<NoteView>, rels: Seq<Relation>) -> Seq<Seq<char>> {
    seq![header()] + node_texts(notes) + edge_texts(rels)
}

proof fn lemma_definition_lines(notes: Seq<NoteView>, rels: Seq<Relation>)
    requires
        forall|i: int| 0 <= i < notes.len() ==> plain_key(#[trigger] notes[i].key),
        forall|j: int| 0 <= j < rels.len() ==> plain_relation(#[trigger] rels[j]),
    ensures
        lines(definition_of(notes, rels)) == definition_lines(notes, rels),
{
    reveal_strlit("graph LR\n");
    let d = definition_of(notes, rels);
    assert("graph LR\n"@ =~= header() + seq!['\n']);
    lemma_lines_edges(rels, Seq::<char>::empty());
    assert(edge_lines(rels) + Seq::<char>::empty() =~= edge_lines(rels));
    assert(lines(Seq::<char>::empty()) == Seq::<Seq<char>>::empty());
    lemma_lines_nodes(notes, edge_lines(rels));
    lemma_lines_cons(header(), node_lines(notes) + edge_lines(rels));
    assert(d =~= header() + seq!['\n'] + (node_lines(notes) + edge_lines(rels)));
    assert(strip_cr(header()) == header());
    assert(lines(d) =~= seq![header()] + node_texts(notes) + edge_texts(rels));
}

/// Whether no stretch of `s` reads `pat`.
pub open spec fn free_of(s: Seq<char>, pat: Seq<char>) -> bool {
    forall|i: int, j: int|
        0 <= i && j == i + pat.len() && j <= s.len() ==> #[trigger] s.subrange(i, j) != pat
}

/// Whether `s` holds neither of the line-break tags `<br/>` and `<br>`.
pub open spec fn free_of_breaks(s: Seq<char>) -> bool {
    free_of(s, "<br/>"@) && free_of(s, "<br>"@)
}

/// Whether no carriage return in `s` stands directly before a line break.
pub open spec fn no_cr_before_lf(s: Seq<char>) -> bool {
    forall|i: int| 0 <= i < s.len() - 1 ==> !(#[trigger] s[i] == '\r' && s[i + 1] == '\n')
}

proof fn lemma_free_of_skip(s: Seq<char>, pat: Seq<char>, k: int)
    requires
        free_of(s, pat),
        0 <= k <= s.len(),
    ensures
        free_of(s.skip(k), pat),
        free_of(s.take(k), pat),
{
    let t = s.skip(k);
    assert forall|i: int, j: int| 0 <= i && j == i + pat.len() && j <= t.len() implies #[trigger] t.subrange(i, j) != pat by {
        assert(t.subrange(i, j) =~= s.subrange(i + k, j + k));
    }
    let u = s.take(k);
    assert forall|i: int, j: int| 0 <= i && j == i + pat.len() && j <= u.len() implies #[trigger] u.subrange(i, j) != pat by {
        assert(u.subrange(i, j) =~= s.subrange(i, j));
    }
}

proof fn lemma_replace_seq_none(s: Seq<char>, pat: Seq<char>, rep: Seq<char>)
    requires
        pat.len() > 0,
        free_of(s, pat),
    ensures
        replace_seq(s, pat, rep) == s,
    decreases s.len(),
{
    if s.len() > 0 {
        if pat.len() <= s.len() {
            assert(s.subrange(0, pat.len() as int) != pat);
            assert(s.take(pat.len() as int) =~= s.subrange(0, pat.len() as int));
        }
        assert(!starts_with(s, pat));
        lemma_free_of_skip(s, pat, 1);
        assert(s.skip(1) =~= s.drop_first());
        lemma_replace_seq_none(s.drop_first(), pat, rep);
        assert(seq![s[0]] + s.drop_first() =~= s);
    }
}

/// The first character of `pat` does not occur again in it.
spec fn head_unique(pat: Seq<char>) -> bool {
    forall|k: int| 1 <= k < pat.len() ==> #[trigger] pat[k] != pat[0]
}

proof fn lemma_replace_seq_split(a: Seq<char>, pat: Seq<char>, b: Seq<char>, rep: Seq<char>)
    requires
        pat.len() > 0,
        head_unique(pat),
        free_of(a, pat),
    ensures
        replace_seq(a + pat + b, pat, rep) == replace_seq(a, pat, rep) + rep + replace_seq(
            b,
            pat,
            rep,
        ),
    decreases a.len(),
{
    let s = a + pat + b;
    let n = pat.len() as int;
    if a.len() == 0 {
        assert(s =~= pat + b);
        assert(s.take(n) =~= pat);
        assert(s.skip(n) =~= b);
        assert(replace_seq(a, pat, rep) == a);
        assert(a + rep + replace_seq(b, pat, rep) =~= rep + replace_seq(b, pat, rep));
    } else {
        if starts_with(s, pat) {
            if n <= a.len() {
                assert(a.subrange(0, n) =~= s.take(n));
                assert(a.subrange(0, n) != pat);
            } else {
                let m = a.len() as int;
                assert(s[m] == pat[0]);
                assert(s.take(n)[m] == s[m]);
                assert(pat[m] != pat[0]);
            }
        }
        assert(!starts_with(s, pat));
        if starts_with(a, pat) {
            assert(a.subrange(0, n) =~= a.take(n));
        }
        assert(!starts_with(a, pat));
        lemma_free_of_skip(a, pat, 1);
        assert(a.skip(1) =~= a.drop_first());
        lemma_replace_seq_split(a.drop_first(), pat, b, rep);
        assert(s.drop_first() =~= a.drop_first() + pat + b);
        assert(s[0] == a[0]);
        assert(replace_seq(s, pat, rep) == seq![s[0]] + replace_seq(s.drop_first(), pat, rep));
        assert(replace_seq(a, pat, rep) == seq![a[0]] + replace_seq(a.drop_first(), pat, rep));
        assert(seq![a[0]] + (replace_seq(a.drop_first(), pat, rep) + rep + replace_seq(b, pat, rep))
            =~= seq![a[0]] + replace_seq(a.drop_first(), pat, rep) + rep + replace_seq(b, pat, rep));
    }
}

proof fn lemma_replace_char_concat(x: Seq<char>, y: Seq<char>, c: char, rep: Seq<char>)
    ensures
        replace_char(x + y, c, rep) == replace_char(x, c, rep) + replace_char(y, c, rep),
    decreases y.len(),
{
    if y.len() == 0 {
        assert(x + y =~= x);
        assert(replace_char(x, c, rep) + replace_char(y, c, rep) =~= replace_char(x, c, rep));
    } else {
        lemma_replace_char_concat(x, y.drop_last(), c, rep);
        assert((x + y).drop_last() =~= x + y.drop_last());
        assert((x + y).last() == y.last());
        let piece = if y.last() == c {
            rep
        } else {
            seq![y.last()]
        };
        assert(replace_char(x + y, c, rep) == replace_char(x + y.drop_last(), c, rep) + piece);
        assert(replace_char(y, c, rep) == replace_char(y.drop_last(), c, rep) + piece);
        assert(replace_char(x, c, rep) + replace_char(y.drop_last(), c, rep) + piece
            =~= replace_char(x, c, rep) + (replace_char(y.drop_last(), c, rep) + piece));
    }
}

proof fn lemma_breaks_undone(s: Seq<char>, br: Seq<char>)
    requires
        br.len() > 0,
        head_unique(br),
        free_of(s, br),
    ensures
        replace_seq(replace_char(s, '\n', br), br, seq!['\n']) == s,
    decreases s.len(),
{
    let p = find(s, '\n') as int;
    crate::text::lemma_find(s, '\n');
    if p == s.len() {
        lemma_replace_char_same(s, '\n', br);
        lemma_replace_seq_none(s, br, seq!['\n']);
    } else {
        let a = s.take(p);
        let r = s.skip(p + 1);
        assert(s =~= a + seq!['\n'] + r);
        lemma_replace_char_concat(a + seq!['\n'], r, '\n', br);
        lemma_replace_char_concat(a, seq!['\n'], '\n', br);
        assert(seq!['\n'].drop_last() =~= Seq::<char>::empty());
        assert(replace_char(seq!['\n'].drop_last(), '\n', br) == Seq::<char>::empty());
        assert(replace_char(seq!['\n'], '\n', br) =~= br);
        lemma_replace_char_same(a, '\n', br);
        lemma_free_of_skip(s, br, p);
        lemma_free_of_skip(s, br, p + 1);
        lemma_replace_seq_split(a, br, replace_char(r, '\n', br), seq!['\n']);
        lemma_replace_seq_none(a, br, seq!['\n']);
        lemma_breaks_undone(r, br);
    }
}

proof fn lemma_free_of_joined(a: Seq<char>, b: Seq<char>, pat: Seq<char>)
    requires
        free_of(a, pat),
        free_of(b, pat),
        lacks(pat, '\n'),
    ensures
        free_of(a + seq!['\n'] + b, pat),
{
    let s = a + seq!['\n'] + b;
    let n = pat.len() as int;
    assert forall|i: int, j: int| 0 <= i && j == i + n && j <= s.len() implies #[trigger] s.subrange(i, j) != pat by {
        let m = a.len() as int;
        if j <= m {
            assert(s.subrange(i, j) =~= a.subrange(i, j));
        } else if i > m {
            assert(s.subrange(i, j) =~= b.subrange(i - m - 1, j - m - 1));
        } else {
            assert(s.subrange(i, j)[m - i] == s[m]);
            assert(pat[m - i] != '\n');
        }
    }
}

proof fn lemma_trim_drop_ws_end(s: Seq<char>)
    requires
        s.len() > 0,
        is_ws(s.last()),
    ensures
        trim(s.drop_last()) == trim(s),
    decreases s.len(),
{
    if s.len() == 1 {
        assert(trim_start(s) == trim_start(s.drop_first()));
        assert(s.drop_first() =~= Seq::<char>::empty());
        assert(s.drop_last() =~= Seq::<char>::empty());
    } else if is_ws(s[0]) {
        assert(s.drop_last().drop_first() =~= s.drop_first().drop_last());
        assert(s.drop_last()[0] == s[0]);
        lemma_trim_drop_ws_end(s.drop_first());
    } else {
        assert(s.drop_last()[0] == s[0]);
        assert(trim_start(s) == s);
        assert(trim_start(s.drop_last()) == s.drop_last());
    }
}

proof fn lemma_join_cons(a: Seq<char>, ls: Seq<Seq<char>>, sep: Seq<char>)
    requires
        ls.len() > 0,
    ensures
        join(seq![a] + ls, sep) == a + sep + join(ls, sep),
    decreases ls.len(),
{
    let all = seq![a] + ls;
    if ls.len() == 1 {
        assert(all.drop_last() =~= seq![a]);
        assert(all.last() == ls[0]);
        assert(join(seq![a], sep) == a);
        assert(join(ls, sep) == ls[0]);
    } else {
        lemma_join_cons(a, ls.drop_last(), sep);
        assert(all.drop_last() =~= seq![a] + ls.drop_last());
        assert(all.last() == ls.last());
        assert(a + sep + join(ls.drop_last(), sep) + sep + ls.last() =~= a + sep + (join(
            ls.drop_last(),
            sep,
        ) + sep + ls.last()));
    }
}

/// `s` without one final line break.
pub open spec fn without_final_break(s: Seq<char>) -> Seq<char> {
    if s.len() > 0 && s.last() == '\n' {
        s.drop_last()
    } else {
        s
    }
}

proof fn lemma_join_lines(s: Seq<char>)
    requires
        no_cr_before_lf(s),
    ensures
        join(lines(s), seq!['\n']) == without_final_break(s),
    decreases s.len(),
{
    if s.len() > 0 {
        let p = find(s, '\n') as int;
        crate::text::lemma_find(s, '\n');
        if p == s.len() {
            assert(lines(s) == seq![s]);
            if s.last() == '\n' {
                assert(s[s.len() - 1] == '\n');
            }
        } else {
            let a = s.take(p);
            let r = s.skip(p + 1);
            assert(s =~= a + seq!['\n'] + r);
            if a.len() > 0 && a.last() == '\r' {
                assert(s[p - 1] == '\r');
                assert(s[p] == '\n');
            }
            assert(strip_cr(a) == a);
            assert(lines(s) == seq![a] + lines(r));
            assert forall|i: int| 0 <= i < r.len() - 1 implies !(#[trigger] r[i] == '\r' && r[i
                + 1] == '\n') by {
                assert(r[i] == s[i + p + 1]);
                assert(r[i + 1] == s[i + p + 2]);
            }
            lemma_join_lines(r);
            if r.len() == 0 {
                assert(lines(r) == Seq::<Seq<char>>::empty());
                assert(seq![a] + lines(r) =~= seq![a]);
                assert(s.last() == '\n');
                assert(s.drop_last() =~= a);
            } else {
                assert(lines(r).len() > 0);
                lemma_join_cons(a, lines(r), seq!['\n']);
                assert(s.last() == r.last());
                if r.last() == '\n' {
                    assert(s.drop_last() =~= a + seq!['\n'] + r.drop_last());
                }
            }
        }
    }
}

proof fn lemma_trim_blank(s: Seq<char>)
    requires
        is_blank(s),
    ensures
        trim(s) == Seq::<char>::empty(),
{
    lemma_trim_start_blank(s);
    assert(trim_start(s) =~= Seq::<char>::empty());
}

/// A note's title and body come back from the label they are saved with,
/// each trimmed, when the title has no line break, neither holds a
/// `<br/>` or `<br>` tag, and no carriage return in the body stands before
/// a line break.
pub proof fn law_label_round_trip(title: Seq<char>, body: Seq<char>)
    requires
        lacks(title, '\n'),
        free_of_breaks(title),
        free_of_breaks(body),
        no_cr_before_lf(body),
    ensures
        saved_label_parts(label_of_note(title, body)) == (trim(title), trim(body)),
{
    reveal_strlit("<br/>");
    reveal_strlit("<br>");
    reveal_strlit("\n");
    let br = "<br/>"@;
    let br2 = "<br>"@;
    let nl = "\n"@;
    assert(nl =~= seq!['\n']);
    assert(head_unique(br));
    assert(lacks(br2, '\n'));
    lemma_replace_char_same(title, '\n', br);
    assert(with_breaks(title) == title);
    let label = label_of_note(title, body);
    let joined = if is_blank(body) {
        title
    } else {
        title + nl + body
    };
    if is_blank(body) {
        lemma_replace_seq_none(title, br, nl);
    } else {
        assert(label == title + br + with_breaks(body));
        lemma_replace_seq_split(title, br, with_breaks(body), nl);
        lemma_replace_seq_none(title, br, nl);
        lemma_breaks_undone(body, br);
        lemma_free_of_joined(title, body, br2);
    }
    assert(replace_seq(label, br, nl) == joined);
    lemma_replace_seq_none(joined, br2, nl);
    let ls = lines(joined);
    if is_blank(body) {
        lemma_trim_blank(body);
        if title.len() == 0 {
            assert(ls == Seq::<Seq<char>>::empty());
            assert(trim(title) =~= Seq::<char>::empty());
            assert(join(Seq::<Seq<char>>::empty(), nl) == Seq::<char>::empty());
            assert(trim(Seq::<char>::empty()) == Seq::<char>::empty());
        } else {
            lemma_find_at(title, '\n', title.len() as int);
            assert(ls == seq![title]);
            assert(ls.drop_first() =~= Seq::<Seq<char>>::empty());
            assert(trim(Seq::<char>::empty()) == Seq::<char>::empty());
        }
    } else {
        lemma_lines_cons(title, body);
        assert(joined =~= title + seq!['\n'] + body);
        assert(ls == seq![strip_cr(title)] + lines(body));
        if title.len() > 0 && title.last() == '\r' {
            lemma_trim_drop_ws_end(title);
        }
        assert(trim(strip_cr(title)) == trim(title));
        assert(ls.drop_first() =~= lines(body));
        lemma_join_lines(body);
        if body.last() == '\n' {
            lemma_trim_drop_ws_end(body);
        }
        assert(trim(without_final_break(body)) == trim(body));
    }
}

/// Whether a note comes back whole from a saved definition: its key is
/// plain, its title has no line break, neither title nor body holds `"` or
/// a line-break tag, and no carriage return in the body stands before a line
/// break.
pub open spec fn survives_saving(n: NoteView) -> bool {
    &&& plain_key(n.key)
    &&& lacks(n.title, '\n')
    &&& lacks(n.title, '"')
    &&& lacks(n.body, '"')
    &&& free_of_breaks(n.title)
    &&& free_of_breaks(n.body)
    &&& no_cr_before_lf(n.body)
}

proof fn lemma_label_unescaped(n: NoteView)
    requires
        lacks(n.title, '"'),
        lacks(n.body, '"'),
    ensures
        saved_label(n) == label_of_note(n.title, n.body),
{
    reveal_strlit("<br/>");
    let br = "<br/>"@;
    assert(lacks(br, '"'));
    lemma_replace_char_lacks(n.title, '\n', br, '"');
    lemma_replace_char_lacks(n.body, '\n', br, '"');
    let t = with_breaks(n.title);
    let b = with_breaks(n.body);
    let label = label_of_note(n.title, n.body);
    if !is_blank(n.body) {
        assert forall|i: int| 0 <= i < label.len() implies #[trigger] label[i] != '"' by {
            assert(label == t + br + b);
            if i < t.len() {
                assert(label[i] == t[i]);
            } else if i < t.len() + br.len() {
                assert(label[i] == br[i - t.len()]);
            } else {
                assert(label[i] == b[i - t.len() - br.len()]);
            }
        }
    }
    lemma_replace_char_same(label, '"', "\\\""@);
}

/// Saving notes and relations and reading the definition back gives, in
/// order, each note's key with its title and body (trimmed), and each
/// relation with its type read back from its operator, for notes that
/// survive saving and relations between plain keys.
pub proof fn law_saved_notes_round_trip(notes: Seq<NoteView>, rels: Seq<Relation>)
    requires
        forall|i: int| 0 <= i < notes.len() ==> survives_saving(#[trigger] notes[i]),
        forall|j: int| 0 <= j < rels.len() ==> plain_relation(#[trigger] rels[j]),
    ensures
        parse_lines(lines(definition_of(notes, rels))) matches Some((ns, rs)) && ns.len()
            == notes.len() && rs == read_back_relations(rels) && forall|i: int|
            0 <= i < notes.len() ==> #[trigger] ns[i].0 == notes[i].key && saved_label_parts(
                ns[i].1,
            ) == (trim(notes[i].title), trim(notes[i].body)),
{
    assert forall|i: int| 0 <= i < notes.len() implies plain_key(#[trigger] notes[i].key) by {
        assert(survives_saving(notes[i]));
    }
    law_definition_round_trip(notes, rels);
    let ns = saved_nodes(notes);
    assert forall|i: int| 0 <= i < notes.len() implies #[trigger] ns[i].0 == notes[i].key
        && saved_label_parts(ns[i].1) == (trim(notes[i].title), trim(notes[i].body)) by {
        let n = notes[i];
        assert(survives_saving(n));
        lemma_label_unescaped(n);
        law_label_round_trip(n.title, n.body);
    }
}

/// Whether a line is taken for one of the layout block's markers.
pub open spec fn marker_line(l: Seq<char>) -> bool {
    eq_ignore_case(trim(l), layout_start()) || eq_ignore_case(trim(l), layout_end())
}

/// A line of layout text that comes back from a saved file: written as a
/// comment it is not taken for a block marker, and it does not end with a
/// carriage return.
pub open spec fn layout_line_ok(l: Seq<char>) -> bool {
    !marker_line("%% "@ + l) && !(l.len() > 0 && l.last() == '\r')
}

/// The layout lines a saved file gives back for the lines `ls` of the layout
/// text: each line that is not blank, without its leading white space.
pub open spec fn kept_layout(ls: Seq<Seq<char>>) -> Seq<Seq<char>>
    decreases ls.len(),
{
    if ls.len() == 0 {
        seq![]
    } else if is_blank(ls.last()) {
        kept_layout(ls.drop_last())
    } else {
        kept_layout(ls.drop_last()).push(trim_start(ls.last()))
    }
}

/// The layout text a saved file gives back for the layout text `json`.
pub open spec fn kept_layout_text(json: Seq<char>) -> Option<Seq<char>> {
    let kept = kept_layout(lines(json));
    if kept.len() == 0 {
        None
    } else {
        Some(join(kept, "\n"@))
    }
}

spec fn commented(ls: Seq<Seq<char>>) -> Seq<Seq<char>> {
    ls.map_values(|l: Seq<char>| "%% "@ + l)
}

/// The lines of `ls`, each followed by a line break.
spec fn terminated(ls: Seq<Seq<char>>) -> Seq<char>
    decreases ls.len(),
{
    if ls.len() == 0 {
        seq![]
    } else {
        terminated(ls.drop_last()) + ls.last() + seq!['\n']
    }
}

proof fn lemma_not_marker(l: Seq<char>)
    requires
        trim(l).len() >= 2,
        trim(l)[1] != '%',
    ensures
        !marker_line(l),
{
    reveal_strlit("%% OXDRAW LAYOUT START");
    reveal_strlit("%% OXDRAW LAYOUT END");
    let t = trim(l);
    let c = t[1];
    assert(ascii_lower(c) != '%') by {
        if 'A' <= c <= 'Z' {
            assert((c as u32) >= 65);
        }
    }
    if eq_ignore_case(t, layout_start()) {
        assert(ascii_lower(t[1]) == ascii_lower(layout_start()[1]));
    }
    if eq_ignore_case(t, layout_end()) {
        assert(ascii_lower(t[1]) == ascii_lower(layout_end()[1]));
    }
}

proof fn lemma_lines_lack_newline(s: Seq<char>)
    ensures
        forall|i: int| 0 <= i < lines(s).len() ==> lacks(#[trigger] lines(s)[i], '\n'),
    decreases s.len(),
{
    if s.len() > 0 {
        let p = find(s, '\n') as int;
        lemma_find(s, '\n');
        if p < s.len() {
            let r = s.skip(p + 1);
            lemma_lines_lack_newline(r);
            let a = strip_cr(s.take(p));
            assert(lacks(a, '\n')) by {
                assert forall|k: int| 0 <= k < a.len() implies #[trigger] a[k] != '\n' by {
                    assert(a[k] == s[k]);
                }
            }
            assert forall|i: int| 0 <= i < lines(s).len() implies lacks(
                #[trigger] lines(s)[i],
                '\n',
            ) by {
                if i > 0 {
                    assert(lines(s)[i] == lines(r)[i - 1]);
                }
            }
        } else {
            assert(lines(s) == seq![s]);
            assert(lacks(s, '\n'));
        }
    }
}

proof fn lemma_lines_terminated(ls: Seq<Seq<char>>, x: Seq<char>)
    requires
        forall|i: int| 0 <= i < ls.len() ==> lacks(#[trigger] ls[i], '\n') && strip_cr(ls[i])
            == ls[i],
    ensures
        lines(terminated(ls) + x) == ls + lines(x),
    decreases ls.len(),
{
    if ls.len() == 0 {
        assert(terminated(ls) + x =~= x);
        assert(ls + lines(x) =~= lines(x));
    } else {
        let p = ls.drop_last();
        let l = ls.last();
        assert(lacks(ls[ls.len() - 1], '\n') && strip_cr(ls[ls.len() - 1]) == ls[ls.len() - 1]);
        assert forall|i: int| 0 <= i < p.len() implies lacks(#[trigger] p[i], '\n') && strip_cr(
            p[i],
        ) == p[i] by {
            assert(p[i] == ls[i]);
            assert(lacks(ls[i], '\n') && strip_cr(ls[i]) == ls[i]);
        }
        let y = l + seq!['\n'] + x;
        lemma_lines_terminated(p, y);
        assert(terminated(ls) + x =~= terminated(p) + y);
        lemma_lines_cons(l, x);
        assert(ls + lines(x) =~= p + (seq![l] + lines(x)));
    }
}

proof fn lemma_join_terminated(ls: Seq<Seq<char>>)
    requires
        ls.len() > 0,
    ensures
        join(ls, seq!['\n']) + seq!['\n'] == terminated(ls),
    decreases ls.len(),
{
    if ls.len() == 1 {
        assert(ls.drop_last() =~= Seq::<Seq<char>>::empty());
        assert(terminated(ls.drop_last()) == Seq::<char>::empty());
        assert(terminated(ls) =~= ls[0] + seq!['\n']);
    } else {
        lemma_join_terminated(ls.drop_last());
        assert(join(ls, seq!['\n']) + seq!['\n'] =~= (join(ls.drop_last(), seq!['\n']) + seq![
            '\n',
        ]) + ls.last() + seq!['\n']);
    }
}

proof fn lemma_terminated_nodes(notes: Seq<NoteView>)
    requires
        forall|i: int| 0 <= i < notes.len() ==> plain_key(#[trigger] notes[i].key),
    ensures
        terminated(seq![header()] + node_texts(notes)) == header() + seq!['\n'] + node_lines(
            notes,
        ),
    decreases notes.len(),
{
    let ls = seq![header()] + node_texts(notes);
    if notes.len() == 0 {
        assert(ls.drop_last() =~= Seq::<Seq<char>>::empty());
        assert(terminated(ls.drop_last()) == Seq::<char>::empty());
        assert(header() + seq!['\n'] + node_lines(notes) =~= Seq::<char>::empty() + ls.last()
            + seq!['\n']);
    } else {
        let p = notes.drop_last();
        assert forall|i: int| 0 <= i < p.len() implies plain_key(#[trigger] p[i].key) by {
            assert(p[i] == notes[i]);
        }
        lemma_terminated_nodes(p);
        assert(ls.drop_last() =~= seq![header()] + node_texts(p));
        assert(plain_key(notes[notes.len() - 1].key));
        lemma_node_line(notes.last());
        assert(header() + seq!['\n'] + node_lines(notes) =~= header() + seq!['\n'] + node_lines(p)
            + node_text(notes.last()) + seq!['\n']);
    }
}

proof fn lemma_terminated_edges(notes: Seq<NoteView>, rels: Seq<Relation>)
    requires
        forall|i: int| 0 <= i < notes.len() ==> plain_key(#[trigger] notes[i].key),
        forall|j: int| 0 <= j < rels.len() ==> plain_relation(#[trigger] rels[j]),
    ensures
        terminated(definition_lines(notes, rels)) == definition_of(notes, rels),
    decreases rels.len(),
{
    reveal_strlit("graph LR\n");
    assert("graph LR\n"@ =~= header() + seq!['\n']);
    let ls = definition_lines(notes, rels);
    if rels.len() == 0 {
        lemma_terminated_nodes(notes);
        assert(ls =~= seq![header()] + node_texts(notes));
        assert(definition_of(notes, rels) =~= header() + seq!['\n'] + node_lines(notes));
    } else {
        let p = rels.drop_last();
        assert forall|j: int| 0 <= j < p.len() implies plain_relation(#[trigger] p[j]) by {
            assert(p[j] == rels[j]);
            assert(plain_relation(rels[j]));
        }
        lemma_terminated_edges(notes, p);
        assert(ls.drop_last() =~= definition_lines(notes, p));
        assert(plain_relation(rels[rels.len() - 1]));
        lemma_edge_line(rels.last());
        assert(definition_of(notes, rels) =~= definition_of(notes, p) + edge_text(rels.last())
            + seq!['\n']);
    }
}

proof fn lemma_scan_plain(ls: Seq<Seq<char>>)
    requires
        forall|i: int| 0 <= i < ls.len() ==> !marker_line(#[trigger] ls[i]),
    ensures
        scan_layout(ls) == (ls, Seq::<Seq<char>>::empty(), false),
    decreases ls.len(),
{
    if ls.len() > 0 {
        let p = ls.drop_last();
        assert forall|i: int| 0 <= i < p.len() implies !marker_line(#[trigger] p[i]) by {
            assert(p[i] == ls[i]);
        }
        lemma_scan_plain(p);
        assert(!marker_line(ls[ls.len() - 1]));
        assert(p.push(ls.last()) =~= ls);
    }
}

proof fn lemma_segment(l: Seq<char>)
    ensures
        layout_segment("%% "@ + l) == trim_start(l),
        is_blank(trim_start(l)) == is_blank(l),
{
    reveal_strlit("%% ");
    reveal_strlit("%%");
    let c = "%% "@ + l;
    assert(trim_start(c) == c);
    assert(c.take(2) =~= "%%"@);
    let rest = c.skip(2);
    assert(rest.drop_first() =~= l);
    assert(trim_start(rest) == trim_start(l));
    lemma_trim_start_blank(l);
    let t = trim_start(l);
    if t.len() > 0 {
        assert(!is_ws(t[0]));
    }
}

proof fn lemma_scan_block(p: Seq<Seq<char>>, jls: Seq<Seq<char>>)
    requires
        scan_layout(p).2,
        forall|i: int| 0 <= i < jls.len() ==> layout_line_ok(#[trigger] jls[i]),
    ensures
        scan_layout(p + commented(jls)) == (
            scan_layout(p).0,
            scan_layout(p).1 + kept_layout(jls),
            true,
        ),
    decreases jls.len(),
{
    let all = p + commented(jls);
    if jls.len() == 0 {
        assert(all =~= p);
        assert(scan_layout(p).1 + kept_layout(jls) =~= scan_layout(p).1);
    } else {
        let q = jls.drop_last();
        assert forall|i: int| 0 <= i < q.len() implies layout_line_ok(#[trigger] q[i]) by {
            assert(q[i] == jls[i]);
        }
        lemma_scan_block(p, q);
        assert(all.drop_last() =~= p + commented(q));
        assert(all.last() == "%% "@ + jls.last());
        assert(layout_line_ok(jls[jls.len() - 1]));
        lemma_segment(jls.last());
        let l = scan_layout(p).1;
        if !is_blank(jls.last()) {
            assert(l + kept_layout(jls) =~= (l + kept_layout(q)).push(trim_start(jls.last())));
        }
    }
}

proof fn lemma_lines_block(jls: Seq<Seq<char>>, x: Seq<char>)
    requires
        forall|i: int| 0 <= i < jls.len() ==> lacks(#[trigger] jls[i], '\n') && layout_line_ok(
            jls[i],
        ),
    ensures
        lines(comment_lines(jls) + x) == commented(jls) + lines(x),
    decreases jls.len(),
{
    reveal_strlit("%% ");
    reveal_strlit("\n");
    if jls.len() == 0 {
        assert(comment_lines(jls) + x =~= x);
        assert(commented(jls) + lines(x) =~= lines(x));
    } else {
        let q = jls.drop_last();
        let l = jls.last();
        assert(lacks(jls[jls.len() - 1], '\n') && layout_line_ok(jls[jls.len() - 1]));
        assert forall|i: int| 0 <= i < q.len() implies lacks(#[trigger] q[i], '\n')
            && layout_line_ok(q[i]) by {
            assert(q[i] == jls[i]);
            assert(lacks(jls[i], '\n') && layout_line_ok(jls[i]));
        }
        let c = "%% "@ + l;
        let y = c + seq!['\n'] + x;
        lemma_lines_block(q, y);
        assert(comment_lines(jls) + x =~= comment_lines(q) + y);
        assert(lacks(c, '\n')) by {
            assert forall|k: int| 0 <= k < c.len() implies #[trigger] c[k] != '\n' by {
                if k >= 3 {
                    assert(c[k] == l[k - 3]);
                }
            }
        }
        assert(strip_cr(c) == c);
        lemma_lines_cons(c, x);
        assert(commented(jls) =~= commented(q).push(c));
        assert(commented(jls) + lines(x) =~= commented(q) + (seq![c] + lines(x)));
    }
}

/// Lines that are plain text: no line break, no trailing carriage return,
/// none taken for a block marker.
spec fn plain_lines(ls: Seq<Seq<char>>) -> bool {
    forall|i: int| 0 <= i < ls.len() ==> lacks(#[trigger] ls[i], '\n') && strip_cr(ls[i])
        == ls[i] && !marker_line(ls[i])
}

proof fn lemma_definition_plain(notes: Seq<NoteView>, rels: Seq<Relation>)
    requires
        forall|i: int| 0 <= i < notes.len() ==> plain_key(#[trigger] notes[i].key),
        forall|j: int| 0 <= j < rels.len() ==> plain_relation(#[trigger] rels[j]),
    ensures
        plain_lines(definition_lines(notes, rels)),
        definition_lines(notes, rels).len() > 0,
        definition_lines(notes, rels).last().len() > 0,
{
    let ls = definition_lines(notes, rels);
    let nn = notes.len() as int;
    assert forall|i: int| 0 <= i < ls.len() implies lacks(#[trigger] ls[i], '\n') && strip_cr(
        ls[i],
    ) == ls[i] && !marker_line(ls[i]) by {
        if i == 0 {
            lemma_header_item();
            lemma_not_marker(header());
        } else if i <= nn {
            assert(ls[i] == node_text(notes[i - 1]));
            assert(plain_key(notes[i - 1].key));
            lemma_node_line(notes[i - 1]);
            lemma_node_item(notes[i - 1]);
            lemma_not_marker(node_text(notes[i - 1]));
        } else {
            assert(ls[i] == edge_text(rels[i - 1 - nn]));
            assert(plain_relation(rels[i - 1 - nn]));
            lemma_edge_line(rels[i - 1 - nn]);
            lemma_edge_item(rels[i - 1 - nn]);
            lemma_not_marker(edge_text(rels[i - 1 - nn]));
        }
    }
    if ls.len() == 1 {
        assert(ls.last() == header());
    } else if rels.len() > 0 {
        assert(ls.last() == edge_text(rels.last()));
    } else {
        assert(ls.last() == node_text(notes.last()));
    }
}

proof fn lemma_ends_once(ls: Seq<Seq<char>>)
    requires
        plain_lines(ls),
        ls.len() > 0,
        ls.last().len() > 0,
    ensures
        trim_end_char(terminated(ls), '\n') + "\n"@ == terminated(ls),
{
    reveal_strlit("\n");
    let d = terminated(ls);
    assert(lacks(ls[ls.len() - 1], '\n'));
    assert(d.drop_last() =~= terminated(ls.drop_last()) + ls.last());
    assert(d.drop_last().last() == ls.last().last());
    assert(trim_end_char(d.drop_last(), '\n') == d.drop_last());
    assert(trim_end_char(d, '\n') + "\n"@ =~= d);
}

/// The lines of a saved file whose definition has the lines `ls` and whose
/// layout text has the lines `jls`.
spec fn saved_lines(ls: Seq<Seq<char>>, jls: Seq<Seq<char>>) -> Seq<Seq<char>> {
    ls + seq![Seq::<char>::empty()] + seq![layout_start()] + commented(jls) + seq![layout_end()]
}

proof fn lemma_merged_lines(ls: Seq<Seq<char>>, json: Seq<char>)
    requires
        plain_lines(ls),
        ls.len() > 0,
        ls.last().len() > 0,
        forall|i: int| 0 <= i < lines(json).len() ==> layout_line_ok(#[trigger] lines(json)[i]),
    ensures
        lines(merged(terminated(ls), Some(json))) == saved_lines(ls, lines(json)),
{
    reveal_strlit("\n");
    reveal_strlit("%% OXDRAW LAYOUT START");
    reveal_strlit("%% OXDRAW LAYOUT END");
    let nl = seq!['\n'];
    assert("\n"@ =~= nl);
    let start = layout_start();
    let end = layout_end();
    let jls = lines(json);
    lemma_ends_once(ls);
    lemma_lines_lack_newline(json);
    assert forall|i: int| 0 <= i < jls.len() implies lacks(#[trigger] jls[i], '\n')
        && layout_line_ok(jls[i]) by {
        assert(lacks(lines(json)[i], '\n'));
    }
    let tail = end + nl;
    lemma_lines_cons(end, Seq::<char>::empty());
    assert(end + nl + Seq::<char>::empty() =~= tail);
    assert(lines(Seq::<char>::empty()) == Seq::<Seq<char>>::empty());
    assert(strip_cr(end) == end);
    lemma_lines_block(jls, tail);
    let block = comment_lines(jls) + tail;
    assert(lacks(start, '\n'));
    lemma_lines_cons(start, block);
    assert(strip_cr(start) == start);
    lemma_lines_cons(Seq::<char>::empty(), start + nl + block);
    assert(strip_cr(Seq::<char>::empty()) == Seq::<char>::empty());
    let after = nl + start + nl + block;
    assert(Seq::<char>::empty() + nl + (start + nl + block) =~= after);
    lemma_lines_terminated(ls, after);
    assert(merged(terminated(ls), Some(json)) =~= terminated(ls) + after);
    assert(lines(merged(terminated(ls), Some(json))) =~= saved_lines(ls, jls));
}

proof fn lemma_saved_scan(ls: Seq<Seq<char>>, jls: Seq<Seq<char>>)
    requires
        forall|i: int| 0 <= i < ls.len() ==> !marker_line(#[trigger] ls[i]),
        forall|i: int| 0 <= i < jls.len() ==> layout_line_ok(#[trigger] jls[i]),
    ensures
        scan_layout(saved_lines(ls, jls)) == (
            ls.push(Seq::<char>::empty()),
            kept_layout(jls),
            false,
        ),
{
    reveal_strlit("%% OXDRAW LAYOUT START");
    reveal_strlit("%% OXDRAW LAYOUT END");
    let start = layout_start();
    let end = layout_end();
    let blank_line = Seq::<char>::empty();
    let first = ls.push(blank_line);
    assert forall|i: int| 0 <= i < first.len() implies !marker_line(#[trigger] first[i]) by {
        if i < ls.len() {
            assert(first[i] == ls[i]);
        } else {
            assert(first[i] == blank_line);
            assert(trim(blank_line) == blank_line);
        }
    }
    lemma_scan_plain(first);
    let with_start = first.push(start);
    lemma_trim_plain(start);
    lemma_trim_plain(end);
    assert(eq_ignore_case(start, start));
    assert(scan_layout(with_start) == (first, Seq::<Seq<char>>::empty(), true)) by {
        assert(with_start.drop_last() =~= first);
    }
    lemma_scan_block(with_start, jls);
    let inside = with_start + commented(jls);
    assert(Seq::<Seq<char>>::empty() + kept_layout(jls) =~= kept_layout(jls));
    let everything = inside.push(end);
    assert(everything =~= saved_lines(ls, jls));
    assert(!eq_ignore_case(end, start));
    assert(eq_ignore_case(end, end));
    assert(everything.drop_last() =~= inside);
}

/// Saving a document with its layout text and splitting the file again
/// gives back the Mermaid definition (with one more blank line, which reads
/// as nothing) and the layout text's non-blank lines, each without its
/// leading white space, when no key is white space or `[` and no layout line
/// is taken for a block marker or ends with a carriage return.
pub proof fn law_layout_round_trip(notes: Seq<NoteView>, rels: Seq<Relation>, json: Seq<char>)
    requires
        forall|i: int| 0 <= i < notes.len() ==> plain_key(#[trigger] notes[i].key),
        forall|j: int| 0 <= j < rels.len() ==> plain_relation(#[trigger] rels[j]),
        forall|i: int| 0 <= i < lines(json).len() ==> layout_line_ok(#[trigger] lines(json)[i]),
    ensures
        saved_parts(merged(definition_of(notes, rels), Some(json))) == (
            definition_of(notes, rels) + "\n"@,
            kept_layout_text(json),
        ),
        parse_lines(lines(definition_of(notes, rels) + "\n"@)) == parse_lines(
            lines(definition_of(notes, rels)),
        ),
{
    reveal_strlit("\n");
    let nl = seq!['\n'];
    assert("\n"@ =~= nl);
    let d = definition_of(notes, rels);
    let ls = definition_lines(notes, rels);
    lemma_definition_lines(notes, rels);
    lemma_terminated_edges(notes, rels);
    lemma_definition_plain(notes, rels);
    lemma_merged_lines(ls, json);
    lemma_saved_scan(ls, lines(json));
    let first = ls.push(Seq::<char>::empty());
    lemma_join_terminated(ls);
    assert(join(first, nl) == join(ls, nl) + nl + Seq::<char>::empty()) by {
        assert(first.drop_last() =~= ls);
    }
    let saved = merged(d, Some(json));
    assert(saved.last() == '\n');
    assert(join(first, "\n"@) + "\n"@ =~= d + "\n"@);
    lemma_lines_terminated(ls, nl);
    lemma_lines_cons(Seq::<char>::empty(), Seq::<char>::empty());
    assert(Seq::<char>::empty() + nl + Seq::<char>::empty() =~= nl);
    assert(lines(d + "\n"@) =~= first);
    assert(trim(Seq::<char>::empty()) == Seq::<char>::empty());
    assert(line_item(Seq::<char>::empty()) == LineItem::Skip);
    assert(first.drop_last() =~= ls);
}

/// The body a note's Markdown text gives back for the body `b`: nothing
/// when it is blank, else `b` without one final line break and without its
/// leading line breaks.
pub open spec fn markdown_body(b: Seq<char>) -> Seq<char> {
    if is_blank(b) {
        seq![]
    } else {
        trim_start_char(without_final_break(b), '\n')
    }
}

proof fn lemma_heading(t: Seq<char>)
    requires
        lacks(t, '\n'),
        !is_blank(t),
    ensures
        ({
            let first = trim(strip_cr("# "@ + t));
            trim(
                if starts_with(first, "# "@) {
                    first.skip(2)
                } else {
                    first
                },
            ) == trim(t)
        }),
{
    reveal_strlit("# ");
    let h = "# "@ + t;
    if h.last() == '\r' {
        lemma_trim_drop_ws_end(h);
    }
    assert(trim(strip_cr(h)) == trim(h));
    assert(trim_start(h) == h);
    let e = trim_end(h);
    lemma_trim_end_len(h);
    lemma_trim_end_len(t);
    // the heading keeps its "# " and the title's last non-blank character
    let k = trim_end(t).len() as int;
    assert(k > 0);
    assert forall|m: int| k + 2 <= m < h.len() implies is_ws(#[trigger] h[m]) by {
        assert(h[m] == t[m - 2]);
        assert(is_ws(t[m - 2])) by {
            lemma_trim_end_tail(t, m - 2);
        }
    }
    lemma_trim_end_take(h, k + 2);
    assert(h.take(k + 2) =~= "# "@ + trim_end(t));
    assert(trim_end(t).last() == t[k - 1]);
    assert(h.take(k + 2).last() == t[k - 1]);
    assert(trim_end(h.take(k + 2)) == h.take(k + 2));
    assert(e =~= "# "@ + trim_end(t));
    assert(trim(h) == e);
    assert(e.take(2) =~= "# "@);
    assert(e.skip(2) =~= trim_end(t));
    lemma_trim_end_start(t);
}

proof fn lemma_trim_end_tail(t: Seq<char>, m: int)
    requires
        trim_end(t).len() <= m < t.len(),
    ensures
        is_ws(t[m]),
    decreases t.len(),
{
    lemma_trim_end_len(t);
    if t.len() > 0 && is_ws(t.last()) {
        if m < t.len() - 1 {
            assert(t.drop_last()[m] == t[m]);
            lemma_trim_end_tail(t.drop_last(), m);
        }
    }
}

proof fn lemma_trim_end_start(t: Seq<char>)
    ensures
        trim(trim_end(t)) == trim(t),
    decreases t.len(),
{
    if t.len() > 0 && is_ws(t.last()) {
        lemma_trim_end_start(t.drop_last());
        lemma_trim_drop_ws_end(t);
    } else {
        assert(trim_end(t) == t);
    }
}

/// Reading back the Markdown text a note is edited as gives its title
/// trimmed, and its body without one final line break and without leading
/// line breaks (nothing for a blank body), when the title is not blank and
/// has no line break and no carriage return in the body stands before a
/// line break.
pub proof fn law_markdown_round_trip(title: Seq<char>, body: Seq<char>)
    requires
        lacks(title, '\n'),
        !is_blank(title),
        no_cr_before_lf(body),
    ensures
        markdown_parts(markdown_of(title, body)) == (trim(title), markdown_body(body)),
{
    reveal_strlit("# ");
    reveal_strlit("\n");
    reveal_strlit("\n\n");
    let nl = seq!['\n'];
    assert("\n"@ =~= nl);
    let h = "# "@ + title;
    assert(lacks(h, '\n')) by {
        assert forall|k: int| 0 <= k < h.len() implies #[trigger] h[k] != '\n' by {
            if k >= 2 {
                assert(h[k] == title[k - 2]);
            }
        }
    }
    lemma_heading(title);
    let content = markdown_of(title, body);
    if is_blank(body) {
        assert(content =~= h + nl + Seq::<char>::empty());
        lemma_lines_cons(h, Seq::<char>::empty());
        assert(lines(Seq::<char>::empty()) == Seq::<Seq<char>>::empty());
        assert(lines(content) =~= seq![strip_cr(h)]);
        assert(lines(content).drop_first() =~= Seq::<Seq<char>>::empty());
        assert(join(Seq::<Seq<char>>::empty(), "\n"@) == Seq::<char>::empty());
        assert(trim_start_char(Seq::<char>::empty(), '\n') == Seq::<char>::empty());
    } else {
        assert(body.len() > 0);
        assert(content =~= h + nl + (Seq::<char>::empty() + nl + body));
        lemma_lines_cons(h, Seq::<char>::empty() + nl + body);
        lemma_lines_cons(Seq::<char>::empty(), body);
        assert(Seq::<char>::empty() + nl + body =~= nl + body);
        assert(strip_cr(Seq::<char>::empty()) == Seq::<char>::empty());
        let rest = seq![Seq::<char>::empty()] + lines(body);
        assert(lines(content).drop_first() =~= rest);
        assert(lines(body).len() > 0);
        lemma_join_cons(Seq::<char>::empty(), lines(body), nl);
        lemma_join_lines(body);
        let j = without_final_break(body);
        assert(join(rest, nl) =~= nl + j);
        assert((nl + j).drop_first() =~= j);
        assert(trim_start_char(nl + j, '\n') == trim_start_char(j, '\n'));
    }
}

proof fn lemma_lines_split(x: Seq<char>, y: Seq<char>)
    ensures
        lines(x + seq!['\n'] + y) == lines(x + seq!['\n']) + lines(y),
    decreases x.len(),
{
    let xs = x + seq!['\n'];
    let s = xs + y;
    lemma_find(xs, '\n');
    let p = find(xs, '\n') as int;
    assert(xs[x.len() as int] == '\n');
    assert(p <= x.len());
    assert forall|k: int| 0 <= k < p implies #[trigger] s[k] != '\n' by {
        assert(s[k] == xs[k]);
    }
    assert(s[p] == xs[p]);
    lemma_find_at(s, '\n', p);
    assert(s.take(p) =~= xs.take(p));
    if p == x.len() {
        assert(s.skip(p + 1) =~= y);
        assert(xs.skip(p + 1) =~= Seq::<char>::empty());
        assert(lines(Seq::<char>::empty()) == Seq::<Seq<char>>::empty());
        assert(lines(xs) == seq![strip_cr(xs.take(p))] + lines(xs.skip(p + 1)));
        assert(lines(s) == seq![strip_cr(s.take(p))] + lines(s.skip(p + 1)));
        assert(lines(xs) + lines(y) =~= seq![strip_cr(xs.take(p))] + lines(y));
    } else {
        let x2 = x.skip(p + 1);
        lemma_lines_split(x2, y);
        assert(s.skip(p + 1) =~= x2 + seq!['\n'] + y);
        assert(xs.skip(p + 1) =~= x2 + seq!['\n']);
        assert(lines(xs) == seq![strip_cr(xs.take(p))] + lines(xs.skip(p + 1)));
        assert(lines(s) == seq![strip_cr(s.take(p))] + lines(s.skip(p + 1)));
        assert(lines(s) =~= lines(xs) + lines(y));
    }
}

proof fn lemma_lines_final_break(x: Seq<char>)
    requires
        x.len() > 0,
        x.last() != '\n',
        x.last() != '\r',
    ensures
        lines(x + seq!['\n']) == lines(x),
    decreases x.len(),
{
    let xs = x + seq!['\n'];
    lemma_find(x, '\n');
    let p = find(x, '\n') as int;
    assert forall|k: int| 0 <= k < p implies #[trigger] xs[k] != '\n' by {
        assert(xs[k] == x[k]);
    }
    if p == x.len() {
        lemma_find_at(xs, '\n', p);
        assert(xs.take(p) =~= x);
        assert(xs.skip(p + 1) =~= Seq::<char>::empty());
        assert(lines(Seq::<char>::empty()) == Seq::<Seq<char>>::empty());
        assert(lines(x) == seq![x]);
        assert(x[x.len() - 1] != '\n');
        assert(strip_cr(x) == x);
        assert(lines(xs) == seq![strip_cr(xs.take(p))] + lines(xs.skip(p + 1)));
        assert(lines(xs) =~= seq![x]);
    } else {
        assert(xs[p] == x[p]);
        lemma_find_at(xs, '\n', p);
        let r = x.skip(p + 1);
        assert(r.len() > 0);
        assert(r.last() == x.last());
        lemma_lines_final_break(r);
        assert(xs.take(p) =~= x.take(p));
        assert(xs.skip(p + 1) =~= r + seq!['\n']);
    }
}

proof fn lemma_trim_breaks(def: Seq<char>)
    ensures
        ({
            let d = trim_end_char(def, '\n');
            &&& d.len() <= def.len()
            &&& def =~= d + def.skip(d.len() as int)
            &&& d.len() < def.len() ==> def[d.len() as int] == '\n'
            &&& d.len() > 0 ==> d.last() != '\n'
        }),
    decreases def.len(),
{
    let d = trim_end_char(def, '\n');
    if def.len() > 0 && def.last() == '\n' {
        let p = def.drop_last();
        lemma_trim_breaks(p);
        assert(d == trim_end_char(p, '\n'));
        assert(p =~= d + p.skip(d.len() as int));
        assert(def =~= p.push('\n'));
        assert(def =~= d + def.skip(d.len() as int));
        if d.len() < p.len() {
            assert(p[d.len() as int] == def[d.len() as int]);
        } else {
            assert(def[d.len() as int] == def.last());
        }
    } else {
        assert(d == def);
        assert(def.skip(def.len() as int) =~= Seq::<char>::empty());
        assert(def =~= d + def.skip(d.len() as int));
    }
}

/// Splitting a file made of any definition and a layout text gives back the
/// definition (without its final line breaks, then one blank line) and the
/// layout text's non-blank lines, each without its leading white space,
/// when the definition has no carriage return and no line taken for a block
/// marker, and no layout line is taken for a block marker or ends with a
/// carriage return. Without a layout text the definition comes back ending
/// with one line break.
pub proof fn law_layout_frames_any_definition(def: Seq<char>, json: Seq<char>)
    requires
        lacks(def, '\r'),
        forall|i: int| 0 <= i < lines(def).len() ==> !marker_line(#[trigger] lines(def)[i]),
        forall|i: int| 0 <= i < lines(json).len() ==> layout_line_ok(#[trigger] lines(json)[i]),
    ensures
        saved_parts(merged(def, Some(json))) == (
            trim_end_char(def, '\n') + "\n\n"@,
            kept_layout_text(json),
        ),
        saved_parts(merged(def, None)) == (trim_end_char(def, '\n') + "\n"@, None::<Seq<char>>),
{
    reveal_strlit("\n");
    reveal_strlit("\n\n");
    reveal_strlit("%% OXDRAW LAYOUT START");
    reveal_strlit("%% OXDRAW LAYOUT END");
    let nl = seq!['\n'];
    assert("\n"@ =~= nl);
    let d = trim_end_char(def, '\n');
    let dn = d + nl;
    let ld = lines(dn);
    lemma_trim_breaks(def);
    // the lines of the definition part are lines of the definition, or blank
    assert forall|i: int| 0 <= i < ld.len() implies !marker_line(#[trigger] ld[i]) by {
        if d.len() < def.len() {
            let rest = def.skip(d.len() as int + 1);
            assert(def =~= d + nl + rest);
            lemma_lines_split(d, rest);
            assert(lines(def)[i] == ld[i]);
        } else if d.len() > 0 {
            assert(def =~= d);
            assert(d.last() == def[d.len() - 1]);
            lemma_lines_final_break(d);
            assert(lines(def)[i] == ld[i]);
        } else {
            assert(dn =~= nl + Seq::<char>::empty());
            lemma_lines_cons(Seq::<char>::empty(), Seq::<char>::empty());
            assert(lines(Seq::<char>::empty()) == Seq::<Seq<char>>::empty());
            assert(strip_cr(Seq::<char>::empty()) == Seq::<char>::empty());
            assert(ld[i] == Seq::<char>::empty());
            assert(trim(Seq::<char>::empty()) == Seq::<char>::empty());
        }
    }
    // joining them gives the definition back
    assert(no_cr_before_lf(dn)) by {
        assert forall|i: int| 0 <= i < dn.len() - 1 implies !(#[trigger] dn[i] == '\r' && dn[i
            + 1] == '\n') by {
            assert(dn[i] == d[i]);
            assert(d[i] == def[i]);
        }
    }
    lemma_join_lines(dn);
    assert(without_final_break(dn) =~= d);
    assert(ld.len() > 0) by {
        lemma_find(dn, '\n');
    }
    // without a layout text
    assert(merged(def, None) =~= dn);
    lemma_scan_plain(ld);
    assert(saved_parts(merged(def, None)).0 =~= d + nl);
    // with a layout text
    let jls = lines(json);
    let start = layout_start();
    let end = layout_end();
    lemma_lines_lack_newline(json);
    assert forall|i: int| 0 <= i < jls.len() implies lacks(#[trigger] jls[i], '\n')
        && layout_line_ok(jls[i]) by {
        assert(lacks(lines(json)[i], '\n'));
    }
    let tail = end + nl;
    lemma_lines_cons(end, Seq::<char>::empty());
    assert(end + nl + Seq::<char>::empty() =~= tail);
    assert(lines(Seq::<char>::empty()) == Seq::<Seq<char>>::empty());
    assert(strip_cr(end) == end);
    lemma_lines_block(jls, tail);
    let block = comment_lines(jls) + tail;
    assert(lacks(start, '\n'));
    lemma_lines_cons(start, block);
    assert(strip_cr(start) == start);
    lemma_lines_cons(Seq::<char>::empty(), start + nl + block);
    assert(strip_cr(Seq::<char>::empty()) == Seq::<char>::empty());
    let after = nl + start + nl + block;
    assert(Seq::<char>::empty() + nl + (start + nl + block) =~= after);
    lemma_lines_split(d, after);
    let saved = merged(def, Some(json));
    assert(saved =~= d + nl + after);
    assert(lines(saved) =~= saved_lines(ld, jls));
    lemma_saved_scan(ld, jls);
    let first = ld.push(Seq::<char>::empty());
    assert(join(first, nl) == join(ld, nl) + nl + Seq::<char>::empty()) by {
        assert(first.drop_last() =~= ld);
    }
    assert(saved.last() == '\n');
    assert(join(first, "\n"@) + "\n"@ =~= d + "\n\n"@);
}

/// Saving notes and relations with a layout text and reading the file
/// again gives, in order, each note's key with its title and body (trimmed)
/// and each relation with its type read back from its operator, and the
/// layout text's non-blank lines, for notes that survive saving, relations
/// between plain keys, and layout lines that come back from a saved file.
pub proof fn law_saved_file_round_trip(notes: Seq<NoteView>, rels: Seq<Relation>, json: Seq<char>)
    requires
        forall|i: int| 0 <= i < notes.len() ==> survives_saving(#[trigger] notes[i]),
        forall|j: int| 0 <= j < rels.len() ==> plain_relation(#[trigger] rels[j]),
        forall|i: int| 0 <= i < lines(json).len() ==> layout_line_ok(#[trigger] lines(json)[i]),
    ensures
        ({
            let parts = saved_parts(merged(definition_of(notes, rels), Some(json)));
            &&& parts.1 == kept_layout_text(json)
            &&& parse_lines(lines(parts.0)) matches Some((ns, rs)) && ns.len() == notes.len() && rs
                == read_back_relations(rels) && forall|i: int|
                0 <= i < notes.len() ==> #[trigger] ns[i].0 == notes[i].key && saved_label_parts(
                    ns[i].1,
                ) == (trim(notes[i].title), trim(notes[i].body))
        }),
{
    assert forall|i: int| 0 <= i < notes.len() implies plain_key(#[trigger] notes[i].key) by {
        assert(survives_saving(notes[i]));
    }
    law_layout_round_trip(notes, rels, json);
    law_definition_round_trip(notes, rels);
    let d = definition_of(notes, rels);
    let parts = saved_parts(merged(d, Some(json)));
    let ns = saved_nodes(notes);
    assert(parse_lines(lines(parts.0)) == Some((ns, read_back_relations(rels))));
    assert forall|i: int| 0 <= i < notes.len() implies #[trigger] ns[i].0 == notes[i].key
        && saved_label_parts(ns[i].1) == (trim(notes[i].title), trim(notes[i].body)) by {
        let n = notes[i];
        assert(survives_saving(n));
        lemma_label_unescaped(n);
        law_label_round_trip(n.title, n.body);
    }
}

} // verus!
