//! Properties of the editor that span several keys or hold of every state.
use vstd::prelude::*;
use crate::model::{NoteView, Relation, RelationType, kind_of_digit};
use crate::cursor::{byte_len, index_at, insert_at_byte, remove_at_byte};
use crate::text::trim;
use crate::editor::{
    EditorView, Mode, Key, view_wf, after_key, after_run_command, after_delete_selected,
    after_remove_relation, after_create_relation, after_edit_key, edit_key_ok, retain_relations,
    avoids, not_edge, keys, next_free_key, first_free_key, candidate_key, after_add_note,
    field_text, cursor_of, lemma_retain_len, Action, count_of, key_ok, with_field_text,
    EditState, EditField,
};

verus! {

/// `:q` leaves the editor only when there are no unsaved changes; `:q!`
/// always does. Neither touches the document.
pub proof fn law_quit_only_when_clean(v: EditorView)
    ensures
        after_run_command(v, "q"@).0.should_quit == (v.should_quit || !v.dirty),
        after_run_command(v, "q!"@).0.should_quit,
        after_run_command(v, "q"@).0.notes == v.notes,
        after_run_command(v, "q"@).0.dirty == v.dirty,
        v.dirty ==> after_run_command(v, "q"@).0.status
            == "unsaved changes; use :w to save or :q! to force"@,
{
    reveal_strlit("q");
    reveal_strlit("w");
    reveal_strlit("wq");
    reveal_strlit("q!");
    reveal_strlit("export");
    reveal_strlit("editor");
    assert("q"@[0] != "w"@[0]);
    assert("q"@.len() != "wq"@.len());
    assert("q!"@.len() != "w"@.len());
    assert("q!"@[0] != "wq"@[0]);
    assert("q!"@.len() != "q"@.len());
}

/// After the selected note is deleted, no relation mentions its key, and
/// every relation that did not mention it is kept.
pub proof fn law_delete_detaches(v: EditorView)
    requires
        view_wf(v),
        v.selected is Some,
    ensures
        ({
            let k = v.notes[v.selected->0 as int].key;
            let w = after_delete_selected(v);
            &&& w.notes == v.notes.remove(v.selected->0 as int)
            &&& w.selected is None
            &&& forall|j: int| 0 <= j < w.relations.len() ==> #[trigger] w.relations[j].from
                != k && w.relations[j].to != k
            &&& forall|r: Relation| #[trigger] v.relations.contains(r) && r.from != k && r.to
                != k ==> w.relations.contains(r)
        }),
{
    let k = v.notes[v.selected->0 as int].key;
    lemma_retain_len(v.relations, avoids(k));
    let w = after_delete_selected(v);
    assert forall|j: int| 0 <= j < w.relations.len() implies #[trigger] w.relations[j].from != k
        && w.relations[j].to != k by {
        assert(avoids(k)(w.relations[j]));
    }
    assert forall|r: Relation| #[trigger] v.relations.contains(r) && r.from != k && r.to != k implies w.relations.contains(r) by {
        lemma_retain_keeps(v.relations, avoids(k), r);
    }
}

/// A relation that passes the filter is kept.
pub proof fn lemma_retain_keeps(rels: Seq<Relation>, keep: spec_fn(Relation) -> bool, r: Relation)
    requires
        rels.contains(r),
        keep(r),
    ensures
        retain_relations(rels, keep).contains(r),
    decreases rels.len(),
{
    let m = choose|m: int| 0 <= m < rels.len() && rels[m] == r;
    if m == rels.len() - 1 {
        let out = retain_relations(rels, keep);
        assert(out == retain_relations(rels.drop_last(), keep).push(rels.last()));
        assert(out[out.len() - 1] == r);
    } else {
        assert(rels.drop_last()[m] == r);
        lemma_retain_keeps(rels.drop_last(), keep, r);
        let rest = retain_relations(rels.drop_last(), keep);
        let i = choose|i: int| 0 <= i < rest.len() && rest[i] == r;
        if keep(rels.last()) {
            assert(retain_relations(rels, keep)[i] == r);
        }
    }
}

/// Filtering keeps everything when everything passes.
pub proof fn lemma_retain_all(rels: Seq<Relation>, keep: spec_fn(Relation) -> bool)
    requires
        forall|j: int| 0 <= j < rels.len() ==> keep(#[trigger] rels[j]),
    ensures
        retain_relations(rels, keep) == rels,
    decreases rels.len(),
{
    if rels.len() > 0 {
        lemma_retain_all(rels.drop_last(), keep);
        assert(keep(rels[rels.len() - 1]));
        assert(rels.drop_last().push(rels.last()) =~= rels);
    }
}

/// Unlinking removes exactly the relations from the selected note to the
/// target and keeps every other; it reports `unlinked` exactly when there was
/// one to remove.
pub proof fn law_unlink_removes_only_that_edge(v: EditorView, key: char)
    requires
        view_wf(v),
        v.selected is Some,
    ensures
        ({
            let from = v.notes[v.selected->0 as int].key;
            let w = after_remove_relation(v, key);
            let had = exists|j: int| 0 <= j < v.relations.len() && #[trigger] v.relations[j].from
                == from && v.relations[j].to == key;
            &&& forall|j: int| 0 <= j < w.relations.len() ==> !(#[trigger] w.relations[j].from
                == from && w.relations[j].to == key)
            &&& forall|r: Relation| #[trigger] v.relations.contains(r) && !(r.from == from
                && r.to == key) ==> w.relations.contains(r)
            &&& w.status == (if had {
                "unlinked "@
            } else {
                "no relation "@
            }) + crate::editor::tag(from) + " -> "@ + crate::editor::tag(key)
            &&& w.dirty == (v.dirty || had)
        }),
{
    let from = v.notes[v.selected->0 as int].key;
    let p = not_edge(from, key);
    lemma_retain_len(v.relations, p);
    let kept = retain_relations(v.relations, p);
    let w = after_remove_relation(v, key);
    assert forall|j: int| 0 <= j < w.relations.len() implies !(#[trigger] w.relations[j].from
        == from && w.relations[j].to == key) by {
        assert(p(w.relations[j]));
    }
    assert forall|r: Relation| #[trigger] v.relations.contains(r) && !(r.from == from && r.to
        == key) implies w.relations.contains(r) by {
        lemma_retain_keeps(v.relations, p, r);
    }
    let had = exists|j: int| 0 <= j < v.relations.len() && #[trigger] v.relations[j].from == from
        && v.relations[j].to == key;
    if had {
        let j = choose|j: int| 0 <= j < v.relations.len() && #[trigger] v.relations[j].from == from
            && v.relations[j].to == key;
        if kept.len() == v.relations.len() {
            assert(kept[j] == v.relations[j]);
            assert(p(kept[j]));
        }
    } else {
        assert forall|j: int| 0 <= j < v.relations.len() implies p(#[trigger] v.relations[j]) by {}
        lemma_retain_all(v.relations, p);
    }
}

/// Linking the selected note to a note and unlinking it again gives back
/// the relations there were, when there was no such link before.
pub proof fn law_link_then_unlink(v: EditorView, key: char, kind: RelationType)
    requires
        view_wf(v),
        v.selected is Some,
        keys(v.notes).contains(key),
        forall|j: int| 0 <= j < v.relations.len() ==> !(#[trigger] v.relations[j].from
            == v.notes[v.selected->0 as int].key && v.relations[j].to == key),
    ensures
        after_remove_relation(after_create_relation(v, key, kind), key).relations == v.relations,
{
    let from = v.notes[v.selected->0 as int].key;
    let w = after_create_relation(v, key, kind);
    let p = not_edge(from, key);
    assert(w.relations == v.relations.push(Relation { from, to: key, kind }));
    assert(w.relations.drop_last() =~= v.relations);
    assert forall|j: int| 0 <= j < v.relations.len() implies p(#[trigger] v.relations[j]) by {}
    lemma_retain_all(v.relations, p);
}

/// Esc always returns to normal mode; in normal mode it clears the
/// selection.
pub proof fn law_escape_returns_to_normal(v: EditorView)
    requires
        view_wf(v),
    ensures
        after_key(v, Key::Esc).0.mode == Mode::Normal,
        v.mode == Mode::Normal ==> after_key(v, Key::Esc).0.selected is None,
        after_key(v, Key::Esc).0.notes == v.notes,
        after_key(v, Key::Esc).0.relations == v.relations,
{
}

/// The key a new note gets is not in use, and it is the first unused one of
/// `a`..`z`, `0`..`9`.
pub proof fn law_next_key_is_free(notes: Seq<NoteView>)
    ensures
        next_free_key(notes) matches Some(k) ==> !keys(notes).contains(k) && exists|i: int|
            0 <= i < 36 && k == candidate_key(i) && forall|j: int|
                0 <= j < i ==> keys(notes).contains(#[trigger] candidate_key(j)),
        next_free_key(notes) is None ==> forall|j: int|
            0 <= j < 36 ==> keys(notes).contains(#[trigger] candidate_key(j)),
{
    lemma_first_free(keys(notes), 0);
}

proof fn lemma_first_free(used: Seq<char>, i: int)
    requires
        0 <= i <= 36,
    ensures
        first_free_key(used, i) matches Some(k) ==> !used.contains(k) && exists|m: int|
            i <= m < 36 && k == candidate_key(m) && forall|j: int|
                i <= j < m ==> used.contains(#[trigger] candidate_key(j)),
        first_free_key(used, i) is None ==> forall|j: int|
            i <= j < 36 ==> used.contains(#[trigger] candidate_key(j)),
    decreases 36 - i,
{
    if i < 36 {
        if used.contains(candidate_key(i)) {
            lemma_first_free(used, i + 1);
            if let Some(k) = first_free_key(used, i + 1) {
                let m = choose|m: int| i + 1 <= m < 36 && k == candidate_key(m) && forall|j: int|
                    i + 1 <= j < m ==> used.contains(#[trigger] candidate_key(j));
                assert forall|j: int| i <= j < m implies used.contains(#[trigger] candidate_key(j)) by {
                    if j > i {
                    }
                }
            }
        } else {
            assert(forall|j: int| i <= j < i ==> used.contains(#[trigger] candidate_key(j)));
        }
    }
}

/// Whether no two notes share a key.
pub open spec fn keys_distinct(notes: Seq<NoteView>) -> bool {
    forall|i: int, j: int|
        0 <= i < notes.len() && 0 <= j < notes.len() && i != j ==> #[trigger] notes[i].key
            != #[trigger] notes[j].key
}

/// Adding a note keeps the keys of the notes distinct.
pub proof fn law_add_keeps_keys_distinct(v: EditorView, x: u32, y: u32)
    requires
        keys_distinct(v.notes),
    ensures
        keys_distinct(after_add_note(v, x, y).notes),
{
    law_next_key_is_free(v.notes);
    let w = after_add_note(v, x, y);
    if let Some(k) = next_free_key(v.notes) {
        assert forall|i: int, j: int|
            0 <= i < w.notes.len() && 0 <= j < w.notes.len() && i != j implies #[trigger] w.notes[i].key
            != #[trigger] w.notes[j].key by {
            let n = v.notes.len() as int;
            if i == n {
                assert(keys(v.notes)[j] == v.notes[j].key);
            } else if j == n {
                assert(keys(v.notes)[i] == v.notes[i].key);
            }
        }
    }
}

/// Typing an ASCII character in the inline editor on the selected note and
/// then Backspace gives back the text and the cursor, leaving the change
/// marked.
pub proof fn law_type_then_backspace(v: EditorView, ch: char)
    requires
        view_wf(v),
        v.mode is Edit,
        v.selected is Some,
        edit_key_ok(v, Key::Char(ch)),
        (ch as u32) < 0x80,
    ensures
        after_edit_key(after_edit_key(v, Key::Char(ch)), Key::Backspace) == (EditorView {
            dirty: true,
            ..v
        }),
{
    let i = v.selected->0 as int;
    let st = v.mode->Edit_0;
    let text = field_text(v.notes[i], st.field);
    let c = cursor_of(st, st.field) as int;
    let k = index_at(text, c);
    let t2 = insert_at_byte(text, c, ch);
    crate::cursor::lemma_insert_at_byte(text, c, ch);
    assert(t2 == text.insert(k, ch));
    assert(t2.take(k) =~= text.take(k));
    assert(t2.take(k + 1).drop_last() =~= t2.take(k));
    assert(t2.take(k + 1).last() == ch);
    crate::cursor::lemma_index_at(t2, k);
    crate::cursor::lemma_index_at(t2, k + 1);
    assert(byte_len(t2.take(k + 1)) == c + 1);
    assert(remove_at_byte(t2, c) =~= text);
    let w = after_edit_key(v, Key::Char(ch));
    assert(w.notes[i] == crate::editor::with_field_text(v.notes[i], st.field, t2));
    assert(field_text(w.notes[i], st.field) == t2);
    assert(w.notes.update(i, crate::editor::with_field_text(w.notes[i], st.field, text)) =~= v.notes);
    let u = after_edit_key(w, Key::Backspace);
    assert(u =~= EditorView { dirty: true, ..v });
}

/// In normal mode, a count typed before a motion key repeats the motion that
/// many times, and the count is used up: digits `d` then `l` move right by
/// `count_of(d)` steps.
pub proof fn law_count_repeats_motion(v: EditorView, digit: char)
    requires
        view_wf(v),
        v.mode == Mode::Normal,
        '0' <= digit <= '9',
    ensures
        ({
            let (w, a) = after_key(v, Key::Char(digit));
            let (u, b) = after_key(w, Key::Char('l'));
            &&& a == Action::Nothing
            &&& w.count_buffer == v.count_buffer.push(digit)
            &&& b == (Action::Move { dx: 1, dy: 0, count: count_of(v.count_buffer.push(digit)) })
            &&& u.count_buffer.len() == 0
            &&& u.notes == v.notes
            &&& u.relations == v.relations
        }),
{
}

/// Whether a relation joins two keys of `notes`.
pub open spec fn joins(notes: Seq<NoteView>, r: Relation) -> bool {
    keys(notes).contains(r.from) && keys(notes).contains(r.to)
}

/// Whether every relation joins keys of notes.
pub open spec fn attached(v: EditorView) -> bool {
    forall|j: int| 0 <= j < v.relations.len() ==> joins(v.notes, #[trigger] v.relations[j])
}

proof fn lemma_attached_subset(v: EditorView, w: EditorView)
    requires
        attached(v),
        keys(w.notes) == keys(v.notes),
        forall|j: int| 0 <= j < w.relations.len() ==> v.relations.contains(#[trigger] w.relations[j]),
    ensures
        attached(w),
{
    assert forall|j: int| 0 <= j < w.relations.len() implies joins(w.notes, #[trigger] w.relations[j]) by {
        let m = choose|m: int| 0 <= m < v.relations.len() && v.relations[m] == w.relations[j];
        assert(joins(v.notes, v.relations[m]));
    }
}

proof fn lemma_delete_attached(v: EditorView)
    requires
        view_wf(v),
        attached(v),
    ensures
        attached(after_delete_selected(v)),
{
    if let Some(i) = v.selected {
        let k = v.notes[i as int].key;
        let w = after_delete_selected(v);
        lemma_retain_len(v.relations, avoids(k));
        assert forall|j: int| 0 <= j < w.relations.len() implies joins(w.notes, #[trigger] w.relations[j]) by {
            let r = w.relations[j];
            assert(avoids(k)(r));
            let m = choose|m: int| 0 <= m < v.relations.len() && v.relations[m] == r;
            assert(joins(v.notes, v.relations[m]));
            lemma_key_survives_remove(v.notes, i as int, r.from);
            lemma_key_survives_remove(v.notes, i as int, r.to);
        }
    }
}

proof fn lemma_key_survives_remove(notes: Seq<NoteView>, i: int, c: char)
    requires
        0 <= i < notes.len(),
        keys(notes).contains(c),
        c != notes[i].key,
    ensures
        keys(notes.remove(i)).contains(c),
{
    let m = choose|m: int| 0 <= m < keys(notes).len() && keys(notes)[m] == c;
    let rest = notes.remove(i);
    if m < i {
        assert(keys(rest)[m] == c);
    } else {
        assert(m != i);
        assert(keys(rest)[m - 1] == c);
    }
}

proof fn lemma_create_attached(v: EditorView, key: char, kind: RelationType)
    requires
        view_wf(v),
        attached(v),
    ensures
        attached(after_create_relation(v, key, kind)),
{
    if let Some(i) = v.selected {
        if keys(v.notes).contains(key) {
            let w = after_create_relation(v, key, kind);
            assert(keys(v.notes)[i as int] == v.notes[i as int].key);
            assert forall|j: int| 0 <= j < w.relations.len() implies joins(w.notes, #[trigger] w.relations[j]) by {
                if j < v.relations.len() {
                    assert(w.relations[j] == v.relations[j]);
                }
            }
        }
    }
}

proof fn lemma_remove_attached(v: EditorView, key: char)
    requires
        view_wf(v),
        attached(v),
    ensures
        attached(after_remove_relation(v, key)),
{
    if let Some(i) = v.selected {
        let from = v.notes[i as int].key;
        lemma_retain_len(v.relations, not_edge(from, key));
        lemma_attached_subset(v, after_remove_relation(v, key));
    }
}

proof fn lemma_edit_attached(v: EditorView, key: Key)
    requires
        view_wf(v),
        attached(v),
    ensures
        attached(after_edit_key(v, key)),
{
    let w = after_edit_key(v, key);
    if let (Some(sel), Mode::Edit(st)) = (v.selected, v.mode) {
        let i = sel as int;
        assert forall|t: Seq<char>| #[trigger] keys(v.notes.update(i, with_field_text(v.notes[i], st.field, t))) == keys(v.notes) by {
            assert(keys(v.notes.update(i, with_field_text(v.notes[i], st.field, t))) =~= keys(v.notes));
        }
    }
    lemma_attached_subset(v, w);
}

/// Keys and the editor's operations never leave a relation that joins a
/// key no note has: when every relation joins keys of notes, it still does
/// after any key the editor carries out.
pub proof fn law_relations_stay_attached(v: EditorView, key: Key)
    requires
        view_wf(v),
        key_ok(v, key),
        attached(v),
    ensures
        attached(after_key(v, key).0),
{
    let w = after_key(v, key).0;
    match v.mode {
        Mode::Command => {
            lemma_attached_subset(v, w);
        },
        Mode::Edit(_) => {
            lemma_edit_attached(v, key);
        },
        _ => {
            if let Key::Char(ch) = key {
                lemma_create_attached(v, ch, RelationType::Directional);
                lemma_remove_attached(v, ch);
                if let Mode::AwaitRelationTarget(kind) = v.mode {
                    lemma_create_attached(v, ch, kind);
                }
            }
            let c = EditorView { count_buffer: seq![], ..v };
            assert(view_wf(c));
            lemma_delete_attached(c);
            if w.relations == v.relations && w.notes == v.notes {
                lemma_attached_subset(v, w);
            }
        },
    }
}

/// Adding a note keeps every relation joining keys of notes.
pub proof fn law_add_keeps_relations_attached(v: EditorView, x: u32, y: u32)
    requires
        attached(v),
    ensures
        attached(after_add_note(v, x, y)),
{
    let w = after_add_note(v, x, y);
    if let Some(k) = next_free_key(v.notes) {
        assert forall|j: int| 0 <= j < w.relations.len() implies joins(w.notes, #[trigger] w.relations[j]) by {
            let r = w.relations[j];
            assert(joins(v.notes, v.relations[j]));
            let a = choose|m: int| 0 <= m < keys(v.notes).len() && keys(v.notes)[m] == r.from;
            let b = choose|m: int| 0 <= m < keys(v.notes).len() && keys(v.notes)[m] == r.to;
            assert(keys(w.notes)[a] == r.from);
            assert(keys(w.notes)[b] == r.to);
        }
    }
}

proof fn lemma_remove_distinct(notes: Seq<NoteView>, i: int)
    requires
        0 <= i < notes.len(),
        keys_distinct(notes),
    ensures
        keys_distinct(notes.remove(i)),
{
    let w = notes.remove(i);
    assert forall|a: int, b: int|
        0 <= a < w.len() && 0 <= b < w.len() && a != b implies #[trigger] w[a].key
        != #[trigger] w[b].key by {
        let a2 = if a < i { a } else { a + 1 };
        let b2 = if b < i { b } else { b + 1 };
        assert(w[a] == notes[a2]);
        assert(w[b] == notes[b2]);
    }
}

proof fn lemma_same_keys_distinct(notes: Seq<NoteView>, w: Seq<NoteView>)
    requires
        keys_distinct(notes),
        w.len() == notes.len(),
        forall|a: int| 0 <= a < w.len() ==> #[trigger] w[a].key == notes[a].key,
    ensures
        keys_distinct(w),
{
    assert forall|a: int, b: int|
        0 <= a < w.len() && 0 <= b < w.len() && a != b implies #[trigger] w[a].key
        != #[trigger] w[b].key by {
        assert(w[a].key == notes[a].key);
        assert(w[b].key == notes[b].key);
    }
}

/// No key the editor carries out makes two notes share a key: when the keys
/// of the notes are distinct, they still are after any key.
pub proof fn law_keys_stay_distinct(v: EditorView, key: Key)
    requires
        view_wf(v),
        key_ok(v, key),
        keys_distinct(v.notes),
    ensures
        keys_distinct(after_key(v, key).0.notes),
{
    let w = after_key(v, key).0;
    if let Some(i) = v.selected {
        lemma_remove_distinct(v.notes, i as int);
        if let Mode::Edit(st) = v.mode {
            assert forall|t: Seq<char>| keys_distinct(
                #[trigger] v.notes.update(i as int, with_field_text(v.notes[i as int], st.field, t)),
            ) by {
                lemma_same_keys_distinct(
                    v.notes,
                    v.notes.update(i as int, with_field_text(v.notes[i as int], st.field, t)),
                );
            }
        }
    }
}

/// Every key that changes the notes or the relations marks the document as
/// changed, and no key leaves the editor with unsaved changes but `:q!`.
pub proof fn law_changes_are_marked_and_kept(v: EditorView, key: Key)
    requires
        view_wf(v),
        key_ok(v, key),
    ensures
        ({
            let w = after_key(v, key).0;
            &&& (w.notes != v.notes || w.relations != v.relations) ==> w.dirty
            &&& (w.should_quit && !v.should_quit) ==> (!w.dirty || (v.mode == Mode::Command
                && key == Key::Enter && trim(v.command_buffer) == "q!"@))
        }),
{
    if let (Some(i), Key::Char(ch)) = (v.selected, key) {
        lemma_retain_len(v.relations, not_edge(v.notes[i as int].key, ch));
    }
}

/// In normal mode, `h`, `l`, `k` and `j` move left, right, up and down (one
/// step along one axis, `k` the opposite of `j`), the same moves as the
/// arrow keys, each repeated by the count typed before it; none of them
/// changes the document.
pub proof fn law_motion_keys(v: EditorView)
    requires
        view_wf(v),
        v.mode == Mode::Normal,
    ensures
        ({
            let n = count_of(v.count_buffer);
            &&& after_key(v, Key::Char('h')).1 == Action::Move { dx: -1i8, dy: 0, count: n }
            &&& after_key(v, Key::Char('l')).1 == Action::Move { dx: 1, dy: 0, count: n }
            &&& after_key(v, Key::Char('k')).1 == Action::Move { dx: 0, dy: -1i8, count: n }
            &&& after_key(v, Key::Char('j')).1 == Action::Move { dx: 0, dy: 1, count: n }
            &&& after_key(v, Key::Left).1 == after_key(v, Key::Char('h')).1
            &&& after_key(v, Key::Right).1 == after_key(v, Key::Char('l')).1
            &&& after_key(v, Key::Up).1 == after_key(v, Key::Char('k')).1
            &&& after_key(v, Key::Down).1 == after_key(v, Key::Char('j')).1
            &&& after_key(v, Key::Char('k')).0.notes == v.notes
            &&& after_key(v, Key::Char('k')).0.count_buffer.len() == 0
        }),
{
}

/// On the command line, Backspace takes off the last character typed (and
/// leaves an empty line empty), so typing a character and then Backspace
/// gives back the line.
pub proof fn law_command_backspace(v: EditorView, c: char)
    requires
        view_wf(v),
        v.mode == Mode::Command,
    ensures
        ({
            let (w, a) = after_key(v, Key::Backspace);
            &&& a == Action::Nothing
            &&& w.mode == Mode::Command
            &&& v.command_buffer.len() > 0 ==> w.command_buffer.push(v.command_buffer.last())
                == v.command_buffer
            &&& v.command_buffer.len() == 0 ==> w.command_buffer.len() == 0
        }),
        after_key(after_key(v, Key::Char(c)).0, Key::Backspace).0.command_buffer
            == v.command_buffer,
{
    let w = after_key(v, Key::Backspace).0;
    if v.command_buffer.len() > 0 {
        assert(w.command_buffer.push(v.command_buffer.last()) =~= v.command_buffer);
    }
    assert(v.command_buffer.push(c).drop_last() =~= v.command_buffer);
}

/// Adding a note, when a key is free, selects the new note (the last one,
/// with that key and no text) and opens the inline editor on its title with
/// both cursors at the start, so the next character typed becomes its title.
pub proof fn law_add_opens_editor(v: EditorView, x: u32, y: u32, c: char)
    requires
        view_wf(v),
        v.notes.len() < usize::MAX,
    ensures
        next_free_key(v.notes) matches Some(k) ==> {
            let w = after_add_note(v, x, y);
            let n = v.notes.len() as int;
            &&& w.notes.len() == n + 1
            &&& w.notes.take(n) == v.notes
            &&& w.notes[n].key == k
            &&& w.notes[n].title.len() == 0
            &&& w.notes[n].body.len() == 0
            &&& w.selected == Some(n as usize)
            &&& w.mode == Mode::Edit(
                EditState { field: EditField::Title, title_cursor: 0, body_cursor: 0 },
            )
            &&& after_key(w, Key::Char(c)).0.notes[n].title == seq![c]
        },
        next_free_key(v.notes) is None ==> after_add_note(v, x, y).notes == v.notes,
{
    if let Some(k) = next_free_key(v.notes) {
        let w = after_add_note(v, x, y);
        let n = v.notes.len() as int;
        assert(w.notes.take(n) =~= v.notes);
        let u = after_key(w, Key::Char(c)).0;
        let e = Seq::<char>::empty();
        assert(e.take(0) =~= e);
        assert(byte_len(e) == 0);
        crate::cursor::lemma_index_at(e, 0);
        assert(index_at(e, 0) == 0);
        assert(e.insert(0, c) =~= seq![c]);
        assert(w.notes[n].title =~= e);
        assert(w.selected == Some(n as usize));
        assert(insert_at_byte(w.notes[n].title, 0, c) =~= seq![c]);
        assert(u == after_edit_key(w, Key::Char(c)));
        assert(u.notes == w.notes.update(
            n,
            with_field_text(w.notes[n], EditField::Title, insert_at_byte(w.notes[n].title, 0, c)),
        ));
        assert(u.notes[n].title =~= seq![c]);
    }
}

/// In the inline editor, Tab switches between the title and the body and
/// keeps both cursors, so two Tabs give back the state.
pub proof fn law_tab_switches_field(v: EditorView, st: EditState)
    requires
        view_wf(v),
        v.mode == Mode::Edit(st),
        v.selected is Some,
    ensures
        ({
            let w = after_key(v, Key::Tab).0;
            &&& w.mode matches Mode::Edit(s2) && s2.field != st.field
                && s2.title_cursor == st.title_cursor && s2.body_cursor == st.body_cursor
            &&& w.notes == v.notes
            &&& after_key(w, Key::Tab).0 == v
        }),
{
    let w = after_key(v, Key::Tab).0;
    assert(after_key(w, Key::Tab).0 =~= v);
}

/// In normal mode with a note selected, `m`, `f` and a note's key link the
/// selected note to that note, with the relation type the count typed
/// before `m` names (1 directional, 2 bidirectional, 3 compositional, 4
/// cluster; directional otherwise), and nothing else about the relations
/// changes.
pub proof fn law_count_link(v: EditorView, target: char)
    requires
        view_wf(v),
        v.mode == Mode::Normal,
        v.selected is Some,
        keys(v.notes).contains(target),
    ensures
        ({
            let s1 = after_key(v, Key::Char('m')).0;
            let s2 = after_key(s1, Key::Char('f')).0;
            let s3 = after_key(s2, Key::Char(target)).0;
            let kind = match kind_of_digit(count_of(v.count_buffer)) {
                Some(k) => k,
                None => RelationType::Directional,
            };
            &&& s3.relations == v.relations.push(
                Relation { from: v.notes[v.selected->0 as int].key, to: target, kind },
            )
            &&& s3.mode == Mode::Normal
            &&& s3.notes == v.notes
            &&& s3.dirty
        }),
        ({
            let w = EditorView { count_buffer: seq!['2'], ..v };
            let s3 = after_key(
                after_key(after_key(w, Key::Char('m')).0, Key::Char('f')).0,
                Key::Char(target),
            ).0;
            s3.relations.last().kind == RelationType::Bidirectional
        }),
{
    let w = EditorView { count_buffer: seq!['2'], ..v };
    assert(count_of(seq!['2']) == 2) by {
        assert(crate::editor::digits_value(seq!['2']) == 2) by {
            assert(seq!['2'].drop_last() =~= Seq::<char>::empty());
            assert(crate::editor::digits_value(Seq::<char>::empty()) == 0);
            assert(seq!['2'].last() == '2');
            assert(('2' as nat) - ('0' as nat) == 2);
        }
    }
}

} // verus!
