//! The editor: the open document, the selection, the pending key mode, and
//! the transition each key makes. Work that leaves the library (drawing,
//! files, the external editor, the `f32` canvas) is handed back as an
//! [`Action`] for the caller to carry out.
use vstd::prelude::*;
use crate::model::{Note, NoteView, NoteColor, Relation, RelationType, note_views, label_of, color_in_cycle, kind_of_digit};
use crate::cursor::{byte_len, is_boundary, insert_at_byte, remove_at_byte, width, text_len, insert_char_at, remove_char_at, char_width, byte_len_within, char_index_at};
use crate::text::{find, trim, starts_with, push_char, push_str, push_chars, chars_of, trimmed, trimmed_start, lemma_find, has_prefix, chars_are, string_of, slice_range};

verus! {

/// A key press, as the editor distinguishes them.
#[derive(Clone, Copy, PartialEq, Eq, Debug, Structural)]
pub enum Key {
    Char(char),
    Esc,
    Tab,
    Backspace,
    Enter,
    Left,
    Right,
    Up,
    Down,
    Other,
}

/// The field of a note that is being edited.
#[derive(Clone, Copy, PartialEq, Eq, Debug, Structural)]
pub enum EditField {
    Title,
    Body,
}

/// The inline editor's field and the byte cursor into each field.
#[derive(Clone, Copy, PartialEq, Eq, Debug, Structural)]
pub struct EditState {
    pub field: EditField,
    pub title_cursor: usize,
    pub body_cursor: usize,
}

/// What the next key means.
#[derive(Clone, Copy, PartialEq, Eq, Debug, Structural)]
pub enum Mode {
    Normal,
    AwaitSelect,
    AwaitRelationPrefix(RelationType),
    AwaitRelationTarget(RelationType),
    AwaitUnlinkPrefix,
    AwaitUnlinkTarget,
    Edit(EditState),
    Command,
}

/// Work a key asks for that the caller carries out.
#[derive(Clone, Copy, PartialEq, Eq, Debug, Structural)]
pub enum Action {
    /// Nothing beyond the new state.
    Nothing,
    /// Place a new note on the canvas and call [`Editor::add_node`].
    AddNote,
    /// Edit the note at this index in the external editor.
    OpenEditor(usize),
    ZoomIn,
    ZoomOut,
    FitAll,
    /// Move the selected note, or pan when nothing is selected, `count` steps.
    Move { dx: i8, dy: i8, count: u16 },
    /// Write the `.mmd` file, then quit if asked.
    Save { quit: bool },
    Export,
    /// Write the configuration file.
    SaveConfig,
}

/// The editor state.
pub struct Editor {
    pub notes: Vec<Note>,
    pub relations: Vec<Relation>,
    pub selected: Option<usize>,
    pub mode: Mode,
    pub count_buffer: String,
    pub command_buffer: String,
    pub status: String,
    pub editor_command: String,
    pub monocolor: bool,
    pub loaded_path: Option<String>,
    pub dirty: bool,
    pub should_quit: bool,
}

/// The editor state as a mathematical value.
#[verifier::ext_equal]
pub struct EditorView {
    pub notes: Seq<NoteView>,
    pub relations: Seq<Relation>,
    pub selected: Option<usize>,
    pub mode: Mode,
    pub count_buffer: Seq<char>,
    pub command_buffer: Seq<char>,
    pub status: Seq<char>,
    pub editor_command: Seq<char>,
    pub monocolor: bool,
    pub loaded_path: Option<Seq<char>>,
    pub dirty: bool,
    pub should_quit: bool,
}

impl View for Editor {
    type V = EditorView;

    open spec fn view(&self) -> EditorView {
        EditorView {
            notes: note_views(self.notes@),
            relations: self.relations@,
            selected: self.selected,
            mode: self.mode,
            count_buffer: self.count_buffer@,
            command_buffer: self.command_buffer@,
            status: self.status@,
            editor_command: self.editor_command@,
            monocolor: self.monocolor,
            loaded_path: match self.loaded_path {
                Some(p) => Some(p@),
                None => None,
            },
            dirty: self.dirty,
            should_quit: self.should_quit,
        }
    }
}

/// `[c]`, the way the status line names a note.
pub open spec fn tag(c: char) -> Seq<char> {
    "["@ + seq![c] + "]"@
}

/// The keys of the notes, in order.
pub open spec fn keys(notes: Seq<NoteView>) -> Seq<char> {
    notes.map_values(|n: NoteView| n.key)
}

/// Whether every character is an ASCII digit.
pub open spec fn all_digits(s: Seq<char>) -> bool {
    forall|i: int| 0 <= i < s.len() ==> '0' <= #[trigger] s[i] <= '9'
}

/// The decimal value of a string of digits.
pub open spec fn digits_value(s: Seq<char>) -> nat
    decreases s.len(),
{
    if s.len() == 0 {
        0
    } else {
        digits_value(s.drop_last()) * 10 + (s.last() as nat - '0' as nat) as nat
    }
}

/// The repeat count a digit prefix gives (`str::parse::<u16>`, or 1 when
/// there is no prefix or it does not fit).
pub open spec fn count_of(s: Seq<char>) -> u16 {
    if s.len() > 0 && digits_value(s) <= u16::MAX {
        digits_value(s) as u16
    } else {
        1
    }
}

/// The relations that keep those for which `keep` holds, in order.
pub open spec fn retain_relations(rels: Seq<Relation>, keep: spec_fn(Relation) -> bool) -> Seq<
    Relation,
>
    decreases rels.len(),
{
    if rels.len() == 0 {
        seq![]
    } else if keep(rels.last()) {
        retain_relations(rels.drop_last(), keep).push(rels.last())
    } else {
        retain_relations(rels.drop_last(), keep)
    }
}

/// Whether a relation touches neither end at `k`.
pub open spec fn avoids(k: char) -> spec_fn(Relation) -> bool {
    |r: Relation| r.from != k && r.to != k
}

/// Whether a relation is not the edge `from -> to`.
pub open spec fn not_edge(from: char, to: char) -> spec_fn(Relation) -> bool {
    |r: Relation| !(r.from == from && r.to == to)
}

/// The well-formedness of an editor state: the selection is a note, the
/// count prefix holds digits only, and the inline editor edits the selected
/// note with its cursors inside the text.
pub open spec fn view_wf(v: EditorView) -> bool {
    &&& (v.selected matches Some(i) ==> i < v.notes.len())
    &&& all_digits(v.count_buffer)
    &&& (v.mode matches Mode::Edit(st) ==> v.selected matches Some(i) ==> {
        &&& st.title_cursor <= byte_len(v.notes[i as int].title)
        &&& st.body_cursor <= byte_len(v.notes[i as int].body)
    })
}

/// The result of Esc outside the inline editor and command line.
pub open spec fn after_cancel_pending(v: EditorView) -> EditorView {
    if v.mode == Mode::Normal {
        EditorView { selected: None, status: "selection cleared"@, ..v }
    } else {
        EditorView {
            mode: Mode::Normal,
            count_buffer: seq![],
            command_buffer: seq![],
            status: "cancelled"@,
            ..v
        }
    }
}

/// The result of choosing the note keyed `ch`: the first note with that key.
pub open spec fn after_select_by_key(v: EditorView, ch: char) -> EditorView {
    let i = find(keys(v.notes), ch);
    if i < v.notes.len() {
        EditorView {
            selected: Some(i as usize),
            mode: Mode::Normal,
            status: "selected "@ + tag(ch) + " "@ + v.notes[i as int].title,
            ..v
        }
    } else {
        EditorView { mode: Mode::Normal, status: "unknown node key "@ + tag(ch), ..v }
    }
}

/// The result of deleting the selected note with every relation that touches it.
pub open spec fn after_delete_selected(v: EditorView) -> EditorView {
    match v.selected {
        None => EditorView { status: "select a node first"@, ..v },
        Some(i) => EditorView {
            notes: v.notes.remove(i as int),
            relations: retain_relations(v.relations, avoids(v.notes[i as int].key)),
            selected: None,
            mode: Mode::Normal,
            dirty: true,
            status: "deleted "@ + tag(v.notes[i as int].key),
            ..v
        },
    }
}

/// The result of `m`: wait for `f` and the target key.
pub open spec fn after_begin_relation(v: EditorView, kind: RelationType) -> EditorView {
    if v.selected is None {
        EditorView { status: "select a source node first"@, ..v }
    } else {
        EditorView {
            mode: Mode::AwaitRelationPrefix(kind),
            status: label_of(kind) + " relation: press f then target key"@,
            ..v
        }
    }
}

/// The result of `u`: wait for `f` and the target key.
pub open spec fn after_begin_unlink(v: EditorView) -> EditorView {
    if v.selected is None {
        EditorView { status: "select a source node first"@, ..v }
    } else {
        EditorView {
            mode: Mode::AwaitUnlinkPrefix,
            status: "unlink: press f then target key"@,
            ..v
        }
    }
}

/// The result of linking the selected note to the note keyed `key`.
pub open spec fn after_create_relation(v: EditorView, key: char, kind: RelationType) -> EditorView {
    match v.selected {
        None => EditorView { mode: Mode::Normal, ..v },
        Some(i) => {
            let from = v.notes[i as int].key;
            if !keys(v.notes).contains(key) {
                EditorView { mode: Mode::Normal, status: "unknown target "@ + tag(key), ..v }
            } else {
                EditorView {
                    relations: v.relations.push(Relation { from, to: key, kind }),
                    dirty: true,
                    mode: Mode::Normal,
                    status: "linked "@ + tag(from) + " -> "@ + tag(key) + " ("@ + label_of(kind)
                        + ")"@,
                    ..v
                }
            }
        },
    }
}

/// The result of removing every relation from the selected note to `key`.
pub open spec fn after_remove_relation(v: EditorView, key: char) -> EditorView {
    match v.selected {
        None => EditorView { mode: Mode::Normal, ..v },
        Some(i) => {
            let from = v.notes[i as int].key;
            let kept = retain_relations(v.relations, not_edge(from, key));
            if kept.len() == v.relations.len() {
                EditorView {
                    relations: kept,
                    mode: Mode::Normal,
                    status: "no relation "@ + tag(from) + " -> "@ + tag(key),
                    ..v
                }
            } else {
                EditorView {
                    relations: kept,
                    mode: Mode::Normal,
                    dirty: true,
                    status: "unlinked "@ + tag(from) + " -> "@ + tag(key),
                    ..v
                }
            }
        },
    }
}

/// The result of `i`: edit the selected note's title, cursors at the ends.
pub open spec fn after_start_edit(v: EditorView) -> EditorView {
    match v.selected {
        None => EditorView { status: "select a node first"@, ..v },
        Some(i) => EditorView {
            mode: Mode::Edit(
                EditState {
                    field: EditField::Title,
                    title_cursor: byte_len(v.notes[i as int].title) as usize,
                    body_cursor: byte_len(v.notes[i as int].body) as usize,
                },
            ),
            status: "editing "@ + seq![v.notes[i as int].key],
            ..v
        },
    }
}

/// The result of asking to quit: refused while there are unsaved changes,
/// unless forced.
pub open spec fn after_quit_request(v: EditorView, force: bool) -> EditorView {
    if v.dirty && !force {
        EditorView { status: "unsaved changes; use :w to save or :q! to force"@, ..v }
    } else {
        EditorView { should_quit: true, ..v }
    }
}



/// The result of a digit key: extend the repeat count.
pub open spec fn after_count_digit(v: EditorView, ch: char) -> EditorView {
    EditorView {
        count_buffer: v.count_buffer.push(ch),
        status: "count "@ + v.count_buffer.push(ch),
        ..v
    }
}

/// The `i`-th key a new note may take: `a` to `z`, then `0` to `9`.
pub open spec fn candidate_key(i: int) -> char {
    if i < 26 {
        (97 + i) as char
    } else {
        (48 + i - 26) as char
    }
}

/// The first of the keys `candidate_key(i..36)` that no note uses.
pub open spec fn first_free_key(used: Seq<char>, i: int) -> Option<char>
    decreases 36 - i,
{
    if i >= 36 {
        None
    } else if !used.contains(candidate_key(i)) {
        Some(candidate_key(i))
    } else {
        first_free_key(used, i + 1)
    }
}

/// The key a new note gets, if any is left.
pub open spec fn next_free_key(notes: Seq<NoteView>) -> Option<char> {
    first_free_key(keys(notes), 0)
}

/// The bit pattern of `20.0f32`, the width of a new note.
pub open spec fn default_width() -> u32 {
    0x41a0_0000
}

/// The bit pattern of `8.0f32`, the height of a new note.
pub open spec fn default_height() -> u32 {
    0x4100_0000
}

/// The result of adding a note at `(x, y)` (bit patterns): it takes the next
/// free key and the next colour, and is opened in the inline editor.
pub open spec fn after_add_note(v: EditorView, x: u32, y: u32) -> EditorView {
    match next_free_key(v.notes) {
        None => EditorView { status: "no available node keys"@, ..v },
        Some(k) => EditorView {
            notes: v.notes.push(new_note_view(k, v.notes.len() as int, x, y)),
            selected: Some(v.notes.len() as usize),
            mode: Mode::Edit(EditState { field: EditField::Title, title_cursor: 0, body_cursor: 0 }),
            dirty: true,
            status: "added node "@ + tag(k),
            ..v
        },
    }
}

/// The text of one field of a note.
pub open spec fn field_text(n: NoteView, f: EditField) -> Seq<char> {
    match f {
        EditField::Title => n.title,
        EditField::Body => n.body,
    }
}

/// A note with one field replaced.
pub open spec fn with_field_text(n: NoteView, f: EditField, t: Seq<char>) -> NoteView {
    match f {
        EditField::Title => NoteView { title: t, ..n },
        EditField::Body => NoteView { body: t, ..n },
    }
}

/// The cursor of one field.
pub open spec fn cursor_of(st: EditState, f: EditField) -> usize {
    match f {
        EditField::Title => st.title_cursor,
        EditField::Body => st.body_cursor,
    }
}

/// The edit state with one field's cursor replaced.
pub open spec fn with_cursor(st: EditState, f: EditField, c: usize) -> EditState {
    match f {
        EditField::Title => EditState { title_cursor: c, ..st },
        EditField::Body => EditState { body_cursor: c, ..st },
    }
}

/// `c + delta` kept within `0..=len`.
pub open spec fn clamp_cursor(c: usize, delta: int, len: nat) -> usize {
    let t = c + delta;
    if t < 0 {
        0
    } else if t > len {
        len as usize
    } else {
        t as usize
    }
}

/// Moves the cursor of the field being edited by `delta`, kept within
/// `0..=len`.
pub fn move_cursor(state: &mut EditState, delta: isize, len: usize)
    requires
        cursor_of(*old(state), old(state).field) <= isize::MAX,
        len <= isize::MAX,
        isize::MIN <= cursor_of(*old(state), old(state).field) + delta <= isize::MAX,
    ensures
        *final(state) == with_cursor(
            *old(state),
            old(state).field,
            clamp_cursor(cursor_of(*old(state), old(state).field), delta as int, len as nat),
        ),
{
    let cur = match state.field {
        EditField::Title => state.title_cursor,
        EditField::Body => state.body_cursor,
    };
    let t: isize = cur as isize + delta;
    let next: usize = if t < 0 {
        0
    } else if t > len as isize {
        len
    } else {
        t as usize
    };
    match state.field {
        EditField::Title => {
            state.title_cursor = next;
        },
        EditField::Body => {
            state.body_cursor = next;
        },
    }
}

/// The field being edited in note `i` set to `text`, its cursor to `cursor`.
pub open spec fn with_edit(v: EditorView, i: int, st: EditState, text: Seq<char>, cursor: int) -> EditorView {
    EditorView {
        notes: v.notes.update(i, with_field_text(v.notes[i], st.field, text)),
        mode: Mode::Edit(with_cursor(st, st.field, cursor as usize)),
        dirty: true,
        ..v
    }
}

/// Whether a key in the inline editor can be carried out: insertion needs the
/// cursor on a character boundary, and Backspace needs one just before the
/// cursor (otherwise `String` panics); and the text stays within what a
/// `String` can hold.
pub open spec fn edit_key_ok(v: EditorView, key: Key) -> bool {
    match (v.mode, v.selected) {
        (Mode::Edit(st), Some(i)) => {
            let text = field_text(v.notes[i as int], st.field);
            let c = cursor_of(st, st.field);
            &&& byte_len(text) + 4 <= isize::MAX
            &&& (key == Key::Backspace && 0 < c <= byte_len(text)) ==> is_boundary(text, c - 1)
            &&& (key == Key::Enter || key is Char) ==> is_boundary(text, c as int)
        },
        _ => true,
    }
}

/// The result of a key in the inline editor.
pub open spec fn after_edit_key(v: EditorView, key: Key) -> EditorView {
    match v.selected {
        None => EditorView { mode: Mode::Normal, ..v },
        Some(sel) => match v.mode {
            Mode::Edit(st) => {
                let i = sel as int;
                let n = v.notes[i];
                let text = field_text(n, st.field);
                let c = cursor_of(st, st.field);
                if key == Key::Esc {
                    EditorView { mode: Mode::Normal, status: "edited "@ + seq![n.key], ..v }
                } else if key == Key::Tab {
                    let f = match st.field {
                        EditField::Title => EditField::Body,
                        EditField::Body => EditField::Title,
                    };
                    EditorView { mode: Mode::Edit(EditState { field: f, ..st }), ..v }
                } else if key == Key::Backspace {
                    if 0 < c && c <= byte_len(text) {
                        with_edit(v, i, st, remove_at_byte(text, c - 1), c - 1)
                    } else {
                        v
                    }
                } else if key == Key::Enter {
                    with_edit(v, i, st, insert_at_byte(text, c as int, '\n'), c + 1)
                } else if key == Key::Left {
                    EditorView {
                        mode: Mode::Edit(with_cursor(st, st.field, clamp_cursor(c, -1, byte_len(text)))),
                        ..v
                    }
                } else if key == Key::Right {
                    EditorView {
                        mode: Mode::Edit(with_cursor(st, st.field, clamp_cursor(c, 1, byte_len(text)))),
                        ..v
                    }
                } else {
                    match key {
                        Key::Char(ch) => with_edit(v, i, st, insert_at_byte(text, c as int, ch), c + width(ch)),
                        _ => v,
                    }
                }
            },
            _ => v,
        },
    }
}

/// The repeat count a string of digits gives (`str::parse::<u16>`, or 1).
pub fn parse_count(s: &str) -> (n: u16)
    requires
        all_digits(s@),
    ensures
        n == count_of(s@),
{
    let cs = chars_of(s);
    if cs.len() == 0 {
        return 1;
    }
    let mut value: u32 = 0;
    let mut i: usize = 0;
    assert(cs@.take(0) =~= Seq::<char>::empty());
    while i < cs.len()
        invariant
            i <= cs@.len(),
            cs@ == s@,
            all_digits(s@),
            value == digits_value(cs@.take(i as int)),
            value <= u16::MAX,
        decreases cs@.len() - i,
    {
        let d = (cs[i] as u32) - ('0' as u32);
        assert(cs@.take(i + 1).drop_last() =~= cs@.take(i as int));
        assert('0' <= cs@[i as int] <= '9');
        let next = value * 10 + d;
        if next > 65535 {
            proof {
                lemma_digits_value_grows(cs@, i + 1);
            }
            return 1;
        }
        value = next;
        i += 1;
    }
    assert(cs@.take(cs@.len() as int) =~= cs@);
    value as u16
}

pub proof fn lemma_digits_value_grows(s: Seq<char>, i: int)
    requires
        0 <= i <= s.len(),
        all_digits(s),
    ensures
        digits_value(s.take(i)) <= digits_value(s),
    decreases s.len() - i,
{
    if i < s.len() {
        assert(s.take(i + 1).drop_last() =~= s.take(i));
        assert('0' <= s[i] <= '9');
        lemma_digits_value_grows(s, i + 1);
    } else {
        assert(s.take(i) =~= s);
    }
}

/// The file stem of a note keyed `key`.
pub fn slugify_key(key: char) -> (s: String)
    ensures
        s@ == seq![key],
{
    let mut s = String::new();
    push_char(&mut s, key);
    s
}

/// The note added at position `index` of the list with key `k`.
pub open spec fn new_note_view(k: char, index: int, x: u32, y: u32) -> NoteView {
    NoteView {
        key: k,
        title: seq![],
        body: seq![],
        x,
        y,
        w: default_width(),
        h: default_height(),
        color: color_in_cycle(index % 7),
        file_path: Some("nodes/"@ + seq![k] + ".md"@),
    }
}

/// A new, empty note keyed `key` at `(x, y)` for position `index` of the list.
pub fn new_note(key: char, x: u32, y: u32, index: usize) -> (n: Note)
    ensures
        n@ == new_note_view(key, index as int, x, y),
        n.x == x,
        n.y == y,
{
    let mut path = text_of("nodes/");
    let slug = slugify_key(key);
    push_str(&mut path, slug.as_str());
    push_str(&mut path, ".md");
    let n = Note {
        key,
        title: String::new(),
        body: String::new(),
        x,
        y,
        w: 0x41a0_0000,
        h: 0x4100_0000,
        color: NoteColor::cycle(index),
        file_path: Some(path),
    };
    assert(n@ =~= new_note_view(key, index as int, x, y));
    n
}


/// Whether a key is an ASCII digit.
pub open spec fn is_digit_key(key: Key) -> bool {
    match key {
        Key::Char(ch) => '0' <= ch <= '9',
        _ => false,
    }
}

/// The result of a key in normal mode, once no key is pending: digits build
/// a repeat count, and every other key consumes it.
pub open spec fn after_normal_command(v: EditorView, key: Key) -> (EditorView, Action) {
    if is_digit_key(key) {
        (after_count_digit(v, key->0), Action::Nothing)
    } else {
        let count = count_of(v.count_buffer);
        let w = EditorView { count_buffer: seq![], ..v };
        if key == Key::Char('q') {
            (after_quit_request(w, false), Action::Nothing)
        } else if key == Key::Char(':') {
            (
                EditorView {
                    mode: Mode::Command,
                    command_buffer: seq![],
                    status: "command mode"@,
                    ..w
                },
                Action::Nothing,
            )
        } else if key == Key::Char('a') {
            (w, Action::AddNote)
        } else if key == Key::Char('x') {
            (after_delete_selected(w), Action::Nothing)
        } else if key == Key::Char('f') {
            (
                EditorView { mode: Mode::AwaitSelect, status: "select node by key"@, ..w },
                Action::Nothing,
            )
        } else if key == Key::Char('i') {
            (after_start_edit(w), Action::Nothing)
        } else if key == Key::Char('o') {
            match w.selected {
                None => (EditorView { status: "select a node first"@, ..w }, Action::Nothing),
                Some(i) => (w, Action::OpenEditor(i)),
            }
        } else if key == Key::Char('m') {
            let kind = match kind_of_digit(count) {
                Some(k) => k,
                None => RelationType::Directional,
            };
            (after_begin_relation(w, kind), Action::Nothing)
        } else if key == Key::Char('u') {
            (after_begin_unlink(w), Action::Nothing)
        } else if key == Key::Char('G') {
            (w, Action::FitAll)
        } else if key == Key::Char('s') || key == Key::Char('+') || key == Key::Char('=') {
            (w, Action::ZoomIn)
        } else if key == Key::Char('d') || key == Key::Char('-') || key == Key::Char('_') {
            (w, Action::ZoomOut)
        } else if key == Key::Left || key == Key::Char('h') {
            (w, Action::Move { dx: -1i8, dy: 0, count })
        } else if key == Key::Right || key == Key::Char('l') {
            (w, Action::Move { dx: 1, dy: 0, count })
        } else if key == Key::Up || key == Key::Char('k') {
            (w, Action::Move { dx: 0, dy: -1i8, count })
        } else if key == Key::Down || key == Key::Char('j') {
            (w, Action::Move { dx: 0, dy: 1, count })
        } else {
            (w, Action::Nothing)
        }
    }
}

/// The result of a key outside the inline editor and the command line.
pub open spec fn after_normal_key(v: EditorView, key: Key) -> (EditorView, Action) {
    if key == Key::Esc {
        (after_cancel_pending(v), Action::Nothing)
    } else {
        match v.mode {
            Mode::AwaitSelect => (
                match key {
                    Key::Char(ch) => after_select_by_key(v, ch),
                    _ => v,
                },
                Action::Nothing,
            ),
            Mode::AwaitRelationPrefix(kind) => if key == Key::Char('f') {
                (
                    EditorView {
                        mode: Mode::AwaitRelationTarget(kind),
                        status: "relation "@ + label_of(kind) + ": target key"@,
                        ..v
                    },
                    Action::Nothing,
                )
            } else {
                (
                    EditorView {
                        status: "relation expects f then target key"@,
                        mode: Mode::Normal,
                        ..v
                    },
                    Action::Nothing,
                )
            },
            Mode::AwaitRelationTarget(kind) => (
                match key {
                    Key::Char(ch) => after_create_relation(v, ch, kind),
                    _ => v,
                },
                Action::Nothing,
            ),
            Mode::AwaitUnlinkPrefix => if key == Key::Char('f') {
                (
                    EditorView {
                        mode: Mode::AwaitUnlinkTarget,
                        status: "unlink: target key"@,
                        ..v
                    },
                    Action::Nothing,
                )
            } else {
                (
                    EditorView {
                        status: "unlink expects f then target key"@,
                        mode: Mode::Normal,
                        ..v
                    },
                    Action::Nothing,
                )
            },
            Mode::AwaitUnlinkTarget => (
                match key {
                    Key::Char(ch) => after_remove_relation(v, ch),
                    _ => v,
                },
                Action::Nothing,
            ),
            _ => after_normal_command(v, key),
        }
    }
}

/// The result of running the command line `cmd` (already trimmed).
pub open spec fn after_run_command(v: EditorView, cmd: Seq<char>) -> (EditorView, Action) {
    if cmd == "w"@ {
        (v, Action::Save { quit: false })
    } else if cmd == "wq"@ {
        (v, Action::Save { quit: true })
    } else if cmd == "q"@ {
        (after_quit_request(v, false), Action::Nothing)
    } else if cmd == "q!"@ {
        (after_quit_request(v, true), Action::Nothing)
    } else if cmd == "export"@ {
        (v, Action::Export)
    } else if starts_with(cmd, "editor"@) {
        let value = trim(cmd.skip("editor"@.len() as int));
        if value.len() == 0 {
            (EditorView { status: "editor "@ + v.editor_command, ..v }, Action::Nothing)
        } else {
            (EditorView { editor_command: value, ..v }, Action::SaveConfig)
        }
    } else if cmd.len() == 0 {
        (v, Action::Nothing)
    } else {
        (EditorView { status: "unknown command: :"@ + cmd, ..v }, Action::Nothing)
    }
}

/// The state once the configuration has been written after `:editor`:
/// the change is marked and the new editor command reported.
pub open spec fn after_config_saved(v: EditorView) -> EditorView {
    EditorView { dirty: true, status: "editor set to "@ + v.editor_command, ..v }
}

/// The result of a key on the command line.
pub open spec fn after_command_key(v: EditorView, key: Key) -> (EditorView, Action) {
    if key == Key::Esc {
        (
            EditorView {
                mode: Mode::Normal,
                command_buffer: seq![],
                status: "command cancelled"@,
                ..v
            },
            Action::Nothing,
        )
    } else if key == Key::Backspace {
        (
            EditorView {
                command_buffer: if v.command_buffer.len() > 0 {
                    v.command_buffer.drop_last()
                } else {
                    v.command_buffer
                },
                ..v
            },
            Action::Nothing,
        )
    } else if key == Key::Enter {
        after_run_command(
            EditorView { command_buffer: seq![], mode: Mode::Normal, ..v },
            trim(v.command_buffer),
        )
    } else if key == Key::Tab {
        (EditorView { command_buffer: v.command_buffer.push(' '), ..v }, Action::Nothing)
    } else {
        match key {
            Key::Char(ch) => (
                EditorView { command_buffer: v.command_buffer.push(ch), ..v },
                Action::Nothing,
            ),
            _ => (v, Action::Nothing),
        }
    }
}

/// The result of a key, in whatever mode the editor is.
pub open spec fn after_key(v: EditorView, key: Key) -> (EditorView, Action) {
    match v.mode {
        Mode::Command => after_command_key(v, key),
        Mode::Edit(_) => (after_edit_key(v, key), Action::Nothing),
        _ => after_normal_key(v, key),
    }
}

/// Whether a key can be carried out without a `String` panic or overflow
/// (see `edit_key_ok`; `i` measures the selected note's text).
pub open spec fn key_ok(v: EditorView, key: Key) -> bool {
    match v.mode {
        Mode::Edit(_) => edit_key_ok(v, key),
        Mode::Command => true,
        _ => (key == Key::Char('i') && v.selected is Some) ==> {
            &&& byte_len(v.notes[v.selected->0 as int].title) <= isize::MAX
            &&& byte_len(v.notes[v.selected->0 as int].body) <= isize::MAX
        },
    }
}


/// The bit pattern of `-10.0f32`.
pub open spec fn demo_x() -> u32 {
    0xc120_0000
}

/// The bit pattern of `-4.0f32`.
pub open spec fn demo_y() -> u32 {
    0xc080_0000
}

/// The editor a new session opens with: one empty note `a`, selected and
/// open in the inline editor.
pub open spec fn demo_view(editor_command: Seq<char>) -> EditorView {
    EditorView {
        notes: seq![
            NoteView {
                key: 'a',
                title: seq![],
                body: seq![],
                x: demo_x(),
                y: demo_y(),
                w: default_width(),
                h: default_height(),
                color: NoteColor::Cyan,
                file_path: Some("nodes/a.md"@),
            },
        ],
        relations: seq![],
        selected: Some(0),
        mode: Mode::Edit(EditState { field: EditField::Title, title_cursor: 0, body_cursor: 0 }),
        count_buffer: seq![],
        command_buffer: seq![],
        status: "start typing"@,
        editor_command,
        monocolor: false,
        loaded_path: None,
        dirty: false,
        should_quit: false,
    }
}

/// The hint the status line shows for the current mode.
pub open spec fn mode_hint(v: EditorView) -> Seq<char> {
    match v.mode {
        Mode::Normal => v.status,
        Mode::AwaitSelect => "awaiting node key"@,
        Mode::AwaitRelationPrefix(_) => "relation: press f then target key"@,
        Mode::AwaitRelationTarget(kind) => label_of(kind),
        Mode::AwaitUnlinkPrefix => "unlink: press f then target key"@,
        Mode::AwaitUnlinkTarget => "unlink: target key"@,
        Mode::Edit(st) => match st.field {
            EditField::Title => "edit title  tab body  esc done"@,
            EditField::Body => "edit body  tab title  esc done"@,
        },
        Mode::Command => seq![],
    }
}

/// What the status line says of the selection.
pub open spec fn selection_text(v: EditorView) -> Seq<char> {
    match v.selected {
        Some(i) => if i < v.notes.len() {
            "sel "@ + tag(v.notes[i as int].key) + " "@ + v.notes[i as int].title
        } else {
            "pan"@
        },
        None => "pan"@,
    }
}

/// The status line, given the text that describes the zoom and camera: the
/// command line while one is typed, else the mode hint, the view, the
/// selection and a mark for unsaved changes.
pub open spec fn status_line(v: EditorView, view: Seq<char>) -> Seq<char> {
    if v.mode == Mode::Command {
        ":"@ + v.command_buffer + "_"@
    } else {
        mode_hint(v) + "  "@ + view + "  "@ + selection_text(v) + if v.dirty {
            "  *dirty"@
        } else {
            seq![]
        }
    }
}

/// A string holding `s`.
pub fn text_of(s: &str) -> (r: String)
    ensures
        r@ == s@,
{
    let mut r = String::new();
    push_str(&mut r, s);
    r
}

/// Appends `[c]`.
pub fn push_tag(s: &mut String, c: char)
    ensures
        final(s)@ == old(s)@ + tag(c),
{
    push_str(s, "[");
    push_char(s, c);
    push_str(s, "]");
    assert(final(s)@ =~= old(s)@ + tag(c));
}

/// The index of the first note keyed `ch`, or the number of notes.
pub fn note_index(notes: &Vec<Note>, ch: char) -> (i: usize)
    ensures
        i == find(keys(note_views(notes@)), ch),
        i <= notes@.len(),
{
    let ghost ks = keys(note_views(notes@));
    let mut i: usize = 0;
    while i < notes.len() && notes[i].key != ch
        invariant
            i <= notes@.len(),
            ks == keys(note_views(notes@)),
            ks.len() == notes@.len(),
            forall|k: int| 0 <= k < i ==> #[trigger] ks[k] != ch,
        decreases notes@.len() - i,
    {
        assert(ks[i as int] == notes@[i as int].key);
        i += 1;
    }
    proof {
        if i < notes@.len() {
            assert(ks[i as int] == notes@[i as int].key);
        }
        crate::text::lemma_find_at(ks, ch, i as int);
    }
    i
}

/// The relations that touch neither end at `k`, in order.
pub fn relations_avoiding(rels: &Vec<Relation>, k: char) -> (r: Vec<Relation>)
    ensures
        r@ == retain_relations(rels@, avoids(k)),
{
    let mut r: Vec<Relation> = Vec::new();
    let mut i: usize = 0;
    while i < rels.len()
        invariant
            i <= rels@.len(),
            r@ == retain_relations(rels@.take(i as int), avoids(k)),
        decreases rels@.len() - i,
    {
        let rel = rels[i];
        assert(rels@.take(i + 1).drop_last() =~= rels@.take(i as int));
        assert(rels@.take(i + 1).last() == rel);
        if rel.from != k && rel.to != k {
            r.push(rel);
        }
        i += 1;
    }
    assert(rels@.take(rels@.len() as int) =~= rels@);
    r
}

/// The relations other than `from -> to`, in order.
pub fn relations_without_edge(rels: &Vec<Relation>, from: char, to: char) -> (r: Vec<Relation>)
    ensures
        r@ == retain_relations(rels@, not_edge(from, to)),
{
    let mut r: Vec<Relation> = Vec::new();
    let mut i: usize = 0;
    while i < rels.len()
        invariant
            i <= rels@.len(),
            r@ == retain_relations(rels@.take(i as int), not_edge(from, to)),
        decreases rels@.len() - i,
    {
        let rel = rels[i];
        assert(rels@.take(i + 1).drop_last() =~= rels@.take(i as int));
        assert(rels@.take(i + 1).last() == rel);
        if !(rel.from == from && rel.to == to) {
            r.push(rel);
        }
        i += 1;
    }
    assert(rels@.take(rels@.len() as int) =~= rels@);
    r
}

pub proof fn lemma_retain_len(rels: Seq<Relation>, keep: spec_fn(Relation) -> bool)
    ensures
        retain_relations(rels, keep).len() <= rels.len(),
        retain_relations(rels, keep).len() == rels.len() ==> retain_relations(rels, keep) == rels,
        forall|j: int|
            0 <= j < retain_relations(rels, keep).len() ==> keep(
                #[trigger] retain_relations(rels, keep)[j],
            ),
        forall|j: int|
            0 <= j < retain_relations(rels, keep).len() ==> rels.contains(
                #[trigger] retain_relations(rels, keep)[j],
            ),
    decreases rels.len(),
{
    if rels.len() > 0 {
        lemma_retain_len(rels.drop_last(), keep);
        let rest = retain_relations(rels.drop_last(), keep);
        assert forall|j: int| 0 <= j < rest.len() implies rels.contains(#[trigger] rest[j]) by {
            assert(rels.drop_last().contains(rest[j]));
            let m = choose|m: int| 0 <= m < rels.drop_last().len() && rels.drop_last()[m] == rest[j];
            assert(rels[m] == rest[j]);
        }
        if keep(rels.last()) {
            let r = rest.push(rels.last());
            assert forall|j: int| 0 <= j < r.len() implies rels.contains(#[trigger] r[j]) by {
                if j < rest.len() {
                    assert(r[j] == rest[j]);
                } else {
                    assert(rels[rels.len() - 1] == r[j]);
                }
            }
            if r.len() == rels.len() {
                assert(rest == rels.drop_last());
                assert(r =~= rels);
            }
        }
    }
}

impl Editor {
    /// The well-formedness of the editor state.
    pub open spec fn wf(&self) -> bool {
        view_wf(self@)
    }

    /// Esc outside the inline editor and the command line: leave a pending
    /// mode, or clear the selection when none is pending.
    pub fn cancel_pending(&mut self)
        requires
            old(self).wf(),
        ensures
            final(self)@ == after_cancel_pending(old(self)@),
            final(self).wf(),
    {
        if self.mode == Mode::Normal {
            self.selected = None;
            self.status = text_of("selection cleared");
        } else {
            self.mode = Mode::Normal;
            self.count_buffer = String::new();
            self.command_buffer = String::new();
            self.status = text_of("cancelled");
        }
        assert(self@ =~= after_cancel_pending(old(self)@));
    }

    /// Selects the first note keyed `key`.
    pub fn select_by_key(&mut self, key: char)
        requires
            old(self).wf(),
        ensures
            final(self)@ == after_select_by_key(old(self)@, key),
            final(self).wf(),
    {
        let i = note_index(&self.notes, key);
        if i < self.notes.len() {
            self.selected = Some(i);
            self.mode = Mode::Normal;
            let mut s = text_of("selected ");
            push_tag(&mut s, key);
            push_str(&mut s, " ");
            push_str(&mut s, self.notes[i].title.as_str());
            self.status = s;
        } else {
            self.mode = Mode::Normal;
            let mut s = text_of("unknown node key ");
            push_tag(&mut s, key);
            self.status = s;
        }
        assert(self@ =~= after_select_by_key(old(self)@, key));
    }

    /// Deletes the selected note and every relation that touches it.
    pub fn delete_selected_note(&mut self)
        requires
            old(self).wf(),
        ensures
            final(self)@ == after_delete_selected(old(self)@),
            final(self).wf(),
    {
        match self.selected {
            None => {
                self.status = text_of("select a node first");
            },
            Some(i) => {
                let removed = self.notes.remove(i);
                let key = removed.key;
                self.relations = relations_avoiding(&self.relations, key);
                self.selected = None;
                self.mode = Mode::Normal;
                self.dirty = true;
                let mut s = text_of("deleted ");
                push_tag(&mut s, key);
                self.status = s;
                assert(note_views(self.notes@) =~= note_views(old(self).notes@).remove(i as int));
            },
        }
        assert(self@ =~= after_delete_selected(old(self)@));
    }

    /// `m` with a relation type: wait for `f` and the target key.
    pub fn begin_relation(&mut self, kind: RelationType)
        requires
            old(self).wf(),
        ensures
            final(self)@ == after_begin_relation(old(self)@, kind),
            final(self).wf(),
    {
        if self.selected.is_none() {
            self.status = text_of("select a source node first");
        } else {
            self.mode = Mode::AwaitRelationPrefix(kind);
            let mut s = text_of(kind.label());
            push_str(&mut s, " relation: press f then target key");
            self.status = s;
        }
        assert(self@ =~= after_begin_relation(old(self)@, kind));
    }

    /// `u`: wait for `f` and the target key.
    pub fn begin_unlink(&mut self)
        requires
            old(self).wf(),
        ensures
            final(self)@ == after_begin_unlink(old(self)@),
            final(self).wf(),
    {
        if self.selected.is_none() {
            self.status = text_of("select a source node first");
        } else {
            self.mode = Mode::AwaitUnlinkPrefix;
            self.status = text_of("unlink: press f then target key");
        }
        assert(self@ =~= after_begin_unlink(old(self)@));
    }

    /// Links the selected note to the note keyed `key`.
    pub fn create_relation_to(&mut self, key: char, kind: RelationType)
        requires
            old(self).wf(),
        ensures
            final(self)@ == after_create_relation(old(self)@, key, kind),
            final(self).wf(),
    {
        match self.selected {
            None => {
                self.mode = Mode::Normal;
            },
            Some(sel) => {
                let from = self.notes[sel].key;
                let t = note_index(&self.notes, key);
                proof {
                    let ks = keys(old(self)@.notes);
                    lemma_find(ks, key);
                    if t < self.notes@.len() {
                        assert(ks[t as int] == key);
                    }
                }
                if t == self.notes.len() {
                    let mut s = text_of("unknown target ");
                    push_tag(&mut s, key);
                    self.status = s;
                    self.mode = Mode::Normal;
                } else {
                    self.relations.push(Relation { from, to: key, kind });
                    self.dirty = true;
                    self.mode = Mode::Normal;
                    let mut s = text_of("linked ");
                    push_tag(&mut s, from);
                    push_str(&mut s, " -> ");
                    push_tag(&mut s, key);
                    push_str(&mut s, " (");
                    push_str(&mut s, kind.label());
                    push_str(&mut s, ")");
                    self.status = s;
                }
            },
        }
        assert(self@ =~= after_create_relation(old(self)@, key, kind));
    }

    /// Removes every relation from the selected note to the note keyed `key`.
    pub fn remove_relation_to(&mut self, key: char)
        requires
            old(self).wf(),
        ensures
            final(self)@ == after_remove_relation(old(self)@, key),
            final(self).wf(),
    {
        match self.selected {
            None => {
                self.mode = Mode::Normal;
            },
            Some(sel) => {
                let from = self.notes[sel].key;
                let before = self.relations.len();
                self.relations = relations_without_edge(&self.relations, from, key);
                proof {
                    lemma_retain_len(old(self).relations@, not_edge(from, key));
                }
                let removed = before - self.relations.len();
                self.mode = Mode::Normal;
                if removed == 0 {
                    let mut s = text_of("no relation ");
                    push_tag(&mut s, from);
                    push_str(&mut s, " -> ");
                    push_tag(&mut s, key);
                    self.status = s;
                } else {
                    self.dirty = true;
                    let mut s = text_of("unlinked ");
                    push_tag(&mut s, from);
                    push_str(&mut s, " -> ");
                    push_tag(&mut s, key);
                    self.status = s;
                }
            },
        }
        assert(self@ =~= after_remove_relation(old(self)@, key));
    }

    /// Asks to quit: refused while there are unsaved changes, unless `force`.
    pub fn quit_requested(&mut self, force: bool)
        requires
            old(self).wf(),
        ensures
            final(self)@ == after_quit_request(old(self)@, force),
            final(self).wf(),
    {
        if self.dirty && !force {
            self.status = text_of("unsaved changes; use :w to save or :q! to force");
            assert(self@ =~= after_quit_request(old(self)@, force));
            return ;
        }
        self.should_quit = true;
        assert(self@ =~= after_quit_request(old(self)@, force));
    }

    /// A digit key: extend the repeat count.
    pub fn push_count_digit(&mut self, ch: char)
        requires
            old(self).wf(),
            '0' <= ch <= '9',
        ensures
            final(self)@ == after_count_digit(old(self)@, ch),
            final(self).wf(),
    {
        push_char(&mut self.count_buffer, ch);
        let mut s = text_of("count ");
        push_str(&mut s, self.count_buffer.as_str());
        self.status = s;
        assert(self@ =~= after_count_digit(old(self)@, ch));
    }

    /// Takes the repeat count typed so far (1 when there is none), clearing it.
    pub fn take_count(&mut self) -> (n: u16)
        requires
            old(self).wf(),
        ensures
            n == count_of(old(self)@.count_buffer),
            final(self)@ == (EditorView { count_buffer: seq![], ..old(self)@ }),
            final(self).wf(),
    {
        let n = parse_count(self.count_buffer.as_str());
        self.count_buffer = String::new();
        assert(self@ =~= (EditorView { count_buffer: seq![], ..old(self)@ }));
        n
    }

    /// The key the next new note gets, if any is left.
    pub fn next_key(&self) -> (k: Option<char>)
        ensures
            k == next_free_key(self@.notes),
    {
        let ghost used = keys(self@.notes);
        let mut i: u8 = 0;
        while i < 36
            invariant
                i <= 36,
                used == keys(self@.notes),
                first_free_key(used, 0) == first_free_key(used, i as int),
            decreases 36 - i,
        {
            let c = if i < 26 { (97 + i) as char } else { (48 + i - 26) as char };
            assert(c == candidate_key(i as int));
            let t = note_index(&self.notes, c);
            proof {
                lemma_find(used, c);
                if t < self.notes@.len() {
                    assert(used[t as int] == c);
                }
            }
            if t == self.notes.len() {
                return Some(c);
            }
            i += 1;
        }
        None
    }

    /// Adds a note at `(x, y)` (bit patterns of the canvas coordinates): it
    /// takes the next free key and colour and opens in the inline editor.
    pub fn add_node(&mut self, x: u32, y: u32)
        requires
            old(self).wf(),
        ensures
            final(self)@ == after_add_note(old(self)@, x, y),
            final(self).wf(),
    {
        match self.next_key() {
            None => {
                self.status = text_of("no available node keys");
                assert(self@ =~= after_add_note(old(self)@, x, y));
            },
            Some(key) => {
                let index = self.notes.len();
                let note = new_note(key, x, y, index);
                self.push_new_note(note, key);
            },
        }
    }

    fn push_new_note(&mut self, note: Note, key: char)
        requires
            old(self).wf(),
            note@ == new_note_view(key, old(self)@.notes.len() as int, note.x, note.y),
        ensures
            final(self)@ == (EditorView {
                notes: old(self)@.notes.push(note@),
                selected: Some(old(self)@.notes.len() as usize),
                mode: Mode::Edit(EditState { field: EditField::Title, title_cursor: 0, body_cursor: 0 }),
                dirty: true,
                status: "added node "@ + tag(key),
                ..old(self)@
            }),
            final(self).wf(),
    {
        let index = self.notes.len();
        let ghost nv = note@;
        let ghost old_notes = self.notes@;
        self.notes.push(note);
        assert(note_views(self.notes@) =~= note_views(old_notes).push(nv));
        self.selected = Some(index);
        self.mode = Mode::Edit(EditState { field: EditField::Title, title_cursor: 0, body_cursor: 0 });
        self.dirty = true;
        let mut s = text_of("added node ");
        push_tag(&mut s, key);
        self.status = s;
        proof {
            assert(byte_len(Seq::<char>::empty()) == 0);
        }
        assert(self@ =~= (EditorView {
            notes: old(self)@.notes.push(nv),
            selected: Some(old(self)@.notes.len() as usize),
            mode: Mode::Edit(EditState { field: EditField::Title, title_cursor: 0, body_cursor: 0 }),
            dirty: true,
            status: "added node "@ + tag(key),
            ..old(self)@
        }));
    }

    /// `i`: edit the selected note's title, with both cursors at the ends.
    pub fn start_edit(&mut self)
        requires
            old(self).wf(),
            old(self)@.selected matches Some(i) ==> byte_len(old(self)@.notes[i as int].title)
                <= isize::MAX && byte_len(old(self)@.notes[i as int].body) <= isize::MAX,
        ensures
            final(self)@ == after_start_edit(old(self)@),
            final(self).wf(),
    {
        match self.selected {
            None => {
                self.status = text_of("select a node first");
            },
            Some(i) => {
                let tl = text_len(&self.notes[i].title);
                let bl = text_len(&self.notes[i].body);
                let key = self.notes[i].key;
                self.mode = Mode::Edit(
                    EditState { field: EditField::Title, title_cursor: tl, body_cursor: bl },
                );
                let mut s = text_of("editing ");
                push_char(&mut s, key);
                self.status = s;
            },
        }
        assert(self@ =~= after_start_edit(old(self)@));
    }

    /// A key in the inline editor.
    pub fn handle_edit_key(&mut self, key: Key)
        requires
            old(self).wf(),
            edit_key_ok(old(self)@, key),
        ensures
            final(self)@ == after_edit_key(old(self)@, key),
            final(self).wf(),
    {
        let sel = match self.selected {
            None => {
                self.mode = Mode::Normal;
                assert(self@ =~= after_edit_key(old(self)@, key));
                return ;
            },
            Some(i) => i,
        };
        let st = match self.mode {
            Mode::Edit(st) => st,
            _ => {
                return ;
            },
        };
        let ghost v = old(self)@;
        let ghost text = field_text(v.notes[sel as int], st.field);
        let ghost c = cursor_of(st, st.field);
        match key {
            Key::Esc => {
                let k = self.notes[sel].key;
                self.mode = Mode::Normal;
                let mut s = text_of("edited ");
                push_char(&mut s, k);
                self.status = s;
            },
            Key::Tab => {
                let f = match st.field {
                    EditField::Title => EditField::Body,
                    EditField::Body => EditField::Title,
                };
                self.mode = Mode::Edit(EditState { field: f, ..st });
            },
            Key::Backspace => {
                match st.field {
                    EditField::Title => {
                        let len = text_len(&self.notes[sel].title);
                        let cur = st.title_cursor;
                        if cur > 0 && cur <= len {
                            let t = remove_char_at(&self.notes[sel].title, cur - 1);
                            proof {
                                crate::cursor::lemma_remove_at_byte(text, cur - 1);
                            }
                            self.notes[sel].title = t;
                            self.mode = Mode::Edit(EditState { title_cursor: cur - 1, ..st });
                            self.dirty = true;
                        }
                    },
                    EditField::Body => {
                        let len = text_len(&self.notes[sel].body);
                        let cur = st.body_cursor;
                        if cur > 0 && cur <= len {
                            let t = remove_char_at(&self.notes[sel].body, cur - 1);
                            proof {
                                crate::cursor::lemma_remove_at_byte(text, cur - 1);
                            }
                            self.notes[sel].body = t;
                            self.mode = Mode::Edit(EditState { body_cursor: cur - 1, ..st });
                            self.dirty = true;
                        }
                    },
                }
            },
            Key::Enter => {
                self.insert_in_field(sel, st, '\n');
            },
            Key::Char(ch) => {
                self.insert_in_field(sel, st, ch);
            },
            Key::Left => {
                self.move_field_cursor(sel, st, false);
            },
            Key::Right => {
                self.move_field_cursor(sel, st, true);
            },
            _ => {},
        }
        proof {
            if key == Key::Backspace && 0 < c && c <= byte_len(text) {
                assert(note_views(self.notes@) =~= v.notes.update(
                    sel as int,
                    with_field_text(v.notes[sel as int], st.field, remove_at_byte(text, c - 1)),
                ));
            }
        }
        assert(self@ =~= after_edit_key(old(self)@, key));
    }

    /// Inserts `ch` at the cursor of the field being edited.
    fn insert_in_field(&mut self, sel: usize, st: EditState, ch: char)
        requires
            old(self).wf(),
            old(self)@.selected == Some(sel),
            old(self)@.mode == Mode::Edit(st),
            byte_len(field_text(old(self)@.notes[sel as int], st.field)) + 4 <= isize::MAX,
            is_boundary(
                field_text(old(self)@.notes[sel as int], st.field),
                cursor_of(st, st.field) as int,
            ),
        ensures
            final(self)@ == with_edit(
                old(self)@,
                sel as int,
                st,
                insert_at_byte(
                    field_text(old(self)@.notes[sel as int], st.field),
                    cursor_of(st, st.field) as int,
                    ch,
                ),
                cursor_of(st, st.field) + width(ch),
            ),
            final(self).wf(),
    {
        let ghost v = old(self)@;
        let ghost text = field_text(v.notes[sel as int], st.field);
        let w = char_width(ch);
        proof {
            crate::cursor::lemma_insert_at_byte(text, cursor_of(st, st.field) as int, ch);
        }
        match st.field {
            EditField::Title => {
                let t = insert_char_at(&self.notes[sel].title, st.title_cursor, ch);
                self.notes[sel].title = t;
                self.mode = Mode::Edit(EditState { title_cursor: st.title_cursor + w, ..st });
            },
            EditField::Body => {
                let t = insert_char_at(&self.notes[sel].body, st.body_cursor, ch);
                self.notes[sel].body = t;
                self.mode = Mode::Edit(EditState { body_cursor: st.body_cursor + w, ..st });
            },
        }
        self.dirty = true;
        let ghost expected = with_edit(
            v,
            sel as int,
            st,
            insert_at_byte(text, cursor_of(st, st.field) as int, ch),
            cursor_of(st, st.field) + width(ch),
        );
        assert(note_views(self.notes@) =~= expected.notes);
        assert(self@ =~= expected);
    }

    /// Moves the cursor of the field being edited one byte left or right,
    /// within the field's text.
    fn move_field_cursor(&mut self, sel: usize, st: EditState, right: bool)
        requires
            old(self).wf(),
            old(self)@.selected == Some(sel),
            old(self)@.mode == Mode::Edit(st),
            byte_len(field_text(old(self)@.notes[sel as int], st.field)) + 4 <= isize::MAX,
        ensures
            final(self)@ == (EditorView {
                mode: Mode::Edit(
                    with_cursor(
                        st,
                        st.field,
                        clamp_cursor(
                            cursor_of(st, st.field),
                            if right { 1 } else { -1 },
                            byte_len(field_text(old(self)@.notes[sel as int], st.field)),
                        ),
                    ),
                ),
                ..old(self)@
            }),
            final(self).wf(),
    {
        let len = match st.field {
            EditField::Title => text_len(&self.notes[sel].title),
            EditField::Body => text_len(&self.notes[sel].body),
        };
        let mut next = st;
        move_cursor(&mut next, if right { 1 } else { -1 }, len);
        self.mode = Mode::Edit(next);
        assert(self@ =~= (EditorView {
            mode: Mode::Edit(
                with_cursor(
                    st,
                    st.field,
                    clamp_cursor(
                        cursor_of(st, st.field),
                        if right { 1 } else { -1 },
                        byte_len(field_text(old(self)@.notes[sel as int], st.field)),
                    ),
                ),
            ),
            ..old(self)@
        }));
    }

    /// Runs a command line (already trimmed), as typed after `:`.
    pub fn run_command(&mut self, command: &str) -> (a: Action)
        requires
            old(self).wf(),
        ensures
            (final(self)@, a) == after_run_command(old(self)@, command@),
            final(self).wf(),
    {
        let cmd = chars_of(command);
        if chars_are(cmd.as_slice(), "w") {
            return Action::Save { quit: false };
        }
        if chars_are(cmd.as_slice(), "wq") {
            return Action::Save { quit: true };
        }
        if chars_are(cmd.as_slice(), "q") {
            self.quit_requested(false);
            return Action::Nothing;
        }
        if chars_are(cmd.as_slice(), "q!") {
            self.quit_requested(true);
            return Action::Nothing;
        }
        if chars_are(cmd.as_slice(), "export") {
            return Action::Export;
        }
        let editor_word = chars_of("editor");
        if has_prefix(cmd.as_slice(), editor_word.as_slice()) {
            let rest = slice_range(cmd.as_slice(), editor_word.len(), cmd.len());
            let value = trimmed(rest.as_slice());
            assert(rest@ =~= cmd@.skip("editor"@.len() as int));
            if value.len() == 0 {
                let mut s = text_of("editor ");
                push_str(&mut s, self.editor_command.as_str());
                self.status = s;
                assert(self@ =~= after_run_command(old(self)@, command@).0);
                return Action::Nothing;
            } else {
                self.editor_command = string_of(value.as_slice());
                assert(self@ =~= after_run_command(old(self)@, command@).0);
                return Action::SaveConfig;
            }
        }
        if cmd.len() == 0 {
            return Action::Nothing;
        }
        let mut s = text_of("unknown command: :");
        push_chars(&mut s, cmd.as_slice());
        self.status = s;
        assert(self@ =~= after_run_command(old(self)@, command@).0);
        Action::Nothing
    }

    /// A key on the command line.
    pub fn handle_command_key(&mut self, key: Key) -> (a: Action)
        requires
            old(self).wf(),
        ensures
            (final(self)@, a) == after_command_key(old(self)@, key),
            final(self).wf(),
    {
        match key {
            Key::Esc => {
                self.mode = Mode::Normal;
                self.command_buffer = String::new();
                self.status = text_of("command cancelled");
            },
            Key::Backspace => {
                let mut cs = chars_of(self.command_buffer.as_str());
                cs.pop();
                self.command_buffer = string_of(cs.as_slice());
                assert(self@ =~= after_command_key(old(self)@, key).0);
            },
            Key::Enter => {
                let cs = chars_of(self.command_buffer.as_str());
                let command = string_of(trimmed(cs.as_slice()).as_slice());
                self.command_buffer = String::new();
                self.mode = Mode::Normal;
                return self.run_command(command.as_str());
            },
            Key::Tab => {
                push_char(&mut self.command_buffer, ' ');
            },
            Key::Char(ch) => {
                push_char(&mut self.command_buffer, ch);
            },
            _ => {},
        }
        assert(self@ =~= after_command_key(old(self)@, key).0);
        Action::Nothing
    }

    /// A key outside the inline editor and the command line, once no key is
    /// pending.
    fn handle_normal_command(&mut self, key: Key) -> (a: Action)
        requires
            old(self).wf(),
            key_ok(old(self)@, key),
            !(old(self)@.mode is Edit),
            !(old(self)@.mode is Command),
        ensures
            (final(self)@, a) == after_normal_command(old(self)@, key),
            final(self).wf(),
    {
        if let Key::Char(ch) = key {
            if '0' <= ch && ch <= '9' {
                self.push_count_digit(ch);
                return Action::Nothing;
            }
        }
        let count = self.take_count();
        if key == Key::Char('q') {
            self.quit_requested(false);
            Action::Nothing
        } else if key == Key::Char(':') {
            self.mode = Mode::Command;
            self.command_buffer = String::new();
            self.status = text_of("command mode");
            assert(self@ =~= after_normal_command(old(self)@, key).0);
            Action::Nothing
        } else if key == Key::Char('a') {
            Action::AddNote
        } else if key == Key::Char('x') {
            self.delete_selected_note();
            Action::Nothing
        } else if key == Key::Char('f') {
            self.mode = Mode::AwaitSelect;
            self.status = text_of("select node by key");
            assert(self@ =~= after_normal_command(old(self)@, key).0);
            Action::Nothing
        } else if key == Key::Char('i') {
            self.start_edit();
            Action::Nothing
        } else if key == Key::Char('o') {
            match self.selected {
                None => {
                    self.status = text_of("select a node first");
                    assert(self@ =~= after_normal_command(old(self)@, key).0);
                    Action::Nothing
                },
                Some(i) => Action::OpenEditor(i),
            }
        } else if key == Key::Char('m') {
            let kind = match RelationType::from_digit(count) {
                Some(k) => k,
                None => RelationType::Directional,
            };
            self.begin_relation(kind);
            Action::Nothing
        } else if key == Key::Char('u') {
            self.begin_unlink();
            Action::Nothing
        } else if key == Key::Char('G') {
            Action::FitAll
        } else if key == Key::Char('s') || key == Key::Char('+') || key == Key::Char('=') {
            Action::ZoomIn
        } else if key == Key::Char('d') || key == Key::Char('-') || key == Key::Char('_') {
            Action::ZoomOut
        } else if key == Key::Left || key == Key::Char('h') {
            Action::Move { dx: -1, dy: 0, count }
        } else if key == Key::Right || key == Key::Char('l') {
            Action::Move { dx: 1, dy: 0, count }
        } else if key == Key::Up || key == Key::Char('k') {
            Action::Move { dx: 0, dy: -1, count }
        } else if key == Key::Down || key == Key::Char('j') {
            Action::Move { dx: 0, dy: 1, count }
        } else {
            Action::Nothing
        }
    }

    /// A key outside the inline editor and the command line.
    pub fn handle_normal_key(&mut self, key: Key) -> (a: Action)
        requires
            old(self).wf(),
            key_ok(old(self)@, key),
            !(old(self)@.mode is Edit),
            !(old(self)@.mode is Command),
        ensures
            (final(self)@, a) == after_normal_key(old(self)@, key),
            final(self).wf(),
    {
        if key == Key::Esc {
            self.cancel_pending();
            return Action::Nothing;
        }
        match self.mode {
            Mode::AwaitSelect => {
                if let Key::Char(ch) = key {
                    self.select_by_key(ch);
                }
                Action::Nothing
            },
            Mode::AwaitRelationPrefix(kind) => {
                if key == Key::Char('f') {
                    self.mode = Mode::AwaitRelationTarget(kind);
                    let mut s = text_of("relation ");
                    push_str(&mut s, kind.label());
                    push_str(&mut s, ": target key");
                    self.status = s;
                } else {
                    self.status = text_of("relation expects f then target key");
                    self.mode = Mode::Normal;
                }
                assert(self@ =~= after_normal_key(old(self)@, key).0);
                Action::Nothing
            },
            Mode::AwaitRelationTarget(kind) => {
                if let Key::Char(ch) = key {
                    self.create_relation_to(ch, kind);
                }
                Action::Nothing
            },
            Mode::AwaitUnlinkPrefix => {
                if key == Key::Char('f') {
                    self.mode = Mode::AwaitUnlinkTarget;
                    self.status = text_of("unlink: target key");
                } else {
                    self.status = text_of("unlink expects f then target key");
                    self.mode = Mode::Normal;
                }
                assert(self@ =~= after_normal_key(old(self)@, key).0);
                Action::Nothing
            },
            Mode::AwaitUnlinkTarget => {
                if let Key::Char(ch) = key {
                    self.remove_relation_to(ch);
                }
                Action::Nothing
            },
            _ => self.handle_normal_command(key),
        }
    }

    /// A key, in whatever mode the editor is. The caller carries out the
    /// returned action.
    pub fn handle_key(&mut self, key: Key) -> (a: Action)
        requires
            old(self).wf(),
            key_ok(old(self)@, key),
        ensures
            (final(self)@, a) == after_key(old(self)@, key),
            final(self).wf(),
    {
        match self.mode {
            Mode::Command => self.handle_command_key(key),
            Mode::Edit(_) => {
                self.handle_edit_key(key);
                Action::Nothing
            },
            _ => self.handle_normal_key(key),
        }
    }

    /// Whether `handle_key` can carry out `key` (see `key_ok`); where it
    /// cannot, the text operation it stands for would panic.
    pub fn accepts_key(&self, key: Key) -> (r: bool)
        requires
            self.wf(),
        ensures
            r == key_ok(self@, key),
    {
        match self.mode {
            Mode::Command => true,
            Mode::Edit(st) => match self.selected {
                None => true,
                Some(i) => {
                    let chars = match st.field {
                        EditField::Title => chars_of(self.notes[i].title.as_str()),
                        EditField::Body => chars_of(self.notes[i].body.as_str()),
                    };
                    let c = match st.field {
                        EditField::Title => st.title_cursor,
                        EditField::Body => st.body_cursor,
                    };
                    if !byte_len_within(chars.as_slice(), (isize::MAX as usize) - 4) {
                        return false;
                    }
                    let ghost text = chars@;
                    match key {
                        Key::Backspace => {
                            let len = text_len(match st.field {
                                EditField::Title => &self.notes[i].title,
                                EditField::Body => &self.notes[i].body,
                            });
                            if c > 0 && c <= len {
                                char_index_at(chars.as_slice(), c - 1).is_some()
                            } else {
                                true
                            }
                        },
                        Key::Enter => char_index_at(chars.as_slice(), c).is_some(),
                        Key::Char(_) => char_index_at(chars.as_slice(), c).is_some(),
                        _ => true,
                    }
                },
            },
            _ => {
                if key == Key::Char('i') {
                    match self.selected {
                        None => true,
                        Some(i) => {
                            let t = chars_of(self.notes[i].title.as_str());
                            let b = chars_of(self.notes[i].body.as_str());
                            byte_len_within(t.as_slice(), isize::MAX as usize)
                                && byte_len_within(b.as_slice(), isize::MAX as usize)
                        },
                    }
                } else {
                    true
                }
            },
        }
    }

    /// The editor a new session opens with, using `editor_command` to open
    /// notes outside.
    pub fn demo(editor_command: String) -> (e: Editor)
        ensures
            e@ == demo_view(editor_command@),
            e.wf(),
    {
        let mut notes: Vec<Note> = Vec::new();
        let note = Note {
            key: 'a',
            title: String::new(),
            body: String::new(),
            x: 0xc120_0000,
            y: 0xc080_0000,
            w: 0x41a0_0000,
            h: 0x4100_0000,
            color: NoteColor::Cyan,
            file_path: Some(text_of("nodes/a.md")),
        };
        let ghost nv = note@;
        notes.push(note);
        assert(note_views(notes@) =~= seq![nv]);
        let e = Editor {
            notes,
            relations: Vec::new(),
            selected: Some(0),
            mode: Mode::Edit(EditState { field: EditField::Title, title_cursor: 0, body_cursor: 0 }),
            count_buffer: String::new(),
            command_buffer: String::new(),
            status: text_of("start typing"),
            editor_command,
            monocolor: false,
            loaded_path: None,
            dirty: false,
            should_quit: false,
        };
        assert(byte_len(Seq::<char>::empty()) == 0);
        assert(e@ =~= demo_view(editor_command@));
        e
    }

    /// Takes the editor command and the monochrome setting from the
    /// configuration, where it gives them.
    pub fn apply_config(&mut self, editor_command: Option<String>, monocolor: Option<bool>)
        requires
            old(self).wf(),
        ensures
            final(self)@ == (EditorView {
                editor_command: match editor_command {
                    Some(e) => e@,
                    None => old(self)@.editor_command,
                },
                monocolor: match monocolor {
                    Some(m) => m,
                    None => old(self)@.monocolor,
                },
                ..old(self)@
            }),
            final(self).wf(),
    {
        if let Some(e) = editor_command {
            self.editor_command = e;
        }
        if let Some(m) = monocolor {
            self.monocolor = m;
        }
        assert(self@ =~= (EditorView {
            editor_command: match editor_command {
                Some(e) => e@,
                None => old(self)@.editor_command,
            },
            monocolor: match monocolor {
                Some(m) => m,
                None => old(self)@.monocolor,
            },
            ..old(self)@
        }));
    }

    /// Replaces the document with one loaded from a file: nothing selected,
    /// no unsaved changes, and the file's editor command if it names one.
    pub fn replace_graph(
        &mut self,
        notes: Vec<Note>,
        relations: Vec<Relation>,
        editor_command: Option<String>,
    )
        requires
            old(self).wf(),
        ensures
            final(self)@ == (EditorView {
                notes: note_views(notes@),
                relations: relations@,
                editor_command: match editor_command {
                    Some(e) => e@,
                    None => old(self)@.editor_command,
                },
                selected: None,
                dirty: false,
                ..old(self)@
            }),
            final(self).wf(),
    {
        let ghost nv = note_views(notes@);
        self.notes = notes;
        self.relations = relations;
        if let Some(e) = editor_command {
            self.editor_command = e;
        }
        self.selected = None;
        self.dirty = false;
        assert(self@ =~= (EditorView {
            notes: nv,
            relations: relations@,
            editor_command: match editor_command {
                Some(e) => e@,
                None => old(self)@.editor_command,
            },
            selected: None,
            dirty: false,
            ..old(self)@
        }));
    }

    /// Sets the status message.
    pub fn set_status(&mut self, status: String)
        requires
            old(self).wf(),
        ensures
            final(self)@ == (EditorView { status: status@, ..old(self)@ }),
            final(self).wf(),
    {
        self.status = status;
        assert(self@ =~= (EditorView { status: status@, ..old(self)@ }));
    }

    /// Records that the configuration was written after `:editor` changed
    /// the editor command.
    pub fn config_saved(&mut self)
        requires
            old(self).wf(),
        ensures
            final(self)@ == after_config_saved(old(self)@),
            final(self).wf(),
    {
        self.dirty = true;
        let mut s = text_of("editor set to ");
        push_str(&mut s, self.editor_command.as_str());
        self.status = s;
        assert(self@ =~= after_config_saved(old(self)@));
    }

    /// Records a save to `path`: no unsaved changes, `path` the file the
    /// session is now tied to, and quitting if asked.
    pub fn saved(&mut self, path: &str, quit: bool)
        requires
            old(self).wf(),
        ensures
            final(self)@ == (EditorView {
                dirty: false,
                loaded_path: Some(path@),
                status: "saved "@ + path@,
                should_quit: old(self)@.should_quit || quit,
                ..old(self)@
            }),
            final(self).wf(),
    {
        self.dirty = false;
        self.loaded_path = Some(text_of(path));
        let mut s = text_of("saved ");
        push_str(&mut s, path);
        self.status = s;
        if quit {
            self.should_quit = true;
        }
        assert(self@ =~= (EditorView {
            dirty: false,
            loaded_path: Some(path@),
            status: "saved "@ + path@,
            should_quit: old(self)@.should_quit || quit,
            ..old(self)@
        }));
    }

    /// Records that the selected note was moved to `(x, y)` (bit patterns);
    /// `by` describes the step.
    pub fn note_moved(&mut self, x: u32, y: u32, by: &str)
        requires
            old(self).wf(),
            old(self)@.selected is Some,
        ensures
            final(self)@ == (EditorView {
                notes: old(self)@.notes.update(
                    old(self)@.selected->0 as int,
                    NoteView { x, y, ..old(self)@.notes[old(self)@.selected->0 as int] },
                ),
                dirty: true,
                status: "moved "@ + tag(old(self)@.notes[old(self)@.selected->0 as int].key)
                    + " by "@ + by@,
                ..old(self)@
            }),
            final(self).wf(),
    {
        let i = self.selected.unwrap();
        self.notes[i].x = x;
        self.notes[i].y = y;
        let key = self.notes[i].key;
        self.dirty = true;
        let mut s = text_of("moved ");
        push_tag(&mut s, key);
        push_str(&mut s, " by ");
        push_str(&mut s, by);
        self.status = s;
        let ghost expected = EditorView {
            notes: old(self)@.notes.update(
                i as int,
                NoteView { x, y, ..old(self)@.notes[i as int] },
            ),
            dirty: true,
            status: "moved "@ + tag(key) + " by "@ + by@,
            ..old(self)@
        };
        assert(note_views(self.notes@) =~= expected.notes);
        assert(self@ =~= expected);
    }

    /// The Markdown text the note at `index` is edited as outside.
    pub fn note_markdown(&self, index: usize) -> (r: String)
        requires
            index < self.notes@.len(),
        ensures
            r@ == crate::markdown::markdown_of(
                self@.notes[index as int].title,
                self@.notes[index as int].body,
            ),
    {
        crate::markdown::note_markdown(
            self.notes[index].title.as_str(),
            self.notes[index].body.as_str(),
        )
    }

    /// Takes back the note at `index` from its Markdown text: the title when
    /// the text gives a non-empty one, and the body.
    pub fn sync_note_from_markdown(&mut self, index: usize, content: &str)
        requires
            old(self).wf(),
            index < old(self).notes@.len(),
            !(old(self)@.mode is Edit),
        ensures
            final(self)@ == (EditorView {
                notes: old(self)@.notes.update(
                    index as int,
                    NoteView {
                        title: if crate::markdown::markdown_parts(content@).0.len() == 0 {
                            old(self)@.notes[index as int].title
                        } else {
                            crate::markdown::markdown_parts(content@).0
                        },
                        body: crate::markdown::markdown_parts(content@).1,
                        ..old(self)@.notes[index as int]
                    },
                ),
                dirty: true,
                ..old(self)@
            }),
            final(self).wf(),
    {
        let (title, body) = crate::markdown::parse_note_markdown(content);
        let ghost tv = title@;
        let ghost bv = body@;
        if !title.as_str().is_empty() {
            self.notes[index].title = title;
        }
        self.notes[index].body = body;
        self.dirty = true;
        let ghost expected = EditorView {
            notes: old(self)@.notes.update(
                index as int,
                NoteView {
                    title: if tv.len() == 0 {
                        old(self)@.notes[index as int].title
                    } else {
                        tv
                    },
                    body: bv,
                    ..old(self)@.notes[index as int]
                },
            ),
            dirty: true,
            ..old(self)@
        };
        assert(note_views(self.notes@) =~= expected.notes);
        assert(self@ =~= expected);
    }

    /// The palette index the note at `index` is drawn with: white for every
    /// note in monochrome mode.
    pub fn note_palette(&self, index: usize) -> (c: u8)
        requires
            index < self.notes@.len(),
        ensures
            c == if self.monocolor {
                231
            } else {
                crate::model::palette_of(self@.notes[index as int].color)
            },
    {
        if self.monocolor {
            231
        } else {
            self.notes[index].color.palette_index()
        }
    }

    /// The status line, given the text that describes the zoom and camera.
    pub fn status_text(&self, view: &str) -> (r: String)
        ensures
            r@ == status_line(self@, view@),
    {
        if self.mode == Mode::Command {
            let mut s = text_of(":");
            push_str(&mut s, self.command_buffer.as_str());
            push_str(&mut s, "_");
            return s;
        }
        let mut s = match self.mode {
            Mode::Normal => text_of(self.status.as_str()),
            Mode::AwaitSelect => text_of("awaiting node key"),
            Mode::AwaitRelationPrefix(_) => text_of("relation: press f then target key"),
            Mode::AwaitRelationTarget(kind) => text_of(kind.label()),
            Mode::AwaitUnlinkPrefix => text_of("unlink: press f then target key"),
            Mode::AwaitUnlinkTarget => text_of("unlink: target key"),
            Mode::Edit(st) => match st.field {
                EditField::Title => text_of("edit title  tab body  esc done"),
                EditField::Body => text_of("edit body  tab title  esc done"),
            },
            Mode::Command => String::new(),
        };
        push_str(&mut s, "  ");
        push_str(&mut s, view);
        push_str(&mut s, "  ");
        match self.selected {
            Some(i) => {
                if i < self.notes.len() {
                    push_str(&mut s, "sel ");
                    push_tag(&mut s, self.notes[i].key);
                    push_str(&mut s, " ");
                    push_str(&mut s, self.notes[i].title.as_str());
                } else {
                    push_str(&mut s, "pan");
                }
            },
            None => {
                push_str(&mut s, "pan");
            },
        }
        if self.dirty {
            push_str(&mut s, "  *dirty");
        }
        assert(s@ =~= status_line(self@, view@));
        s
    }

    /// The Mermaid definition of the document.
    pub fn to_mermaid_definition(&self) -> (r: String)
        ensures
            r@ == crate::mermaid::definition_of(self@.notes, self@.relations),
    {
        crate::mermaid::to_mermaid_definition(&self.notes, &self.relations)
    }
}

} // verus!
