//! The document: notes, their colours, and the relations between them.
use vstd::prelude::*;

verus! {

/// The colour a note is drawn in.
#[derive(Clone, Copy, PartialEq, Eq, Debug, Structural)]
pub enum NoteColor {
    Cyan,
    Yellow,
    Green,
    Magenta,
    Blue,
    Red,
    White,
}

/// The colour that `NoteColor::cycle` gives to slot `slot` of the 7-colour cycle.
pub open spec fn color_in_cycle(slot: int) -> NoteColor {
    if slot == 0 {
        NoteColor::Cyan
    } else if slot == 1 {
        NoteColor::Yellow
    } else if slot == 2 {
        NoteColor::Green
    } else if slot == 3 {
        NoteColor::Magenta
    } else if slot == 4 {
        NoteColor::Blue
    } else if slot == 5 {
        NoteColor::Red
    } else {
        NoteColor::White
    }
}

/// The 256-colour terminal palette entry of each note colour.
pub open spec fn palette_of(color: NoteColor) -> u8 {
    match color {
        NoteColor::Cyan => 116,
        NoteColor::Yellow => 221,
        NoteColor::Green => 114,
        NoteColor::Magenta => 176,
        NoteColor::Blue => 75,
        NoteColor::Red => 210,
        NoteColor::White => 231,
    }
}

impl NoteColor {
    /// The colour for the `index`-th note: the seven colours in turn.
    pub fn cycle(index: usize) -> (c: NoteColor)
        ensures
            c == color_in_cycle(index as int % 7),
    {
        let slot = index % 7;
        if slot == 0 {
            NoteColor::Cyan
        } else if slot == 1 {
            NoteColor::Yellow
        } else if slot == 2 {
            NoteColor::Green
        } else if slot == 3 {
            NoteColor::Magenta
        } else if slot == 4 {
            NoteColor::Blue
        } else if slot == 5 {
            NoteColor::Red
        } else {
            NoteColor::White
        }
    }

    /// The terminal palette index (`Color::Indexed`) this colour is drawn with.
    pub fn palette_index(self) -> (i: u8)
        ensures
            i == palette_of(self),
    {
        match self {
            NoteColor::Cyan => 116,
            NoteColor::Yellow => 221,
            NoteColor::Green => 114,
            NoteColor::Magenta => 176,
            NoteColor::Blue => 75,
            NoteColor::Red => 210,
            NoteColor::White => 231,
        }
    }
}

/// How a relation connects two notes.
#[derive(Clone, Copy, PartialEq, Eq, Debug, Structural)]
pub enum RelationType {
    Directional,
    Bidirectional,
    Compositional,
    Cluster,
}

/// The name of a relation type, as the status line shows it.
pub open spec fn label_of(kind: RelationType) -> Seq<char> {
    match kind {
        RelationType::Directional => "directional"@,
        RelationType::Bidirectional => "bidirectional"@,
        RelationType::Compositional => "compositional"@,
        RelationType::Cluster => "cluster"@,
    }
}

/// The Mermaid edge operator a relation type is written with.
pub open spec fn operator_of(kind: RelationType) -> Seq<char> {
    match kind {
        RelationType::Directional => "-->"@,
        RelationType::Bidirectional => "<-->"@,
        RelationType::Compositional => "--o"@,
        RelationType::Cluster => "-->"@,
    }
}

/// The relation type a count prefix selects for `m` (1 to 4).
pub open spec fn kind_of_digit(digit: u16) -> Option<RelationType> {
    if digit == 1 {
        Some(RelationType::Directional)
    } else if digit == 2 {
        Some(RelationType::Bidirectional)
    } else if digit == 3 {
        Some(RelationType::Compositional)
    } else if digit == 4 {
        Some(RelationType::Cluster)
    } else {
        None
    }
}

/// The arrow head pointing along `(dx, dy)`: horizontal when `|dx| >= |dy|`.
pub open spec fn arrow_of(dx: int, dy: int) -> char {
    let ax = if dx < 0 { -dx } else { dx };
    let ay = if dy < 0 { -dy } else { dy };
    if ax >= ay {
        if dx >= 0 { '▶' } else { '◀' }
    } else {
        if dy >= 0 { '▼' } else { '▲' }
    }
}

/// Whether the glyph at one end of a relation line is an arrow head, which
/// depends on the direction of the line.
pub open spec fn uses_arrow(kind: RelationType, from_start: bool) -> bool {
    match kind {
        RelationType::Directional => !from_start,
        RelationType::Bidirectional => true,
        RelationType::Compositional => !from_start,
        RelationType::Cluster => false,
    }
}

/// The glyph drawn at one end of a relation line.
pub open spec fn tip_of(kind: RelationType, from_start: bool, dx: int, dy: int) -> char {
    match kind {
        RelationType::Directional => if from_start { ' ' } else { arrow_of(dx, dy) },
        RelationType::Bidirectional => arrow_of(dx, dy),
        RelationType::Compositional => if from_start { '◆' } else { arrow_of(dx, dy) },
        RelationType::Cluster => '◌',
    }
}

/// The arrow head for a line whose last step is `(dx, dy)`.
pub fn arrow_glyph(dx: i32, dy: i32) -> (c: char)
    requires
        dx != i32::MIN,
        dy != i32::MIN,
    ensures
        c == arrow_of(dx as int, dy as int),
{
    let ax = if dx < 0 { -dx } else { dx };
    let ay = if dy < 0 { -dy } else { dy };
    if ax >= ay {
        if dx >= 0 { '▶' } else { '◀' }
    } else {
        if dy >= 0 { '▼' } else { '▲' }
    }
}

impl RelationType {
    /// The relation type for a count prefix, if the count names one.
    pub fn from_digit(digit: u16) -> (k: Option<RelationType>)
        ensures
            k == kind_of_digit(digit),
    {
        match digit {
            1 => Some(RelationType::Directional),
            2 => Some(RelationType::Bidirectional),
            3 => Some(RelationType::Compositional),
            4 => Some(RelationType::Cluster),
            _ => None,
        }
    }

    /// The character a relation line of this type is drawn with.
    pub fn stroke(self) -> (c: char)
        ensures
            c == match self {
                RelationType::Directional => '─',
                RelationType::Bidirectional => '═',
                RelationType::Compositional => '━',
                RelationType::Cluster => '┈',
            },
    {
        match self {
            RelationType::Directional => '─',
            RelationType::Bidirectional => '═',
            RelationType::Compositional => '━',
            RelationType::Cluster => '┈',
        }
    }

    /// The glyph at the start (`from_start`) or end of a line whose first or
    /// last step is `(dx, dy)`.
    pub fn tip(self, from_start: bool, dx: i32, dy: i32) -> (c: char)
        requires
            uses_arrow(self, from_start) ==> dx != i32::MIN && dy != i32::MIN,
        ensures
            c == tip_of(self, from_start, dx as int, dy as int),
    {
        match self {
            RelationType::Directional => {
                if from_start {
                    ' '
                } else {
                    arrow_glyph(dx, dy)
                }
            },
            RelationType::Bidirectional => arrow_glyph(dx, dy),
            RelationType::Compositional => {
                if from_start {
                    '◆'
                } else {
                    arrow_glyph(dx, dy)
                }
            },
            RelationType::Cluster => '◌',
        }
    }

    /// Whether the glyph at the start (`from_start`) or end of a line of this
    /// type is an arrow head, turned by the line's direction.
    pub fn tip_is_arrow(self, from_start: bool) -> (b: bool)
        ensures
            b == uses_arrow(self, from_start),
    {
        match self {
            RelationType::Directional => !from_start,
            RelationType::Bidirectional => true,
            RelationType::Compositional => !from_start,
            RelationType::Cluster => false,
        }
    }

    /// The name of this relation type.
    pub fn label(self) -> (s: &'static str)
        ensures
            s@ == label_of(self),
    {
        match self {
            RelationType::Directional => "directional",
            RelationType::Bidirectional => "bidirectional",
            RelationType::Compositional => "compositional",
            RelationType::Cluster => "cluster",
        }
    }

    /// The Mermaid operator this relation type is exported with.
    pub fn mermaid_operator(self) -> (s: &'static str)
        ensures
            s@ == operator_of(self),
    {
        match self {
            RelationType::Directional => "-->",
            RelationType::Bidirectional => "<-->",
            RelationType::Compositional => "--o",
            RelationType::Cluster => "-->",
        }
    }
}

/// A relation from the note keyed `from` to the note keyed `to`.
#[derive(Clone, Copy, PartialEq, Eq, Debug, Structural)]
pub struct Relation {
    pub from: char,
    pub to: char,
    pub kind: RelationType,
}

/// A note on the canvas. The canvas works in `f32` units that this library
/// never computes with: `x`, `y`, `w` and `h` hold the IEEE-754 bit patterns
/// of the note's position and size, carried through unchanged.
#[derive(Debug)]
pub struct Note {
    pub key: char,
    pub title: String,
    pub body: String,
    pub x: u32,
    pub y: u32,
    pub w: u32,
    pub h: u32,
    pub color: NoteColor,
    pub file_path: Option<String>,
}

/// A note as a mathematical value.
pub struct NoteView {
    pub key: char,
    pub title: Seq<char>,
    pub body: Seq<char>,
    pub x: u32,
    pub y: u32,
    pub w: u32,
    pub h: u32,
    pub color: NoteColor,
    pub file_path: Option<Seq<char>>,
}

impl View for Note {
    type V = NoteView;

    open spec fn view(&self) -> NoteView {
        NoteView {
            key: self.key,
            title: self.title@,
            body: self.body@,
            x: self.x,
            y: self.y,
            w: self.w,
            h: self.h,
            color: self.color,
            file_path: match self.file_path {
                Some(p) => Some(p@),
                None => None,
            },
        }
    }
}

/// The views of a sequence of notes.
pub open spec fn note_views(notes: Seq<Note>) -> Seq<NoteView> {
    notes.map_values(|n: Note| n@)
}

} // verus!
