use oxmap::cursor::{byte_len_within, char_index_at, char_width, insert_char_at, remove_char_at, text_len};
use oxmap::edges::{relation_route_id, relation_to_oxdraw_edge, ArrowDirection, EdgeStyle};
use oxmap::editor::{new_note, slugify_key};
use oxmap::geometry::{
    clip_note_box, cluster_cell, cluster_look, content_area, edit_overlay_rect, inset, route_tips,
    segment_glyph, tip_visible, Emphasis, LineWalk, Rect,
};
use oxmap::model::{arrow_glyph, NoteColor, Relation, RelationType};

fn rect(x: u16, y: u16, width: u16, height: u16) -> Rect {
    Rect { x, y, width, height }
}

#[test]
fn colours_cycle_through_seven() {
    let expected = [
        NoteColor::Cyan,
        NoteColor::Yellow,
        NoteColor::Green,
        NoteColor::Magenta,
        NoteColor::Blue,
        NoteColor::Red,
        NoteColor::White,
    ];
    for i in 0..21usize {
        assert_eq!(NoteColor::cycle(i), expected[i % 7]);
    }
    assert_eq!(NoteColor::cycle(usize::MAX), expected[usize::MAX % 7]);
    assert_eq!(NoteColor::Cyan.palette_index(), 116);
    assert_eq!(NoteColor::Red.palette_index(), 210);
    assert_eq!(NoteColor::White.palette_index(), 231);
}

#[test]
fn relation_types_from_digits_and_their_glyphs() {
    assert_eq!(RelationType::from_digit(1), Some(RelationType::Directional));
    assert_eq!(RelationType::from_digit(2), Some(RelationType::Bidirectional));
    assert_eq!(RelationType::from_digit(3), Some(RelationType::Compositional));
    assert_eq!(RelationType::from_digit(4), Some(RelationType::Cluster));
    assert_eq!(RelationType::from_digit(0), None);
    assert_eq!(RelationType::from_digit(5), None);
    assert_eq!(RelationType::Directional.stroke(), '─');
    assert_eq!(RelationType::Bidirectional.stroke(), '═');
    assert_eq!(RelationType::Compositional.stroke(), '━');
    assert_eq!(RelationType::Cluster.stroke(), '┈');
    assert_eq!(RelationType::Compositional.label(), "compositional");
    assert_eq!(RelationType::Cluster.mermaid_operator(), "-->");
    assert_eq!(RelationType::Bidirectional.mermaid_operator(), "<-->");
}

#[test]
fn tips_point_along_the_line() {
    assert_eq!(arrow_glyph(3, 3), '▶');
    assert_eq!(arrow_glyph(-3, 2), '◀');
    assert_eq!(arrow_glyph(1, 5), '▼');
    assert_eq!(arrow_glyph(0, -1), '▲');
    assert_eq!(RelationType::Directional.tip(true, 1, 0), ' ');
    assert_eq!(RelationType::Directional.tip(false, 1, 0), '▶');
    assert_eq!(RelationType::Compositional.tip(true, 1, 0), '◆');
    assert_eq!(RelationType::Bidirectional.tip(true, -1, 0), '◀');
    assert_eq!(RelationType::Cluster.tip(false, 0, 1), '◌');
    assert_eq!(RelationType::Cluster.tip(false, i32::MIN, 0), '◌');
    assert_eq!(RelationType::Directional.tip(true, i32::MIN, 0), ' ');
    assert!(RelationType::Bidirectional.tip_is_arrow(true));
    assert!(!RelationType::Compositional.tip_is_arrow(true));
    assert!(RelationType::Compositional.tip_is_arrow(false));
    assert!(!RelationType::Cluster.tip_is_arrow(false));
    let points = vec![(0, 0), (0, 1), (4, 1), (5, 1)];
    assert_eq!(route_tips(RelationType::Bidirectional, &points), ('▼', '▶'));
    assert_eq!(route_tips(RelationType::Directional, &points), (' ', '▶'));
}

#[test]
fn edges_for_oxdraw() {
    let r = Relation { from: 'a', to: 'b', kind: RelationType::Cluster };
    let e = relation_to_oxdraw_edge(&r);
    assert_eq!(e.from, "a");
    assert_eq!(e.to, "b");
    assert_eq!(e.kind, EdgeStyle::Dashed);
    assert_eq!(e.arrow, ArrowDirection::Unmarked);
    assert_eq!(relation_route_id(&r), "a -.-> b");
    let r = Relation { from: 'a', to: 'b', kind: RelationType::Directional };
    assert_eq!(relation_route_id(&r), "a --> b");
    let r = Relation { from: 'x', to: 'y', kind: RelationType::Compositional };
    assert_eq!(relation_route_id(&r), "x ==> y");
    let r = Relation { from: 'x', to: 'y', kind: RelationType::Bidirectional };
    assert_eq!(relation_route_id(&r), "x --> y");
}

#[test]
fn new_notes_get_defaults() {
    let n = new_note('k', 7, 9, 8);
    assert_eq!(n.key, 'k');
    assert_eq!(n.title, "");
    assert_eq!(n.body, "");
    assert_eq!(n.x, 7);
    assert_eq!(n.y, 9);
    assert_eq!(f32::from_bits(n.w), 20.0);
    assert_eq!(f32::from_bits(n.h), 8.0);
    assert_eq!(n.color, NoteColor::Yellow);
    assert_eq!(n.file_path.as_deref(), Some("nodes/k.md"));
    assert_eq!(slugify_key('é'), "é");
}

#[test]
fn inset_and_content_area() {
    assert_eq!(inset(rect(2, 3, 10, 8), 1), rect(3, 4, 8, 6));
    assert_eq!(inset(rect(2, 3, 2, 8), 1), rect(2, 3, 0, 0));
    assert_eq!(inset(rect(0, 0, 100, 100), 40000), rect(0, 0, 0, 0));
    assert_eq!(content_area(rect(0, 0, 80, 24)), rect(0, 0, 80, 23));
    assert_eq!(content_area(rect(5, 5, 80, 1)), rect(5, 5, 80, 1));
}

#[test]
fn note_boxes_are_clipped_to_the_area() {
    let area = rect(10, 20, 40, 10);
    assert_eq!(clip_note_box(2, 3, 6, 4, area), Some(rect(12, 23, 6, 4)));
    assert_eq!(clip_note_box(-3, -2, 6, 4, area), Some(rect(10, 20, 3, 2)));
    assert_eq!(clip_note_box(38, 8, 6, 4, area), Some(rect(48, 28, 2, 2)));
    assert_eq!(clip_note_box(39, 0, 6, 4, area), None);
    assert_eq!(clip_note_box(-50, 0, 6, 4, area), None);
}

#[test]
fn overlay_is_centred_and_bounded() {
    assert_eq!(edit_overlay_rect(rect(0, 0, 100, 40)), rect(15, 14, 70, 12));
    assert_eq!(edit_overlay_rect(rect(0, 0, 20, 10)), rect(2, 2, 16, 6));
    assert_eq!(edit_overlay_rect(rect(1, 1, 3, 3)), rect(2, 2, 0, 0));
}

#[test]
fn clusters_and_segments() {
    let area = rect(0, 0, 10, 5);
    assert_eq!(cluster_cell(3, 2, area), Some(23));
    assert_eq!(cluster_cell(10, 2, area), None);
    assert_eq!(cluster_cell(-1, 2, area), None);
    assert_eq!(cluster_look(1, false), ('▪', Emphasis::Plain));
    assert_eq!(cluster_look(2, false), ('◾', Emphasis::Plain));
    assert_eq!(cluster_look(3, false), ('◾', Emphasis::Bold));
    assert_eq!(cluster_look(9, true), ('◼', Emphasis::Selected));
    assert_eq!(segment_glyph(4, 4, '─'), '|');
    assert_eq!(segment_glyph(4, 5, '─'), '─');
    assert!(tip_visible('▶', 0, 0, area));
    assert!(!tip_visible(' ', 0, 0, area));
    assert!(!tip_visible('▶', 10, 0, area));
}

fn walk(x0: i32, y0: i32, x1: i32, y1: i32) -> Vec<(i32, i32)> {
    let mut w = LineWalk::new(x0, y0, x1, y1);
    let mut cells = vec![w.current()];
    while !w.at_end() {
        assert!(w.next_fits());
        w.advance();
        cells.push(w.current());
    }
    cells
}

#[test]
fn line_walks_visit_each_cell_once() {
    assert_eq!(walk(0, 0, 3, 0), vec![(0, 0), (1, 0), (2, 0), (3, 0)]);
    assert_eq!(walk(0, 0, 0, -2), vec![(0, 0), (0, -1), (0, -2)]);
    assert_eq!(walk(0, 0, 4, 2), vec![(0, 0), (1, 1), (2, 1), (3, 2), (4, 2)]);
    assert_eq!(walk(2, 2, 2, 2), vec![(2, 2)]);
    assert_eq!(walk(3, 3, 0, 0), vec![(3, 3), (2, 2), (1, 1), (0, 0)]);
    assert_eq!(walk(0, 0, 1, 2), vec![(0, 0), (1, 1), (1, 2)]);
    assert_eq!(walk(0, 0, -2, 5), vec![(0, 0), (0, 1), (-1, 2), (-1, 3), (-2, 4), (-2, 5)]);
}

#[test]
fn line_walks_report_when_a_step_would_overflow() {
    let w = LineWalk::new(0, 0, i32::MAX, 0);
    assert!(!w.next_fits());
    let w = LineWalk::new(0, 0, 0x2aaa_aaaa, 1);
    assert!(w.next_fits());
}

#[test]
fn text_cursor_helpers_work_on_bytes() {
    assert_eq!(char_width('a'), 1);
    assert_eq!(char_width('é'), 2);
    assert_eq!(char_width('─'), 3);
    assert_eq!(char_width('🦀'), 4);
    let s = "aé🦀".to_string();
    assert_eq!(text_len(&s), 7);
    let cs: Vec<char> = s.chars().collect();
    assert_eq!(char_index_at(&cs, 3), Some(2));
    assert_eq!(char_index_at(&cs, 2), None);
    assert_eq!(char_index_at(&cs, 7), Some(3));
    assert_eq!(insert_char_at(&s, 1, 'x'), "axé🦀");
    assert_eq!(remove_char_at(&s, 3), "aé");
    assert!(byte_len_within(&cs, 7));
    assert!(!byte_len_within(&cs, 6));
}
