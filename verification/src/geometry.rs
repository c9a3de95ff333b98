//! Integer screen geometry: rectangles, the clipping of note boxes, the
//! inline editor's overlay, glyphs for note clusters and line ends, and the
//! cells a straight line passes through.
use vstd::prelude::*;
use crate::model::{RelationType, tip_of, uses_arrow};

verus! {

/// A rectangle of terminal cells.
#[derive(Clone, Copy, PartialEq, Eq, Debug, Structural)]
pub struct Rect {
    pub x: u16,
    pub y: u16,
    pub width: u16,
    pub height: u16,
}

/// A rectangle that lies on the `u16` grid, as every terminal area does.
pub open spec fn rect_fits(r: Rect) -> bool {
    r.x + r.width <= u16::MAX && r.y + r.height <= u16::MAX
}

/// `area` shrunk by `margin` on every side; an empty rectangle at its corner
/// when it is not larger than twice the margin.
pub open spec fn inset_of(area: Rect, margin: u16) -> Rect {
    let twice = if 2 * margin > u16::MAX { u16::MAX as int } else { 2 * margin };
    if area.width <= twice || area.height <= twice {
        Rect { x: area.x, y: area.y, width: 0, height: 0 }
    } else {
        Rect {
            x: (area.x + margin) as u16,
            y: (area.y + margin) as u16,
            width: (area.width - twice) as u16,
            height: (area.height - twice) as u16,
        }
    }
}

/// Shrinks a rectangle by `margin` on every side.
pub fn inset(area: Rect, margin: u16) -> (r: Rect)
    requires
        rect_fits(area),
    ensures
        r == inset_of(area, margin),
        rect_fits(r),
{
    let twice: u16 = if margin > 32767 { u16::MAX } else { margin * 2 };
    if area.width <= twice || area.height <= twice {
        return Rect { x: area.x, y: area.y, width: 0, height: 0 };
    }
    Rect {
        x: area.x + margin,
        y: area.y + margin,
        width: area.width - twice,
        height: area.height - twice,
    }
}

/// The drawing area above the status line: all but the last row, unless the
/// area has a single row.
pub fn content_area(area: Rect) -> (r: Rect)
    ensures
        r == (if area.height <= 1 {
            area
        } else {
            Rect { height: (area.height - 1) as u16, ..area }
        }),
{
    if area.height <= 1 {
        area
    } else {
        Rect { x: area.x, y: area.y, width: area.width, height: area.height - 1 }
    }
}

/// The part of a note box at `(x, y)` of size `(w, h)` (relative to
/// `area`) that lies inside `area`, unless it is less than 2 cells wide or
/// high.
pub open spec fn clipped_box(x: int, y: int, w: int, h: int, area: Rect) -> Option<Rect> {
    let left = if x > 0 { x } else { 0 };
    let top = if y > 0 { y } else { 0 };
    let right = if x + w < area.width { x + w } else { area.width as int };
    let bottom = if y + h < area.height { y + h } else { area.height as int };
    if right - left < 2 || bottom - top < 2 {
        None
    } else {
        Some(
            Rect {
                x: (area.x + left) as u16,
                y: (area.y + top) as u16,
                width: (right - left) as u16,
                height: (bottom - top) as u16,
            },
        )
    }
}

/// Clips a projected note box to the drawing area.
pub fn clip_note_box(x: i32, y: i32, w: i32, h: i32, area: Rect) -> (r: Option<Rect>)
    requires
        rect_fits(area),
        i32::MIN <= x + w <= i32::MAX,
        i32::MIN <= y + h <= i32::MAX,
    ensures
        r == clipped_box(x as int, y as int, w as int, h as int, area),
        r matches Some(b) ==> rect_fits(b),
{
    let left = if x > 0 { x } else { 0 };
    let top = if y > 0 { y } else { 0 };
    let aw = area.width as i32;
    let ah = area.height as i32;
    let right = if x + w < aw { x + w } else { aw };
    let bottom = if y + h < ah { y + h } else { ah };
    if right < left || bottom < top || right - left < 2 || bottom - top < 2 {
        return None;
    }
    Some(
        Rect {
            x: area.x + left as u16,
            y: area.y + top as u16,
            width: (right - left) as u16,
            height: (bottom - top) as u16,
        },
    )
}

/// The overlay of the inline editor: at most 70 by 12 cells, 4 smaller than
/// the area in each direction, centred.
pub open spec fn overlay_of(area: Rect) -> Rect {
    let w = if area.width >= 4 { area.width - 4 } else { 0 };
    let h = if area.height >= 4 { area.height - 4 } else { 0 };
    let width = if w < 70 { w } else { 70 };
    let height = if h < 12 { h } else { 12 };
    Rect {
        x: (area.x + (area.width - width) / 2) as u16,
        y: (area.y + (area.height - height) / 2) as u16,
        width: width as u16,
        height: height as u16,
    }
}

/// Where the inline editor is drawn.
pub fn edit_overlay_rect(area: Rect) -> (r: Rect)
    requires
        rect_fits(area),
    ensures
        r == overlay_of(area),
        rect_fits(r),
{
    let w = area.width.saturating_sub(4);
    let h = area.height.saturating_sub(4);
    let width = if w < 70 { w } else { 70 };
    let height = if h < 12 { h } else { 12 };
    Rect {
        x: area.x + (area.width - width) / 2,
        y: area.y + (area.height - height) / 2,
        width,
        height,
    }
}

/// The cell index (row-major in `area`) of a note drawn as a dot at
/// `(cx, cy)`, if that cell is inside the area.
pub fn cluster_cell(cx: i32, cy: i32, area: Rect) -> (r: Option<usize>)
    ensures
        r == (if 0 <= cx < area.width && 0 <= cy < area.height {
            Some((cy * area.width + cx) as usize)
        } else {
            None
        }),
{
    if cx < 0 || cy < 0 || cx >= area.width as i32 || cy >= area.height as i32 {
        return None;
    }
    let row = cy as usize;
    let col = cx as usize;
    let w = area.width as usize;
    assert(row * w + col < 0x1_0000_0000) by (nonlinear_arith)
        requires
            row < 65535,
            col < w,
            w <= 65535,
    ;
    assert(row * w + col <= usize::MAX) by {
        assert(usize::MAX >= 0xffff_ffff);
    }
    Some(row * w + col)
}

/// How a cell of clustered notes is emphasised.
#[derive(Clone, Copy, PartialEq, Eq, Debug, Structural)]
pub enum Emphasis {
    /// The cell holds the selected note: highlighted and bold.
    Selected,
    Bold,
    Plain,
}

/// The glyph of a cell that holds `count` notes too small to draw as boxes:
/// one, two or three, or more.
pub open spec fn cluster_glyph_of(count: u16) -> char {
    if count == 1 {
        '▪'
    } else if 2 <= count <= 3 {
        '◾'
    } else {
        '◼'
    }
}

/// The glyph and emphasis of a cell holding `count` (at least one) notes.
pub fn cluster_look(count: u16, selected: bool) -> (r: (char, Emphasis))
    ensures
        r.0 == cluster_glyph_of(count),
        r.1 == (if selected {
            Emphasis::Selected
        } else if count >= 3 {
            Emphasis::Bold
        } else {
            Emphasis::Plain
        }),
{
    let glyph = if count == 1 {
        '▪'
    } else if 2 <= count && count <= 3 {
        '◾'
    } else {
        '◼'
    };
    let emphasis = if selected {
        Emphasis::Selected
    } else if count >= 3 {
        Emphasis::Bold
    } else {
        Emphasis::Plain
    };
    (glyph, emphasis)
}

/// The glyph a segment from `(x0, _)` to `(x1, _)` is drawn with: `|` when
/// it is vertical.
pub fn segment_glyph(x0: i32, x1: i32, glyph: char) -> (c: char)
    ensures
        c == (if x0 == x1 {
            '|'
        } else {
            glyph
        }),
{
    if x0 == x1 {
        '|'
    } else {
        glyph
    }
}

/// Whether the step from `a` to `b` can be computed in `i32`, and, where it
/// is turned into an arrow head, has no coordinate `i32::MIN`.
pub open spec fn steps_fit(a: (i32, i32), b: (i32, i32), arrow: bool) -> bool {
    &&& i32::MIN <= b.0 - a.0 <= i32::MAX
    &&& i32::MIN <= b.1 - a.1 <= i32::MAX
    &&& arrow ==> b.0 - a.0 != i32::MIN && b.1 - a.1 != i32::MIN
}

/// The glyphs at the start and the end of a route through `points` (at
/// least two): each points along the route's first or last step.
pub fn route_tips(kind: RelationType, points: &Vec<(i32, i32)>) -> (r: (char, char))
    requires
        points@.len() >= 2,
        ({
            let p = points@;
            let n = p.len() as int;
            &&& steps_fit(p[0], p[1], uses_arrow(kind, true))
            &&& steps_fit(p[n - 2], p[n - 1], uses_arrow(kind, false))
        }),
    ensures
        ({
            let p = points@;
            let n = p.len() as int;
            &&& r.0 == tip_of(kind, true, p[1].0 - p[0].0, p[1].1 - p[0].1)
            &&& r.1 == tip_of(kind, false, p[n - 1].0 - p[n - 2].0, p[n - 1].1 - p[n - 2].1)
        }),
{
    let n = points.len();
    let start = points[0];
    let start_next = points[1];
    let end = points[n - 1];
    let end_prev = points[n - 2];
    let first = kind.tip(true, start_next.0 - start.0, start_next.1 - start.1);
    let last = kind.tip(false, end.0 - end_prev.0, end.1 - end_prev.1);
    (first, last)
}

/// Whether a line-end glyph at `(x, y)` is drawn: not a blank, and inside
/// the area.
pub fn tip_visible(glyph: char, x: i32, y: i32, area: Rect) -> (b: bool)
    ensures
        b == (glyph != ' ' && 0 <= x < area.width && 0 <= y < area.height),
{
    !(glyph == ' ' || x < 0 || y < 0 || x >= area.width as i32 || y >= area.height as i32)
}


/// The cells from one point to another along a straight line, one step at a
/// time (Bresenham's algorithm, stepping each axis toward the end).
pub struct LineWalk {
    x: i32,
    y: i32,
    x0: i32,
    y0: i32,
    x1: i32,
    y1: i32,
    dx: i32,
    dy: i32,
    sx: i32,
    sy: i32,
    err: i32,
    steps: Ghost<nat>,
    steps_x: Ghost<int>,
    steps_y: Ghost<int>,
}

/// The larger of two integers.
pub open spec fn max_of(a: int, b: int) -> int {
    if a >= b { a } else { b }
}

/// The absolute value of an integer.
pub open spec fn abs_of(a: int) -> int {
    if a >= 0 { a } else { -a }
}

/// The parallelogram area spanned by the line from `s` to `t` and the point
/// `p`: zero exactly on the line.
pub open spec fn cross(s: (int, int), t: (int, int), p: (int, int)) -> int {
    (p.1 - s.1) * (t.0 - s.0) - (p.0 - s.0) * (t.1 - s.1)
}

/// The Manhattan distance between two cells.
pub open spec fn distance(p: (int, int), t: (int, int)) -> nat {
    (abs_of(t.0 - p.0) + abs_of(t.1 - p.1)) as nat
}

/// Whether `b` lies on the closed segment from `a` to `c` (one coordinate).
pub open spec fn between(a: int, b: int, c: int) -> bool {
    (a <= b <= c) || (c <= b <= a)
}

proof fn lemma_mul_le(a: int, b: int, c: int)
    by (nonlinear_arith)
    requires
        0 <= a,
        b <= c,
    ensures
        a * b <= a * c,
{
}

proof fn lemma_mul_step(a: int, b: int)
    by (nonlinear_arith)
    ensures
        a * (b + 1) == a * b + a,
{
}

proof fn lemma_neg_mul(a: int, b: int)
    by (nonlinear_arith)
    ensures
        (-a) * b == -(a * b),
        a * (-b) == -(a * b),
        (-a) * (-b) == a * b,
{
}

/// The horizontal distance of a walk from `s` to `t`.
pub open spec fn walk_dx(s: (int, int), t: (int, int)) -> int {
    abs_of(t.0 - s.0)
}

/// The vertical distance of a walk from `s` to `t`, negated, as the walk's
/// error term counts it.
pub open spec fn walk_dy(s: (int, int), t: (int, int)) -> int {
    -abs_of(t.1 - s.1)
}

/// The horizontal direction of a walk from `s` to `t`.
pub open spec fn walk_sx(s: (int, int), t: (int, int)) -> int {
    if s.0 < t.0 { 1 } else { -1 }
}

/// The vertical direction of a walk from `s` to `t`.
pub open spec fn walk_sy(s: (int, int), t: (int, int)) -> int {
    if s.1 < t.1 { 1 } else { -1 }
}

/// One step of Bresenham's walk from `s` to `t`, from the cell `(p.0, p.1)`
/// with error term `p.2`: with `e2` twice the error, step horizontally when
/// `e2 >= dy`, vertically when `e2 <= dx`, and correct the error each time.
pub open spec fn walk_step(s: (int, int), t: (int, int), p: (int, int, int)) -> (int, int, int) {
    let e2 = 2 * p.2;
    let x = if e2 >= walk_dy(s, t) { p.0 + walk_sx(s, t) } else { p.0 };
    let e = if e2 >= walk_dy(s, t) { p.2 + walk_dy(s, t) } else { p.2 };
    let y = if e2 <= walk_dx(s, t) { p.1 + walk_sy(s, t) } else { p.1 };
    let e3 = if e2 <= walk_dx(s, t) { e + walk_dx(s, t) } else { e };
    (x, y, e3)
}

/// The cell and the error term of Bresenham's walk from `s` to `t` after
/// `n` steps; the walk stays on `t` once it is there.
pub open spec fn walk_at(s: (int, int), t: (int, int), n: nat) -> (int, int, int)
    decreases n,
{
    if n == 0 {
        (s.0, s.1, walk_dx(s, t) + walk_dy(s, t))
    } else {
        let p = walk_at(s, t, (n - 1) as nat);
        if p.0 == t.0 && p.1 == t.1 {
            p
        } else {
            walk_step(s, t, p)
        }
    }
}

/// Whether the step from `p` can be computed in `i32`: twice the error, and
/// the error after each correction.
pub open spec fn step_fits(s: (int, int), t: (int, int), p: (int, int, int)) -> bool {
    let e2 = 2 * p.2;
    let e = if e2 >= walk_dy(s, t) { p.2 + walk_dy(s, t) } else { p.2 };
    &&& i32::MIN <= e2 <= i32::MAX
    &&& i32::MIN <= e <= i32::MAX
    &&& (e2 <= walk_dx(s, t) ==> i32::MIN <= e + walk_dx(s, t) <= i32::MAX)
}

/// A walk short enough that no step of it overflows `i32`: at most
/// `0x2aaa_aaaa` cells along each axis.
pub open spec fn short_walk(s: (int, int), t: (int, int)) -> bool {
    walk_dx(s, t) <= 0x2aaa_aaaa && -walk_dy(s, t) <= 0x2aaa_aaaa
}

impl LineWalk {
    /// The walk's internal consistency.
    pub closed spec fn inv(&self) -> bool {
        let nx = self.steps_x@;
        let ny = self.steps_y@;
        let ddx = self.dx as int;
        let ddy = -(self.dy as int);
        &&& 0 <= ddx <= 0x7fff_ffff
        &&& 0 <= ddy <= 0x7fff_ffff
        &&& ddx == walk_dx(self.start(), self.target())
        &&& -ddy == walk_dy(self.start(), self.target())
        &&& self.sx == walk_sx(self.start(), self.target())
        &&& self.sy == walk_sy(self.start(), self.target())
        &&& (self.x as int, self.y as int, self.err as int) == walk_at(
            self.start(),
            self.target(),
            self.steps@,
        )
        &&& (self.sx == 1 || self.sx == -1)
        &&& (self.sy == 1 || self.sy == -1)
        &&& self.x1 - self.x0 == self.sx * ddx
        &&& self.y1 - self.y0 == self.sy * ddy
        &&& 0 <= nx <= ddx
        &&& 0 <= ny <= ddy
        &&& self.x == self.x0 + self.sx * nx
        &&& self.y == self.y0 + self.sy * ny
        &&& self.err == ddx * (1 + ny) - ddy * (1 + nx)
        &&& -3 * ddy <= 2 * self.err <= 3 * ddx
    }

    /// The current cell.
    pub closed spec fn pos(&self) -> (int, int) {
        (self.x as int, self.y as int)
    }

    /// The first cell.
    pub closed spec fn start(&self) -> (int, int) {
        (self.x0 as int, self.y0 as int)
    }

    /// The last cell.
    pub closed spec fn target(&self) -> (int, int) {
        (self.x1 as int, self.y1 as int)
    }

    /// The number of steps taken.
    pub closed spec fn steps(&self) -> nat {
        self.steps@
    }

    /// The walk's cell and error term: Bresenham's after its steps.
    pub open spec fn state(&self) -> (int, int, int) {
        walk_at(self.start(), self.target(), self.steps())
    }

    /// A walk from `(x0, y0)` to `(x1, y1)`, standing on its first cell.
    pub fn new(x0: i32, y0: i32, x1: i32, y1: i32) -> (w: LineWalk)
        requires
            i32::MIN < x1 - x0 <= i32::MAX,
            i32::MIN < y1 - y0 <= i32::MAX,
        ensures
            w.inv(),
            w.pos() == (x0 as int, y0 as int),
            w.start() == (x0 as int, y0 as int),
            w.target() == (x1 as int, y1 as int),
            w.steps() == 0,
            w.pos() == (w.state().0, w.state().1),
            short_walk(w.start(), w.target()) ==> step_fits(w.start(), w.target(), w.state()),
    {
        let dx = if x1 >= x0 { x1 - x0 } else { x0 - x1 };
        let dy = if y1 >= y0 { y0 - y1 } else { y1 - y0 };
        let sx: i32 = if x0 < x1 { 1 } else { -1 };
        let sy: i32 = if y0 < y1 { 1 } else { -1 };
        let w = LineWalk {
            x: x0,
            y: y0,
            x0,
            y0,
            x1,
            y1,
            dx,
            dy,
            sx,
            sy,
            err: dx + dy,
            steps: Ghost(0),
            steps_x: Ghost(0),
            steps_y: Ghost(0),
        };
        proof {
            let ddx = dx as int;
            let ddy = -(dy as int);
            assert(x1 - x0 == sx * ddx) by (nonlinear_arith)
                requires
                    sx == 1 || sx == -1,
                    sx == 1 ==> x1 - x0 == ddx,
                    sx == -1 ==> x1 - x0 == -ddx,
            ;
            assert(y1 - y0 == sy * ddy) by (nonlinear_arith)
                requires
                    sy == 1 || sy == -1,
                    sy == 1 ==> y1 - y0 == ddy,
                    sy == -1 ==> y1 - y0 == -ddy,
            ;
            assert(x0 == x0 + sx * 0int && y0 == y0 + sy * 0int) by (nonlinear_arith);
            assert(ddx * (1 + 0int) - ddy * (1 + 0int) == ddx - ddy) by (nonlinear_arith);
        }
        assert(w.inv());
        w
    }

    /// The current cell.
    pub fn current(&self) -> (p: (i32, i32))
        ensures
            (p.0 as int, p.1 as int) == self.pos(),
    {
        (self.x, self.y)
    }

    /// Whether the walk stands on its last cell.
    pub fn at_end(&self) -> (b: bool)
        ensures
            b == (self.pos() == self.target()),
    {
        self.x == self.x1 && self.y == self.y1
    }

    /// Whether the next step can be computed in `i32` arithmetic.
    pub fn next_fits(&self) -> (b: bool)
        requires
            self.inv(),
        ensures
            b == step_fits(self.start(), self.target(), self.state()),
    {
        let err = self.err as i64;
        let e2 = 2 * err;
        let e = if e2 >= self.dy as i64 {
            err + self.dy as i64
        } else {
            err
        };
        let lo = i32::MIN as i64;
        let hi = i32::MAX as i64;
        lo <= e2 && e2 <= hi && lo <= e && e <= hi && (e2 > self.dx as i64 || (lo <= e
            + self.dx as i64 && e + self.dx as i64 <= hi))
    }

    /// Steps to the next cell of Bresenham's walk: one cell toward the end
    /// along one or both axes, never past it, staying near the straight line.
    pub fn advance(&mut self)
        requires
            old(self).inv(),
            old(self).pos() != old(self).target(),
            step_fits(old(self).start(), old(self).target(), old(self).state()),
        ensures
            final(self).inv(),
            final(self).start() == old(self).start(),
            final(self).target() == old(self).target(),
            final(self).steps() == old(self).steps() + 1,
            final(self).pos() == (final(self).state().0, final(self).state().1),
            final(self).state() == walk_step(
                old(self).start(),
                old(self).target(),
                old(self).state(),
            ),
            short_walk(final(self).start(), final(self).target()) ==> step_fits(
                final(self).start(),
                final(self).target(),
                final(self).state(),
            ),
            distance(final(self).pos(), final(self).target()) < distance(
                old(self).pos(),
                old(self).target(),
            ),
            abs_of(final(self).pos().0 - old(self).pos().0) <= 1,
            abs_of(final(self).pos().1 - old(self).pos().1) <= 1,
            between(old(self).pos().0, final(self).pos().0, final(self).target().0),
            between(old(self).pos().1, final(self).pos().1, final(self).target().1),
            2 * abs_of(cross(final(self).start(), final(self).target(), final(self).pos()))
                <= max_of(
                2 * abs_of(final(self).target().0 - final(self).start().0) + abs_of(
                    final(self).target().1 - final(self).start().1,
                ),
                2 * abs_of(final(self).target().1 - final(self).start().1) + abs_of(
                    final(self).target().0 - final(self).start().0,
                ),
            ),
    {
        let ghost n = self.steps@;
        let ghost nx = self.steps_x@;
        let ghost ny = self.steps_y@;
        let ghost ddx = self.dx as int;
        let ghost ddy = -(self.dy as int);
        let e2 = 2 * self.err;
        proof {
            if nx == ddx && e2 >= -ddy {
                assert(ny < ddy);
                lemma_mul_le(ddx, 1 + ny, ddy);
                lemma_mul_step(ddy, ddx);
                assert(ddx * (1 + ny) <= ddx * ddy);
                assert(ddy * (1 + ddx) == ddy * ddx + ddy);
                assert(ddx * ddy == ddy * ddx) by (nonlinear_arith);
                assert(false);
            }
            if ny == ddy && e2 <= ddx {
                assert(nx < ddx);
                lemma_mul_le(ddy, 1 + nx, ddx);
                lemma_mul_step(ddx, ddy);
                assert(ddx * ddy == ddy * ddx) by (nonlinear_arith);
                assert(false);
            }
        }
        if e2 >= self.dy {
            proof {
                lemma_mul_step(ddy, 1 + nx);
                lemma_mul_step(self.sx as int, nx);
            }
            self.err = self.err + self.dy;
            self.x = self.x + self.sx;
            self.steps_x = Ghost(nx + 1);
        }
        if e2 <= self.dx {
            proof {
                lemma_mul_step(ddx, 1 + ny);
                lemma_mul_step(self.sy as int, ny);
            }
            self.err = self.err + self.dx;
            self.y = self.y + self.sy;
            self.steps_y = Ghost(ny + 1);
        }
        self.steps = Ghost(n + 1);
        proof {
            let st = self.start();
            let tg = self.target();
            assert(walk_at(st, tg, (n + 1) as nat) == walk_step(st, tg, walk_at(st, tg, n)));
        }
        proof {
            let nx2 = self.steps_x@;
            let ny2 = self.steps_y@;
            let v = ny2 * ddx - nx2 * ddy;
            assert(self.err == ddx * (1 + ny2) - ddy * (1 + nx2));
            assert(v == self.err - ddx + ddy) by (nonlinear_arith)
                requires
                    self.err == ddx * (1 + ny2) - ddy * (1 + nx2),
                    v == ny2 * ddx - nx2 * ddy,
            ;
            let s = self.start();
            let t = self.target();
            let p = self.pos();
            assert(p.1 - s.1 == self.sy * ny2);
            assert(p.0 - s.0 == self.sx * nx2);
            assert(t.0 - s.0 == self.sx * ddx);
            assert(t.1 - s.1 == self.sy * ddy);
            lemma_neg_mul(ny2, ddx);
            lemma_neg_mul(nx2, ddy);
            if self.sx == 1 {
                if self.sy == 1 {
                    assert(cross(s, t, p) == v);
                } else {
                    assert(cross(s, t, p) == -v);
                }
            } else {
                if self.sy == 1 {
                    assert(cross(s, t, p) == -v);
                } else {
                    assert(cross(s, t, p) == v);
                }
            }
            assert(abs_of(t.0 - s.0) == ddx) by (nonlinear_arith)
                requires
                    self.sx == 1 || self.sx == -1,
                    t.0 - s.0 == self.sx * ddx,
                    ddx >= 0,
            ;
            assert(abs_of(t.1 - s.1) == ddy) by (nonlinear_arith)
                requires
                    self.sy == 1 || self.sy == -1,
                    t.1 - s.1 == self.sy * ddy,
                    ddy >= 0,
            ;
        }
    }
}

} // verus!
