use vstd::prelude::*;

verus! {

/// A rectangle of terminal cells: its top-left corner and its size.
pub struct Area {
    pub x: u16,
    pub y: u16,
    pub width: u16,
    pub height: u16,
}

/// `a + b`, stopping at the largest `u16`.
pub open spec fn sat_add16(a: int, b: int) -> int {
    if a + b <= u16::MAX { a + b } else { u16::MAX as int }
}

/// `a - b`, stopping at zero.
pub open spec fn sat_sub0(a: int, b: int) -> int {
    if a >= b { a - b } else { 0 }
}

impl Area {
    /// The cell `(x, y)` lies inside the area (whose far edges stop at the
    /// largest `u16`).
    pub open spec fn holds(&self, x: int, y: int) -> bool {
        &&& self.x <= x < sat_add16(self.x as int, self.width as int)
        &&& self.y <= y < sat_add16(self.y as int, self.height as int)
    }

    /// Whether the cell `(x, y)` lies inside the area: the test that decides
    /// whether a symbol is drawn.
    pub fn contains(&self, x: u16, y: u16) -> (r: bool)
        ensures
            r == self.holds(x as int, y as int),
    {
        !(x < self.x || x >= self.x.saturating_add(self.width) || y < self.y || y
            >= self.y.saturating_add(self.height))
    }
}

/// How many table rows fit in a panel of the given height: the height less
/// the border and header lines, but at least one.
pub fn visible_rows(height: u16) -> (r: usize)
    ensures
        r == if height > 5 { height - 4 } else { 1 },
{
    let rows = height.saturating_sub(4) as usize;
    if rows > 1 { rows } else { 1 }
}

/// How many of `count` characters written from column `x` onward are drawn:
/// writing stops at the last column a `u16` can name.
pub fn text_span(x: u16, count: usize) -> (r: usize)
    ensures
        r == if count <= 65536 - x { count as int } else { 65536 - x },
{
    let room = 65536usize - x as usize;
    if count <= room { count } else { room }
}

/// The symbol of a straight line from `from` to `to`: vertical, horizontal,
/// falling or rising.
pub open spec fn line_symbol_of(from: (u16, u16), to: (u16, u16)) -> char {
    if from.0 == to.0 {
        '│'
    } else if from.1 == to.1 {
        '─'
    } else if (from.0 < to.0) == (from.1 < to.1) {
        '╲'
    } else {
        '╱'
    }
}

/// The symbol a line from `from` to `to` is drawn with.
pub fn line_symbol(from: (u16, u16), to: (u16, u16)) -> (r: char)
    ensures
        r == line_symbol_of(from, to),
{
    if from.0 == to.0 {
        '│'
    } else if from.1 == to.1 {
        '─'
    } else if (from.0 < to.0) == (from.1 < to.1) {
        '╲'
    } else {
        '╱'
    }
}

/// The symbol of a line does not depend on the end it is drawn from.
pub proof fn law_line_symbol_symmetric(p: (u16, u16), q: (u16, u16))
    ensures
        line_symbol_of(p, q) == line_symbol_of(q, p),
{
}

/// A line is drawn with `│` exactly when its ends share a column, with `─`
/// exactly when they share a row but not a column; otherwise with `╲` when
/// x and y change in the same direction (the line falls from left to right
/// on screen) and with `╱` when they change in opposite directions.
pub proof fn law_line_symbol_slope(p: (u16, u16), q: (u16, u16))
    ensures
        line_symbol_of(p, q) == '│' <==> p.0 == q.0,
        line_symbol_of(p, q) == '─' <==> p.0 != q.0 && p.1 == q.1,
        p.0 != q.0 && p.1 != q.1 ==> (line_symbol_of(p, q) == '╲' <==> (q.0 - p.0) * (q.1 - p.1)
            > 0),
        p.0 != q.0 && p.1 != q.1 ==> (line_symbol_of(p, q) == '╱' <==> (q.0 - p.0) * (q.1 - p.1)
            < 0),
{
    if p.0 != q.0 && p.1 != q.1 {
        let dx = q.0 - p.0;
        let dy = q.1 - p.1;
        assert(dx * dy > 0 <==> (dx > 0) == (dy > 0)) by (nonlinear_arith)
            requires
                dx != 0,
                dy != 0,
        ;
        assert(dx * dy < 0 <==> (dx > 0) != (dy > 0)) by (nonlinear_arith)
            requires
                dx != 0,
                dy != 0,
        ;
    }
}

/// `v` moved one step from `a` toward `b`, or left where it is.
pub open spec fn toward(a: int, b: int, v: int, w: int) -> bool {
    w == v || (a < b && w == v + 1) || (a > b && w == v - 1)
}

/// The next cell of a line from `from` to `to` after `p`: each coordinate
/// stays or moves one step toward the end, and at least one moves.
pub open spec fn line_step(from: (u16, u16), to: (u16, u16), p: (u16, u16), q: (u16, u16)) -> bool {
    &&& toward(from.0 as int, to.0 as int, p.0 as int, q.0 as int)
    &&& toward(from.1 as int, to.1 as int, p.1 as int, q.1 as int)
    &&& p != q
}

/// The cells of a line: it starts at `from`, ends at `to`, and each cell
/// follows the one before by one step toward the end.
pub open spec fn is_line(from: (u16, u16), to: (u16, u16), cells: Seq<(u16, u16)>) -> bool {
    &&& cells.len() > 0
    &&& cells[0] == from
    &&& cells.last() == to
    &&& forall|i: int| 0 <= i < cells.len() - 1 ==> line_step(from, to, #[trigger] cells[i], cells[i + 1])
}

/// Where the line walk stands after `a` steps along x and `b` along y.
spec fn walk_at(start: int, end: int, steps: int, v: int) -> bool {
    if start < end { v == start + steps } else { v == start - steps }
}

proof fn lemma_no_x_overshoot(dx: int, dy: int, a: int, b: int)
    requires
        0 <= a <= dx,
        0 <= b <= dy,
        !(a == dx && b == dy),
        2 * (dx * (1 + b) - dy * (1 + a)) >= -dy,
    ensures
        a < dx,
{
    if a == dx {
        assert(b < dy);
        assert(2 * dx * (1 + b - dy) >= dy) by (nonlinear_arith)
            requires
                2 * (dx * (1 + b) - dy * (1 + dx)) >= -dy,
        ;
        assert(2 * dx * (1 + b - dy) <= 0) by (nonlinear_arith)
            requires
                dx >= 0,
                1 + b - dy <= 0,
        ;
    }
}

proof fn lemma_no_y_overshoot(dx: int, dy: int, a: int, b: int)
    requires
        0 <= a <= dx,
        0 <= b <= dy,
        !(a == dx && b == dy),
        2 * (dx * (1 + b) - dy * (1 + a)) <= dx,
    ensures
        b < dy,
{
    if b == dy {
        assert(a < dx);
        assert(dx + 2 * dy * (dx - 1 - a) <= 0) by (nonlinear_arith)
            requires
                2 * (dx * (1 + dy) - dy * (1 + a)) <= dx,
        ;
        assert(2 * dy * (dx - 1 - a) >= 0) by (nonlinear_arith)
            requires
                dy >= 0,
                dx - 1 - a >= 0,
        ;
    }
}

proof fn lemma_err_bounds(dx: int, dy: int, a: int, b: int)
    requires
        0 <= a <= dx <= 65535,
        0 <= b <= dy <= 65535,
    ensures
        -0x2_0000_0000 < dx * (1 + b) - dy * (1 + a) < 0x2_0000_0000,
{
    assert(0 <= dx * (1 + b) <= 65535 * 65536) by (nonlinear_arith)
        requires
            0 <= dx <= 65535,
            0 <= b <= 65535,
    ;
    assert(0 <= dy * (1 + a) <= 65535 * 65536) by (nonlinear_arith)
        requires
            0 <= dy <= 65535,
            0 <= a <= 65535,
    ;
}

/// The larger of `a` and `b`.
pub open spec fn max(a: int, b: int) -> int {
    if a >= b { a } else { b }
}

/// The cell `p` lies within half a cell of the straight line from `from` to
/// `to`, measured across the line's longer axis: with `a`, `b` its distances
/// from `from` along x and y, `b / dy` and `a / dx` differ by at most half a
/// step of the longer axis.
pub open spec fn near_line(from: (u16, u16), to: (u16, u16), p: (u16, u16)) -> bool {
    let dx = abs16(from.0 as int, to.0 as int);
    let dy = abs16(from.1 as int, to.1 as int);
    let a = abs16(from.0 as int, p.0 as int);
    let b = abs16(from.1 as int, p.1 as int);
    -max(dx, dy) <= 2 * (b * dx - a * dy) <= max(dx, dy)
}

/// The cell `a` steps along x and `b` steps along y from `from`, each step
/// toward `to`.
pub open spec fn cell_at(from: (u16, u16), to: (u16, u16), a: int, b: int) -> (u16, u16) {
    (
        (if from.0 < to.0 { from.0 + a } else { from.0 - a }) as u16,
        (if from.1 < to.1 { from.1 + b } else { from.1 - b }) as u16,
    )
}

/// The error term of Bresenham's walk from `from` to `to` at the cell `a`
/// steps along x and `b` along y from `from`: `dx (1 + b) - dy (1 + a)`, with
/// `dx`, `dy` the distances to cover along each axis.
pub open spec fn walk_err(from: (u16, u16), to: (u16, u16), a: int, b: int) -> int {
    abs16(from.0 as int, to.0 as int) * (1 + b) - abs16(from.1 as int, to.1 as int) * (1 + a)
}

/// The steps along x after the next step of the walk: one more when twice
/// the error term is at least `-dy`.
pub open spec fn walk_next_a(from: (u16, u16), to: (u16, u16), a: int, b: int) -> int {
    if 2 * walk_err(from, to, a, b) >= -abs16(from.1 as int, to.1 as int) { a + 1 } else { a }
}

/// The steps along y after the next step of the walk: one more when twice
/// the error term is at most `dx`.
pub open spec fn walk_next_b(from: (u16, u16), to: (u16, u16), a: int, b: int) -> int {
    if 2 * walk_err(from, to, a, b) <= abs16(from.0 as int, to.0 as int) { b + 1 } else { b }
}

/// The next `n` cells of Bresenham's walk from `from` to `to`, from the cell
/// `a` steps along x and `b` along y from `from`.
pub open spec fn walk_cells(from: (u16, u16), to: (u16, u16), a: int, b: int, n: nat) -> Seq<(u16, u16)>
    decreases n,
{
    if n == 0 {
        Seq::empty()
    } else {
        seq![cell_at(from, to, a, b)] + walk_cells(
            from,
            to,
            walk_next_a(from, to, a, b),
            walk_next_b(from, to, a, b),
            (n - 1) as nat,
        )
    }
}

proof fn lemma_walk_push(from: (u16, u16), to: (u16, u16), before: Seq<(u16, u16)>, a: int, b: int, k: nat)
    requires
        k >= 1,
    ensures
        before.push(cell_at(from, to, a, b)) + walk_cells(
            from,
            to,
            walk_next_a(from, to, a, b),
            walk_next_b(from, to, a, b),
            (k - 1) as nat,
        ) == before + walk_cells(from, to, a, b, k),
{
    let rest = walk_cells(from, to, walk_next_a(from, to, a, b), walk_next_b(from, to, a, b), (k - 1) as nat);
    assert(walk_cells(from, to, a, b, k) == seq![cell_at(from, to, a, b)] + rest);
    assert(before.push(cell_at(from, to, a, b)) + rest =~= before + (seq![cell_at(from, to, a, b)] + rest));
}

/// The cells of the straight line from `from` to `to`, exactly as Bresenham's
/// walk visits them ([`walk_cells`]): a path from the first end to the other
/// in single steps, each coordinate moving only toward the end, one cell for
/// each step along the longer axis, every cell within half a cell of the true
/// line.
pub fn line_cells(from: (u16, u16), to: (u16, u16)) -> (cells: Vec<(u16, u16)>)
    ensures
        is_line(from, to, cells@),
        cells.len() == max(abs16(from.0 as int, to.0 as int), abs16(from.1 as int, to.1 as int)) + 1,
        forall|i: int| 0 <= i < cells.len() ==> near_line(from, to, #[trigger] cells@[i]),
        cells@ == walk_cells(
            from,
            to,
            0,
            0,
            (max(abs16(from.0 as int, to.0 as int), abs16(from.1 as int, to.1 as int)) + 1) as nat,
        ),
{
    let x0 = from.0 as i64;
    let y0 = from.1 as i64;
    let ex = to.0 as i64;
    let ey = to.1 as i64;
    let dx: i64 = if ex >= x0 { ex - x0 } else { x0 - ex };
    let dy_abs: i64 = if ey >= y0 { ey - y0 } else { y0 - ey };
    let dy: i64 = -dy_abs;
    let sx: i64 = if x0 < ex { 1 } else { -1 };
    let sy: i64 = if y0 < ey { 1 } else { -1 };
    let mut err: i64 = dx + dy;
    let mut x = x0;
    let mut y = y0;
    let ghost mut a: int = 0;
    let ghost mut b: int = 0;
    let mut cells: Vec<(u16, u16)> = Vec::new();
    proof {
        assert(err == dx * (1 + b) - dy_abs * (1 + a)) by (nonlinear_arith)
            requires
                a == 0,
                b == 0,
                err == dx - dy_abs,
        ;
    }
    loop
        invariant_except_break
            cells.len() <= a + b,
            cells.len() == (if dx >= dy_abs { a } else { b }),
            cells.len() > 0 ==> cells@[0] == from && line_step(from, to, cells@.last(), (x as u16, y as u16)),
        invariant
            0 <= dx <= 65535,
            0 <= dy_abs <= 65535,
            dy == -dy_abs,
            dx == abs16(from.0 as int, to.0 as int),
            dy_abs == abs16(from.1 as int, to.1 as int),
            x0 == from.0,
            y0 == from.1,
            ex == to.0,
            ey == to.1,
            sx == (if x0 < ex { 1int } else { -1int }),
            sy == (if y0 < ey { 1int } else { -1int }),
            0 <= a <= dx,
            0 <= b <= dy_abs,
            walk_at(x0 as int, ex as int, a, x as int),
            walk_at(y0 as int, ey as int, b, y as int),
            err == dx * (1 + b) - dy_abs * (1 + a),
            -max(dx as int, dy_abs as int) <= 2 * (err - dx + dy_abs) <= max(dx as int, dy_abs as int),
            forall|i: int| 0 <= i < cells.len() ==> near_line(from, to, #[trigger] cells@[i]),
            cells.len() == 0 ==> a == 0 && b == 0,
            forall|i: int| 0 <= i < cells.len() - 1 ==> line_step(from, to, #[trigger] cells@[i], cells@[i + 1]),
            cells@ + walk_cells(from, to, a, b, (max(dx as int, dy_abs as int) + 1 - cells.len()) as nat)
                == walk_cells(from, to, 0, 0, (max(dx as int, dy_abs as int) + 1) as nat),
        ensures
            cells@ == walk_cells(from, to, 0, 0, (max(dx as int, dy_abs as int) + 1) as nat),
            is_line(from, to, cells@),
            cells.len() == max(dx as int, dy_abs as int) + 1,
            forall|i: int| 0 <= i < cells.len() ==> near_line(from, to, #[trigger] cells@[i]),
        decreases (dx - a) + (dy_abs - b),
    {
        let ghost before = cells@;
        let ghost (a0, b0) = (a, b);
        let ghost k: nat = (max(dx as int, dy_abs as int) + 1 - cells.len()) as nat;
        proof {
            assert(walk_err(from, to, a, b) == err);
            assert(cell_at(from, to, a, b) == (x as u16, y as u16));
            assert(err - dx + dy_abs == b * dx - a * dy_abs) by (nonlinear_arith)
                requires
                    err == dx * (1 + b) - dy_abs * (1 + a),
            ;
            assert(abs16(from.0 as int, x as int) == a);
            assert(abs16(from.1 as int, y as int) == b);
            assert(near_line(from, to, (x as u16, y as u16)));
        }
        cells.push((x as u16, y as u16));
        proof {
            assert forall|i: int| 0 <= i < cells.len() implies near_line(from, to, #[trigger] cells@[i]) by {
                if i < before.len() {
                    assert(cells@[i] == before[i]);
                }
            }
            assert forall|i: int| 0 <= i < cells.len() - 1 implies line_step(from, to, #[trigger] cells@[i], cells@[i + 1]) by {
                if i < before.len() - 1 {
                    assert(cells@[i] == before[i] && cells@[i + 1] == before[i + 1]);
                } else {
                    assert(cells@[i] == before.last());
                }
            }
            if before.len() == 0 {
                assert(cells@[0] == from);
            } else {
                assert(cells@[0] == before[0]);
            }
        }
        proof {
            lemma_walk_push(from, to, before, a0, b0, k);
        }
        if x == ex && y == ey {
            proof {
                assert(cells@.last() == to);
                assert(k == 1);
                let w = walk_cells(from, to, walk_next_a(from, to, a0, b0), walk_next_b(from, to, a0, b0), 0);
                assert(cells@ + w =~= cells@);
            }
            break;
        }
        proof {
            lemma_err_bounds(dx as int, dy_abs as int, a, b);
        }
        let e2 = 2 * err;
        let ghost (x_old, y_old) = (x, y);
        let step_x = e2 >= dy;
        let step_y = e2 <= dx;
        proof {
            assert(!(a == dx && b == dy_abs));
            if step_x {
                lemma_no_x_overshoot(dx as int, dy_abs as int, a, b);
            }
            if step_y {
                lemma_no_y_overshoot(dx as int, dy_abs as int, a, b);
            }
            assert(step_x || step_y);
            if dx >= dy_abs {
                assert(step_x);
            } else {
                assert(step_y);
            }
        }
        if step_x {
            err = err + dy;
            x = x + sx;
            proof {
                assert(err == dx * (1 + b) - dy_abs * (1 + (a + 1))) by (nonlinear_arith)
                    requires
                        err == dx * (1 + b) - dy_abs * (1 + a) - dy_abs,
                ;
                a = a + 1;
            }
        }
        if step_y {
            err = err + dx;
            y = y + sy;
            proof {
                assert(err == dx * (1 + (b + 1)) - dy_abs * (1 + a)) by (nonlinear_arith)
                    requires
                        err == dx * (1 + b) - dy_abs * (1 + a) + dx,
                ;
                b = b + 1;
            }
        }
        proof {
            assert(line_step(from, to, cells@.last(), (x as u16, y as u16)));
            assert(a == walk_next_a(from, to, a0, b0) && b == walk_next_b(from, to, a0, b0));
        }
    }
    cells
}

/// The distance between `a` and `b`.
pub open spec fn abs16(a: int, b: int) -> int {
    if a <= b { b - a } else { a - b }
}

/// Where the label of a vertex drawn at `point` goes, for a label of
/// `text_len` characters inside `clip`: two columns to the right when it fits
/// before the right edge, else ending two columns to the left; one row above
/// unless that would reach the top border, else one row below.
pub open spec fn label_position_of(point: (u16, u16), clip: Area, text_len: int) -> (int, int) {
    let width = if text_len <= u16::MAX { text_len } else { u16::MAX as int };
    let right_edge = sat_add16(clip.x as int, clip.width as int);
    let x = if sat_add16(sat_add16(point.0 as int, width), 2) < right_edge {
        sat_add16(point.0 as int, 2)
    } else {
        sat_sub0(point.0 as int, sat_add16(width, 2))
    };
    let y = if point.1 > sat_add16(clip.y as int, 1) {
        point.1 - 1
    } else {
        sat_add16(point.1 as int, 1)
    };
    (x, y)
}

/// Where the label of a vertex drawn at `point` goes.
pub fn label_position(point: (u16, u16), clip: &Area, text_len: usize) -> (r: (u16, u16))
    ensures
        (r.0 as int, r.1 as int) == label_position_of(point, *clip, text_len as int),
{
    let width: u16 = if text_len <= 65535 { text_len as u16 } else { u16::MAX };
    let right_edge = clip.x.saturating_add(clip.width);
    let x = if point.0.saturating_add(width).saturating_add(2) < right_edge {
        point.0.saturating_add(2)
    } else {
        point.0.saturating_sub(width.saturating_add(2))
    };
    let y = if point.1 > clip.y.saturating_add(1) {
        point.1 - 1
    } else {
        point.1.saturating_add(1)
    };
    (x, y)
}

} // verus!
