//! Grid geometry: coordinates, the wall ring, headings and wrap-around.
use vstd::prelude::*;
use vstd::set_lib::{lemma_int_range, lemma_len_subset, set_int_range};

verus! {

/// Number of rows of the grid, wall included.
pub const ROWS: i32 = 22;

/// Number of columns of the grid, wall included.
pub const COLS: i32 = 42;

/// Number of cells strictly inside the wall.
pub const INTERIOR_CELLS: usize = 800;

/// A cell is addressed as `(row, col)`.
pub type Cell = (i32, i32);

/// The cell lies on the grid.
pub open spec fn on_grid(p: Cell) -> bool {
    0 <= p.0 < ROWS && 0 <= p.1 < COLS
}

/// The cell belongs to the boundary ring.
pub open spec fn is_wall(p: Cell) -> bool {
    on_grid(p) && (p.0 == 0 || p.0 == ROWS - 1 || p.1 == 0 || p.1 == COLS - 1)
}

/// The cell lies strictly inside the wall.
pub open spec fn is_interior(p: Cell) -> bool {
    1 <= p.0 <= ROWS - 2 && 1 <= p.1 <= COLS - 2
}

/// One of the four directions the snake can move in.
#[derive(Clone, Copy, Debug, PartialEq, Eq, Structural)]
pub enum Heading {
    Up,
    Down,
    Left,
    Right,
}

impl Heading {
    /// Row component of the unit vector.
    pub open spec fn dr(self) -> int {
        match self {
            Heading::Up => -1,
            Heading::Down => 1,
            _ => 0,
        }
    }

    /// Column component of the unit vector.
    pub open spec fn dc(self) -> int {
        match self {
            Heading::Left => -1,
            Heading::Right => 1,
            _ => 0,
        }
    }

    /// The unit vector `(row, col)` of this heading.
    pub fn offset(self) -> (r: (i32, i32))
        ensures
            r.0 == self.dr(),
            r.1 == self.dc(),
    {
        match self {
            Heading::Up => (-1, 0),
            Heading::Down => (1, 0),
            Heading::Left => (0, -1),
            Heading::Right => (0, 1),
        }
    }
}

/// A cell reached from an interior cell by one unit step, brought back inside:
/// crossing the right wall re-enters at column 1, the left wall at column
/// `COLS - 2`, the bottom wall at row 1 and the top wall at row `ROWS - 2`.
pub open spec fn wrap(r: int, c: int) -> (int, int) {
    if c == COLS - 1 {
        (r, 1)
    } else if c == 0 {
        (r, COLS - 2)
    } else if r == ROWS - 1 {
        (1, c)
    } else if r == 0 {
        (ROWS - 2, c)
    } else {
        (r, c)
    }
}

/// Where a head at `head` goes next when moving along `h`.
pub open spec fn next_cell(head: Cell, h: Heading) -> Cell {
    let w = wrap(head.0 + h.dr(), head.1 + h.dc());
    (w.0 as i32, w.1 as i32)
}

/// Whether `p` is a wall cell.
pub fn wall_at(p: Cell) -> (r: bool)
    ensures
        r == is_wall(p),
{
    0 <= p.0 && p.0 < ROWS && 0 <= p.1 && p.1 < COLS && (p.0 == 0 || p.0 == ROWS - 1 || p.1 == 0
        || p.1 == COLS - 1)
}

/// Moves an interior head one step along `h`, wrapping through the wall.
pub fn step_cell(head: Cell, h: Heading) -> (r: Cell)
    requires
        is_interior(head),
    ensures
        r == next_cell(head, h),
        is_interior(r),
{
    let d = h.offset();
    let mut next: Cell = (head.0 + d.0, head.1 + d.1);
    if wall_at(next) {
        if next.1 == COLS - 1 {
            next.1 = 1;
        } else if next.1 == 0 {
            next.1 = COLS - 2;
        } else if next.0 == ROWS - 1 {
            next.0 = 1;
        } else {
            next.0 = ROWS - 2;
        }
    }
    next
}

/// The boundary ring, row by row.
pub fn wall_cells() -> (r: Vec<Cell>)
    ensures
        forall|p: Cell| r@.contains(p) <==> is_wall(p),
        r@.no_duplicates(),
{
    let mut out: Vec<Cell> = Vec::new();
    let mut x: i32 = 0;
    while x < ROWS
        invariant
            0 <= x <= ROWS,
            out@.no_duplicates(),
            forall|p: Cell| #[trigger] out@.contains(p) <==> (is_wall(p) && p.0 < x),
        decreases ROWS - x,
    {
        let mut y: i32 = 0;
        while y < COLS
            invariant
                0 <= x < ROWS,
                0 <= y <= COLS,
                out@.no_duplicates(),
                forall|p: Cell|
                    #[trigger] out@.contains(p) <==> (is_wall(p) && (p.0 < x || (p.0 == x && p.1 < y))),
            decreases COLS - y,
        {
            if x == 0 || x == ROWS - 1 || y == 0 || y == COLS - 1 {
                let ghost before = out@;
                assert(!out@.contains((x, y)));
                out.push((x, y));
                assert(forall|p: Cell| #[trigger] out@.contains(p) <==> (before.contains(p) || p == (x, y)))
                    by {
                    assert forall|p: Cell| out@.contains(p) implies (before.contains(p) || p
                        == (x, y)) by {
                        let k = choose|k: int| 0 <= k < out@.len() && out@[k] == p;
                        if k < before.len() {
                            assert(before[k] == p);
                        }
                    }
                    assert forall|p: Cell| before.contains(p) implies out@.contains(p) by {
                        let k = choose|k: int| 0 <= k < before.len() && before[k] == p;
                        assert(out@[k] == p);
                    }
                    assert(out@[out@.len() - 1] == (x, y));
                }
                assert forall|i: int, j: int|
                    0 <= i < out@.len() && 0 <= j < out@.len() && i != j implies out@[i]
                    != out@[j] by {
                    if i < before.len() && j < before.len() {
                        assert(out@[i] == before[i] && out@[j] == before[j]);
                    } else if i < before.len() {
                        assert(before.contains(out@[i]));
                    } else {
                        assert(before.contains(out@[j]));
                    }
                }
            }
            y = y + 1;
        }
        x = x + 1;
    }
    out
}

/// A head that leaves through one of the four walls re-enters at the
/// interior cell next to the opposite wall, in the same row (left and right)
/// or the same column (top and bottom).
pub proof fn lemma_wrap_edges(head: Cell)
    requires
        is_interior(head),
    ensures
        head.1 == COLS - 2 ==> next_cell(head, Heading::Right) == (head.0, 1i32),
        head.1 == 1 ==> next_cell(head, Heading::Left) == (head.0, (COLS - 2) as i32),
        head.0 == ROWS - 2 ==> next_cell(head, Heading::Down) == (1i32, head.1),
        head.0 == 1 ==> next_cell(head, Heading::Up) == ((ROWS - 2) as i32, head.1),
        head.1 < COLS - 2 ==> next_cell(head, Heading::Right) == (head.0, (head.1 + 1) as i32),
        head.1 > 1 ==> next_cell(head, Heading::Left) == (head.0, (head.1 - 1) as i32),
        head.0 < ROWS - 2 ==> next_cell(head, Heading::Down) == ((head.0 + 1) as i32, head.1),
        head.0 > 1 ==> next_cell(head, Heading::Up) == ((head.0 - 1) as i32, head.1),
{
}

/// Position of an interior cell in a row-major numbering from 0.
pub open spec fn interior_index(p: Cell) -> int {
    (p.0 - 1) * (COLS - 2) + (p.1 - 1)
}

proof fn lemma_interior_index(p: Cell, q: Cell)
    requires
        is_interior(p),
        is_interior(q),
    ensures
        0 <= interior_index(p) < INTERIOR_CELLS,
        interior_index(p) == interior_index(q) ==> p == q,
{
    let a = p.0 - 1;
    let b = p.1 - 1;
    let c = q.0 - 1;
    let d = q.1 - 1;
    assert(0 <= a * 40 + b < 800) by (nonlinear_arith)
        requires
            0 <= a < 20,
            0 <= b < 40,
    ;
    assert(a * 40 + b == c * 40 + d ==> a == c && b == d) by (nonlinear_arith)
        requires
            0 <= a < 20,
            0 <= b < 40,
            0 <= c < 20,
            0 <= d < 40,
    ;
}

/// A sequence of distinct interior cells has at most `INTERIOR_CELLS` items.
pub proof fn lemma_distinct_cells_bound(s: Seq<Cell>)
    requires
        s.no_duplicates(),
        forall|i: int| 0 <= i < s.len() ==> is_interior(#[trigger] s[i]),
    ensures
        s.len() <= INTERIOR_CELLS,
{
    let m = s.map_values(|p: Cell| interior_index(p));
    assert forall|i: int, j: int| 0 <= i < m.len() && 0 <= j < m.len() && i != j implies m[i]
        != m[j] by {
        lemma_interior_index(s[i], s[j]);
    }
    m.unique_seq_to_set();
    lemma_int_range(0, INTERIOR_CELLS as int);
    assert forall|v: int| m.to_set().contains(v) implies set_int_range(
        0,
        INTERIOR_CELLS as int,
    ).contains(v) by {
        let k = choose|k: int| 0 <= k < m.len() && m[k] == v;
        lemma_interior_index(s[k], s[k]);
    }
    lemma_len_subset(m.to_set(), set_int_range(0, INTERIOR_CELLS as int));
}

} // verus!
