//! The mathematical model of a board: a sequence of rows of cells, with
//! counting, neighbourhoods and mine numbers.

use vstd::prelude::*;
use crate::cell::{Cell, CellState};

verus! {

/// `(i, j)` names a cell of `g`.
pub open spec fn in_grid(g: Seq<Seq<Cell>>, i: int, j: int) -> bool {
    0 <= i < g.len() && 0 <= j < g[i].len()
}

/// `g` with the cell at `(i, j)` replaced by `x`.
pub open spec fn with_cell(g: Seq<Seq<Cell>>, i: int, j: int, x: Cell) -> Seq<Seq<Cell>> {
    g.update(i, g[i].update(j, x))
}

/// Every row of `g` has `w` cells.
pub open spec fn rectangular(g: Seq<Seq<Cell>>, w: int) -> bool {
    forall|i: int| 0 <= i < g.len() ==> #[trigger] g[i].len() == w
}

/// `g` and `h` have the same shape.
pub open spec fn same_shape(g: Seq<Seq<Cell>>, h: Seq<Seq<Cell>>) -> bool {
    &&& g.len() == h.len()
    &&& forall|i: int| 0 <= i < g.len() ==> #[trigger] g[i].len() == h[i].len()
}

/// Two different cells that touch, sideways or diagonally.
pub open spec fn adjacent(i1: int, j1: int, i2: int, j2: int) -> bool {
    &&& !(i1 == i2 && j1 == j2)
    &&& -1 <= i1 - i2 <= 1
    &&& -1 <= j1 - j2 <= 1
}

/// Row offset of square `k` (0..9, row-major) of the 3x3 block around a cell.
pub open spec fn block_dr(k: int) -> int {
    k / 3 - 1
}

/// Column offset of square `k` (0..9, row-major) of the 3x3 block around a cell.
pub open spec fn block_dc(k: int) -> int {
    k % 3 - 1
}

/// 1 where `(i, j)` is a cell of `g` holding a mine, 0 elsewhere.
pub open spec fn mine_at(g: Seq<Seq<Cell>>, i: int, j: int) -> nat {
    if in_grid(g, i, j) && g[i][j].is_mine {
        1
    } else {
        0
    }
}

/// Mines among the first `k` squares of the 3x3 block around `(i, j)`, in row-major
/// order, the centre (square 4) left out: the running sum of a neighbour count.
pub open spec fn mines_in_block(g: Seq<Seq<Cell>>, i: int, j: int, k: int) -> nat
    decreases k,
{
    if k <= 0 {
        0
    } else if k - 1 == 4 {
        mines_in_block(g, i, j, k - 1)
    } else {
        mines_in_block(g, i, j, k - 1) + mine_at(g, i + block_dr(k - 1), j + block_dc(k - 1))
    }
}

/// The number of mines among the (up to eight) neighbours of `(i, j)`: the cells
/// of `g` one row and/or one column away.
pub open spec fn mine_neighbours(g: Seq<Seq<Cell>>, i: int, j: int) -> nat {
    mine_at(g, i - 1, j - 1) + mine_at(g, i - 1, j) + mine_at(g, i - 1, j + 1) + mine_at(g, i, j - 1)
        + mine_at(g, i, j + 1) + mine_at(g, i + 1, j - 1) + mine_at(g, i + 1, j) + mine_at(
        g,
        i + 1,
        j + 1,
    )
}

/// `g` with every mine-free cell numbered with its neighbouring mines;
/// mine cells are left as they are.
pub open spec fn numbered(g: Seq<Seq<Cell>>) -> Seq<Seq<Cell>> {
    Seq::new(
        g.len(),
        |i: int|
            Seq::new(
                g[i].len(),
                |j: int|
                    if g[i][j].is_mine {
                        g[i][j]
                    } else {
                        Cell { adjacent_mines: mine_neighbours(g, i, j) as u8, ..g[i][j] }
                    },
            ),
    )
}

/// `g` with every mine that is not flagged revealed.
pub open spec fn mines_shown(g: Seq<Seq<Cell>>) -> Seq<Seq<Cell>> {
    Seq::new(
        g.len(),
        |i: int|
            Seq::new(
                g[i].len(),
                |j: int|
                    if g[i][j].is_mine && g[i][j].state != CellState::Flagged {
                        g[i][j].after_reveal()
                    } else {
                        g[i][j]
                    },
            ),
    )
}

/// Showing the mines opens every mine that carries no flag, whether hidden or
/// question-marked, and changes nothing else in it; flagged mines and mine-free
/// cells stay exactly as they were.
pub proof fn lemma_mines_shown_cells(g: Seq<Seq<Cell>>)
    ensures
        same_shape(g, mines_shown(g)),
        forall|i: int, j: int|
            in_grid(g, i, j) && g[i][j].is_mine && g[i][j].state != CellState::Flagged
                ==> #[trigger] mines_shown(g)[i][j] == (Cell { state: CellState::Revealed, ..g[i][j] }),
        forall|i: int, j: int|
            in_grid(g, i, j) && (!g[i][j].is_mine || g[i][j].state == CellState::Flagged)
                ==> #[trigger] mines_shown(g)[i][j] == g[i][j],
{
}

/// Every mine-free cell carries the number of its neighbouring mines.
pub open spec fn numbers_correct(g: Seq<Seq<Cell>>) -> bool {
    forall|i: int, j: int|
        in_grid(g, i, j) && !g[i][j].is_mine ==> #[trigger] g[i][j].adjacent_mines
            == mine_neighbours(g, i, j)
}

/// The same cells hold mines in `g` and `h`, which have the same shape.
pub open spec fn same_mines(g: Seq<Seq<Cell>>, h: Seq<Seq<Cell>>) -> bool {
    &&& same_shape(g, h)
    &&& forall|i: int, j: int| in_grid(g, i, j) ==> #[trigger] h[i][j].is_mine == g[i][j].is_mine
}

/// Mines and numbers agree cell by cell in `g` and `h`, which have the same shape.
pub open spec fn same_layout(g: Seq<Seq<Cell>>, h: Seq<Seq<Cell>>) -> bool {
    &&& same_shape(g, h)
    &&& forall|i: int, j: int|
        in_grid(g, i, j) ==> #[trigger] h[i][j].is_mine == g[i][j].is_mine && h[i][j].adjacent_mines
            == g[i][j].adjacent_mines
}

/// How many cells of `row` satisfy `p`.
pub open spec fn count_row(row: Seq<Cell>, p: spec_fn(Cell) -> bool) -> nat
    decreases row.len(),
{
    if row.len() == 0 {
        0
    } else {
        count_row(row.drop_last(), p) + if p(row.last()) {
            1nat
        } else {
            0nat
        }
    }
}

/// How many cells of `g` satisfy `p`.
pub open spec fn count_grid(g: Seq<Seq<Cell>>, p: spec_fn(Cell) -> bool) -> nat
    decreases g.len(),
{
    if g.len() == 0 {
        0
    } else {
        count_grid(g.drop_last(), p) + count_row(g.last(), p)
    }
}

pub open spec fn is_open(c: Cell) -> bool {
    c.state == CellState::Revealed
}

pub open spec fn is_flag(c: Cell) -> bool {
    c.state == CellState::Flagged
}

pub open spec fn is_mine_cell(c: Cell) -> bool {
    c.is_mine
}

/// Number of revealed cells.
pub open spec fn revealed_total(g: Seq<Seq<Cell>>) -> nat {
    count_grid(g, |c: Cell| is_open(c))
}

/// Number of flagged cells.
pub open spec fn flagged_total(g: Seq<Seq<Cell>>) -> nat {
    count_grid(g, |c: Cell| is_flag(c))
}

/// Number of mines.
pub open spec fn mine_total(g: Seq<Seq<Cell>>) -> nat {
    count_grid(g, |c: Cell| is_mine_cell(c))
}

pub proof fn lemma_count_row_update(row: Seq<Cell>, k: int, x: Cell, p: spec_fn(Cell) -> bool)
    requires
        0 <= k < row.len(),
    ensures
        count_row(row.update(k, x), p) + (if p(row[k]) {
            1int
        } else {
            0int
        }) == count_row(row, p) + (if p(x) {
            1int
        } else {
            0int
        }),
    decreases row.len(),
{
    let r2 = row.update(k, x);
    if k == row.len() - 1 {
        assert(r2.drop_last() =~= row.drop_last());
    } else {
        assert(r2.drop_last() =~= row.drop_last().update(k, x));
        lemma_count_row_update(row.drop_last(), k, x, p);
    }
}

pub proof fn lemma_count_grid_update(
    g: Seq<Seq<Cell>>,
    i: int,
    row: Seq<Cell>,
    p: spec_fn(Cell) -> bool,
)
    requires
        0 <= i < g.len(),
    ensures
        count_grid(g.update(i, row), p) + count_row(g[i], p) == count_grid(g, p) + count_row(row, p),
    decreases g.len(),
{
    let g2 = g.update(i, row);
    if i == g.len() - 1 {
        assert(g2.drop_last() =~= g.drop_last());
    } else {
        assert(g2.drop_last() =~= g.drop_last().update(i, row));
        lemma_count_grid_update(g.drop_last(), i, row, p);
    }
}

/// Replacing one cell changes a count by the change at that cell.
pub proof fn lemma_count_cell_update(
    g: Seq<Seq<Cell>>,
    i: int,
    j: int,
    x: Cell,
    p: spec_fn(Cell) -> bool,
)
    requires
        in_grid(g, i, j),
    ensures
        count_grid(g.update(i, g[i].update(j, x)), p) + (if p(g[i][j]) {
            1int
        } else {
            0int
        }) == count_grid(g, p) + (if p(x) {
            1int
        } else {
            0int
        }),
{
    lemma_count_row_update(g[i], j, x, p);
    lemma_count_grid_update(g, i, g[i].update(j, x), p);
}

pub proof fn lemma_count_row_mono(a: Seq<Cell>, b: Seq<Cell>, p: spec_fn(Cell) -> bool)
    requires
        a.len() == b.len(),
        forall|k: int| 0 <= k < a.len() && #[trigger] p(a[k]) ==> p(b[k]),
    ensures
        count_row(a, p) <= count_row(b, p),
    decreases a.len(),
{
    if a.len() > 0 {
        assert forall|k: int| 0 <= k < a.drop_last().len() && #[trigger] p(a.drop_last()[k]) implies p(
            b.drop_last()[k],
        ) by {
            assert(p(a[k]));
        }
        lemma_count_row_mono(a.drop_last(), b.drop_last(), p);
        assert(p(a[a.len() - 1]) ==> p(b[b.len() - 1]));
    }
}

pub proof fn lemma_count_row_mono_strict(
    a: Seq<Cell>,
    b: Seq<Cell>,
    p: spec_fn(Cell) -> bool,
    k0: int,
)
    requires
        a.len() == b.len(),
        forall|k: int| 0 <= k < a.len() && #[trigger] p(a[k]) ==> p(b[k]),
        0 <= k0 < a.len(),
        !p(a[k0]),
        p(b[k0]),
    ensures
        count_row(a, p) < count_row(b, p),
    decreases a.len(),
{
    assert forall|k: int| 0 <= k < a.drop_last().len() && #[trigger] p(a.drop_last()[k]) implies p(
        b.drop_last()[k],
    ) by {
        assert(p(a[k]));
    }
    if k0 == a.len() - 1 {
        lemma_count_row_mono(a.drop_last(), b.drop_last(), p);
    } else {
        assert(!p(a.drop_last()[k0]) && p(b.drop_last()[k0]));
        lemma_count_row_mono_strict(a.drop_last(), b.drop_last(), p, k0);
        assert(p(a[a.len() - 1]) ==> p(b[b.len() - 1]));
    }
}

/// A count can only grow when every cell satisfying `p` in `a` satisfies it in `b`.
pub proof fn lemma_count_grid_mono(a: Seq<Seq<Cell>>, b: Seq<Seq<Cell>>, p: spec_fn(Cell) -> bool)
    requires
        same_shape(a, b),
        forall|i: int, j: int| in_grid(a, i, j) && #[trigger] p(a[i][j]) ==> p(b[i][j]),
    ensures
        count_grid(a, p) <= count_grid(b, p),
    decreases a.len(),
{
    if a.len() > 0 {
        let n = a.len() - 1;
        assert forall|i: int, j: int|
            in_grid(a.drop_last(), i, j) && #[trigger] p(a.drop_last()[i][j]) implies p(
            b.drop_last()[i][j],
        ) by {
            assert(p(a[i][j]));
        }
        lemma_count_grid_mono(a.drop_last(), b.drop_last(), p);
        assert forall|k: int| 0 <= k < a[n].len() && #[trigger] p(a[n][k]) implies p(b[n][k]) by {
            assert(in_grid(a, n, k));
        }
        lemma_count_row_mono(a[n], b[n], p);
    }
}

/// ... and grows strictly when some cell gains `p`.
pub proof fn lemma_count_grid_mono_strict(
    a: Seq<Seq<Cell>>,
    b: Seq<Seq<Cell>>,
    p: spec_fn(Cell) -> bool,
    i0: int,
    j0: int,
)
    requires
        same_shape(a, b),
        forall|i: int, j: int| in_grid(a, i, j) && #[trigger] p(a[i][j]) ==> p(b[i][j]),
        in_grid(a, i0, j0),
        !p(a[i0][j0]),
        p(b[i0][j0]),
    ensures
        count_grid(a, p) < count_grid(b, p),
    decreases a.len(),
{
    let n = a.len() - 1;
    assert forall|i: int, j: int|
        in_grid(a.drop_last(), i, j) && #[trigger] p(a.drop_last()[i][j]) implies p(
        b.drop_last()[i][j],
    ) by {
        assert(p(a[i][j]));
    }
    assert forall|k: int| 0 <= k < a[n].len() && #[trigger] p(a[n][k]) implies p(b[n][k]) by {
        assert(in_grid(a, n, k));
    }
    if i0 == n {
        lemma_count_grid_mono(a.drop_last(), b.drop_last(), p);
        lemma_count_row_mono_strict(a[n], b[n], p, j0);
    } else {
        assert(in_grid(a.drop_last(), i0, j0));
        assert(a.drop_last()[i0][j0] == a[i0][j0]);
        lemma_count_grid_mono_strict(a.drop_last(), b.drop_last(), p, i0, j0);
        lemma_count_row_mono(a[n], b[n], p);
    }
}

/// Grids that agree on `p` everywhere have the same count.
pub proof fn lemma_count_grid_same(a: Seq<Seq<Cell>>, b: Seq<Seq<Cell>>, p: spec_fn(Cell) -> bool)
    requires
        same_shape(a, b),
        forall|i: int, j: int| in_grid(a, i, j) ==> #[trigger] p(a[i][j]) == p(b[i][j]),
    ensures
        count_grid(a, p) == count_grid(b, p),
{
    assert forall|i: int, j: int| in_grid(a, i, j) && #[trigger] p(a[i][j]) implies p(b[i][j]) by {}
    lemma_count_grid_mono(a, b, p);
    assert forall|i: int, j: int| in_grid(b, i, j) && #[trigger] p(b[i][j]) implies p(a[i][j]) by {
        assert(in_grid(a, i, j));
    }
    lemma_count_grid_mono(b, a, p);
}

pub proof fn lemma_count_row_none(row: Seq<Cell>, p: spec_fn(Cell) -> bool)
    requires
        forall|k: int| 0 <= k < row.len() ==> !#[trigger] p(row[k]),
    ensures
        count_row(row, p) == 0,
    decreases row.len(),
{
    if row.len() > 0 {
        assert(!p(row[row.len() - 1]));
        lemma_count_row_none(row.drop_last(), p);
    }
}

/// A count is zero when no cell satisfies `p`.
pub proof fn lemma_count_grid_none(g: Seq<Seq<Cell>>, p: spec_fn(Cell) -> bool)
    requires
        forall|i: int, j: int| in_grid(g, i, j) ==> !#[trigger] p(g[i][j]),
    ensures
        count_grid(g, p) == 0,
    decreases g.len(),
{
    if g.len() > 0 {
        let n = g.len() - 1;
        assert forall|k: int| 0 <= k < g[n].len() implies !#[trigger] p(g[n][k]) by {
            assert(in_grid(g, n, k));
        }
        lemma_count_row_none(g[n], p);
        assert forall|i: int, j: int| in_grid(g.drop_last(), i, j) implies !#[trigger] p(g.drop_last()[i][j]) by {
            assert(in_grid(g, i, j));
        }
        lemma_count_grid_none(g.drop_last(), p);
    }
}

pub proof fn lemma_count_row_complement(row: Seq<Cell>, p: spec_fn(Cell) -> bool, q: spec_fn(Cell) -> bool)
    requires
        forall|x: Cell| #[trigger] q(x) == !p(x),
    ensures
        count_row(row, p) + count_row(row, q) == row.len(),
    decreases row.len(),
{
    if row.len() > 0 {
        lemma_count_row_complement(row.drop_last(), p, q);
        assert(q(row.last()) == !p(row.last()));
    }
}

/// Every cell satisfies exactly one of `p` and its negation `q`.
pub proof fn lemma_count_grid_complement(
    g: Seq<Seq<Cell>>,
    p: spec_fn(Cell) -> bool,
    q: spec_fn(Cell) -> bool,
    w: int,
)
    requires
        rectangular(g, w),
        w >= 0,
        forall|x: Cell| #[trigger] q(x) == !p(x),
    ensures
        count_grid(g, p) + count_grid(g, q) == g.len() * w,
    decreases g.len(),
{
    if g.len() > 0 {
        let n = g.len() - 1;
        lemma_count_grid_complement(g.drop_last(), p, q, w);
        lemma_count_row_complement(g[n], p, q);
        assert(g.drop_last().len() * w + w == g.len() * w) by (nonlinear_arith)
            requires
                g.drop_last().len() + 1 == g.len(),
        ;
    }
}

pub proof fn lemma_count_row_implies(row: Seq<Cell>, p: spec_fn(Cell) -> bool, q: spec_fn(Cell) -> bool)
    requires
        forall|k: int| 0 <= k < row.len() && #[trigger] p(row[k]) ==> q(row[k]),
    ensures
        count_row(row, p) <= count_row(row, q),
        count_row(row, p) == count_row(row, q) ==> forall|k: int|
            0 <= k < row.len() && #[trigger] q(row[k]) ==> p(row[k]),
    decreases row.len(),
{
    if row.len() > 0 {
        let n = row.len() - 1;
        assert forall|k: int| 0 <= k < row.drop_last().len() && #[trigger] p(row.drop_last()[k]) implies q(
            row.drop_last()[k],
        ) by {
            assert(p(row[k]));
        }
        lemma_count_row_implies(row.drop_last(), p, q);
        assert(p(row[n]) ==> q(row[n]));
        if count_row(row, p) == count_row(row, q) {
            assert forall|k: int| 0 <= k < row.len() && #[trigger] q(row[k]) implies p(row[k]) by {
                if k < n {
                    assert(q(row.drop_last()[k]));
                }
            }
        }
    }
}

/// When `p` implies `q` cell by cell, fewer cells satisfy `p`, and as many only
/// when `q` implies `p` too.
pub proof fn lemma_count_grid_implies(g: Seq<Seq<Cell>>, p: spec_fn(Cell) -> bool, q: spec_fn(Cell) -> bool)
    requires
        forall|i: int, j: int| in_grid(g, i, j) && #[trigger] p(g[i][j]) ==> q(g[i][j]),
    ensures
        count_grid(g, p) <= count_grid(g, q),
        count_grid(g, p) == count_grid(g, q) ==> forall|i: int, j: int|
            in_grid(g, i, j) && #[trigger] q(g[i][j]) ==> p(g[i][j]),
    decreases g.len(),
{
    if g.len() > 0 {
        let n = g.len() - 1;
        let h = g.drop_last();
        assert forall|i: int, j: int| in_grid(h, i, j) && #[trigger] p(h[i][j]) implies q(h[i][j]) by {
            assert(in_grid(g, i, j));
        }
        lemma_count_grid_implies(h, p, q);
        assert forall|k: int| 0 <= k < g[n].len() && #[trigger] p(g[n][k]) implies q(g[n][k]) by {
            assert(in_grid(g, n, k));
        }
        lemma_count_row_implies(g[n], p, q);
        if count_grid(g, p) == count_grid(g, q) {
            assert forall|i: int, j: int| in_grid(g, i, j) && #[trigger] q(g[i][j]) implies p(g[i][j]) by {
                if i < n {
                    assert(in_grid(h, i, j) && q(h[i][j]));
                } else {
                    assert(q(g[n][j]));
                }
            }
        }
    }
}

pub proof fn lemma_count_row_bound(row: Seq<Cell>, p: spec_fn(Cell) -> bool)
    ensures
        count_row(row, p) <= row.len(),
    decreases row.len(),
{
    if row.len() > 0 {
        lemma_count_row_bound(row.drop_last(), p);
    }
}

/// No count exceeds the number of cells.
pub proof fn lemma_count_grid_bound(g: Seq<Seq<Cell>>, p: spec_fn(Cell) -> bool, w: int)
    requires
        rectangular(g, w),
        w >= 0,
    ensures
        count_grid(g, p) <= g.len() * w,
    decreases g.len(),
{
    if g.len() > 0 {
        let n = g.len() - 1;
        lemma_count_grid_bound(g.drop_last(), p, w);
        lemma_count_row_bound(g[n], p);
        assert(g.drop_last().len() * w + w == g.len() * w) by (nonlinear_arith)
            requires
                g.drop_last().len() + 1 == g.len(),
        ;
    }
}

/// The running sum over the whole block is the neighbour count.
pub proof fn lemma_block_sum(g: Seq<Seq<Cell>>, i: int, j: int)
    ensures
        mines_in_block(g, i, j, 9) == mine_neighbours(g, i, j),
{
    reveal_with_fuel(mines_in_block, 10);
    assert(block_dr(0) == -1 && block_dc(0) == -1);
    assert(block_dr(1) == -1 && block_dc(1) == 0);
    assert(block_dr(2) == -1 && block_dc(2) == 1);
    assert(block_dr(3) == 0 && block_dc(3) == -1);
    assert(block_dr(5) == 0 && block_dc(5) == 1);
    assert(block_dr(6) == 1 && block_dc(6) == -1);
    assert(block_dr(7) == 1 && block_dc(7) == 0);
    assert(block_dr(8) == 1 && block_dc(8) == 1);
}

/// A cell has at most eight neighbouring mines.
pub proof fn lemma_neighbours_bound(g: Seq<Seq<Cell>>, i: int, j: int)
    ensures
        mine_neighbours(g, i, j) <= 8,
{
}

/// Neighbour counts depend only on where the mines are.
pub proof fn lemma_neighbours_same(g: Seq<Seq<Cell>>, h: Seq<Seq<Cell>>, i: int, j: int)
    requires
        same_mines(g, h),
    ensures
        mine_neighbours(g, i, j) == mine_neighbours(h, i, j),
{
    assert forall|a: int, b: int| -1 <= a - i <= 1 && -1 <= b - j <= 1 implies #[trigger] mine_at(g, a, b)
        == mine_at(h, a, b) by {
        if in_grid(g, a, b) {
            assert(h[a][b].is_mine == g[a][b].is_mine);
        }
    }
    assert(mine_at(g, i - 1, j - 1) == mine_at(h, i - 1, j - 1));
    assert(mine_at(g, i - 1, j) == mine_at(h, i - 1, j));
    assert(mine_at(g, i - 1, j + 1) == mine_at(h, i - 1, j + 1));
    assert(mine_at(g, i, j - 1) == mine_at(h, i, j - 1));
    assert(mine_at(g, i, j + 1) == mine_at(h, i, j + 1));
    assert(mine_at(g, i + 1, j - 1) == mine_at(h, i + 1, j - 1));
    assert(mine_at(g, i + 1, j) == mine_at(h, i + 1, j));
    assert(mine_at(g, i + 1, j + 1) == mine_at(h, i + 1, j + 1));
}

/// Numbering changes only the numbers of mine-free cells, and gets them right.
pub proof fn lemma_numbered(g: Seq<Seq<Cell>>)
    ensures
        same_mines(g, numbered(g)),
        numbers_correct(numbered(g)),
        mine_total(numbered(g)) == mine_total(g),
        forall|i: int, j: int|
            in_grid(g, i, j) ==> (#[trigger] numbered(g)[i][j]).state == g[i][j].state
                && numbered(g)[i][j].is_exploded == g[i][j].is_exploded && (g[i][j].is_mine
                ==> numbered(g)[i][j] == g[i][j]),
{
    let n = numbered(g);
    assert(same_mines(g, n));
    assert forall|i: int, j: int| in_grid(n, i, j) && !n[i][j].is_mine implies #[trigger] n[i][j].adjacent_mines
        == mine_neighbours(n, i, j) by {
        lemma_neighbours_same(g, n, i, j);
        lemma_neighbours_bound(g, i, j);
    }
    lemma_count_grid_same(g, n, |c: Cell| is_mine_cell(c));
}

/// Correct numbers stay correct when neither mines nor numbers move.
pub proof fn lemma_numbers_kept(g: Seq<Seq<Cell>>, h: Seq<Seq<Cell>>)
    requires
        same_layout(g, h),
        numbers_correct(g),
    ensures
        numbers_correct(h),
{
    assert(same_mines(g, h));
    assert forall|i: int, j: int| in_grid(h, i, j) && !h[i][j].is_mine implies #[trigger] h[i][j].adjacent_mines
        == mine_neighbours(h, i, j) by {
        assert(in_grid(g, i, j));
        lemma_neighbours_same(g, h, i, j);
    }
}

/// A mine next to `(i, j)` is counted among its neighbours.
pub proof fn lemma_adjacent_mine_counted(g: Seq<Seq<Cell>>, i: int, j: int, a: int, b: int)
    requires
        in_grid(g, a, b),
        g[a][b].is_mine,
        adjacent(i, j, a, b),
    ensures
        mine_neighbours(g, i, j) >= 1,
{
    assert(mine_at(g, a, b) == 1);
}

} // verus!
