//! What a flood reveal opens: every covered, unflagged cell reachable from
//! the starting cell through covered, unflagged, mine-free cells that have
//! no neighbouring mines.

use vstd::prelude::*;
use crate::cell::{Cell, CellState};
use crate::grid::{
    adjacent, block_dc, block_dr, flagged_total, in_grid, is_flag, is_mine_cell, is_open,
    lemma_adjacent_mine_counted, lemma_count_cell_update, lemma_count_grid_mono,
    lemma_count_grid_mono_strict, lemma_count_grid_same, mine_neighbours, mine_total, numbers_correct,
    revealed_total, same_layout, same_mines, same_shape,
};

verus! {

/// Hidden or questioned: a cell the flood may open.
pub open spec fn eligible(c: Cell) -> bool {
    c.state == CellState::Hidden || c.state == CellState::Questioned
}

/// An eligible, mine-free cell with no neighbouring mines: the flood goes on from it.
pub open spec fn opener(c: Cell) -> bool {
    eligible(c) && !c.is_mine && c.adjacent_mines == 0
}

/// Steps `k` and `k + 1` of the path touch.
pub open spec fn path_link(p: Seq<(int, int)>, k: int) -> bool {
    adjacent(p[k].0, p[k].1, p[k + 1].0, p[k + 1].1)
}

/// Step `k` of the path is a cell of `g`; inner steps are openers, the last is eligible.
pub open spec fn path_cell_ok(g: Seq<Seq<Cell>>, p: Seq<(int, int)>, k: int) -> bool {
    &&& in_grid(g, p[k].0, p[k].1)
    &&& k < p.len() - 1 ==> opener(g[p[k].0][p[k].1])
    &&& k == p.len() - 1 ==> eligible(g[p[k].0][p[k].1])
}

/// `p` leads from `(r, c)` through openers of `g` to an eligible cell.
pub open spec fn flood_path(g: Seq<Seq<Cell>>, r: int, c: int, p: Seq<(int, int)>) -> bool {
    &&& p.len() >= 2
    &&& p[0] == (r, c)
    &&& forall|k: int| 0 <= k < p.len() - 1 ==> #[trigger] path_link(p, k)
    &&& forall|k: int| 1 <= k < p.len() ==> #[trigger] path_cell_ok(g, p, k)
}

/// The flood started at `(r, c)` reaches `(i, j)`.
pub open spec fn in_flood(g: Seq<Seq<Cell>>, r: int, c: int, i: int, j: int) -> bool {
    exists|p: Seq<(int, int)>| #[trigger] flood_path(g, r, c, p) && p.last() == (i, j)
}

/// `g` after the flood from `(r, c)`: the cells it reaches are revealed.
pub open spec fn flooded(g: Seq<Seq<Cell>>, r: int, c: int) -> Seq<Seq<Cell>> {
    Seq::new(
        g.len(),
        |i: int|
            Seq::new(
                g[i].len(),
                |j: int|
                    if in_flood(g, r, c, i, j) {
                        g[i][j].after_reveal()
                    } else {
                        g[i][j]
                    },
            ),
    )
}

pub open spec fn opened(g: Seq<Seq<Cell>>, i: int, j: int) -> bool {
    g[i][j].state == CellState::Revealed
}

/// Every cell of `g` that differs from `g0` is a cell of the flood from `(r, c)`,
/// now revealed.
pub open spec fn progress(g0: Seq<Seq<Cell>>, g: Seq<Seq<Cell>>, r: int, c: int) -> bool {
    &&& same_shape(g0, g)
    &&& forall|i: int, j: int|
        in_grid(g0, i, j) && #[trigger] g[i][j] != g0[i][j] ==> in_flood(g0, r, c, i, j) && g[i][j]
            == g0[i][j].after_reveal()
}

/// Every neighbour of `(i, j)` that was eligible in `g0` is revealed in `g`.
pub open spec fn spreads(g0: Seq<Seq<Cell>>, g: Seq<Seq<Cell>>, i: int, j: int) -> bool {
    forall|a: int, b: int|
        in_grid(g0, a, b) && adjacent(i, j, a, b) && eligible(g0[a][b]) ==> #[trigger] opened(
            g,
            a,
            b,
        )
}

/// A cell whose neighbours the flood must open: the start, or an opener it has revealed.
pub open spec fn source(g0: Seq<Seq<Cell>>, g: Seq<Seq<Cell>>, r: int, c: int, i: int, j: int) -> bool {
    (i == r && j == c) || (g[i][j] != g0[i][j] && opener(g0[i][j]))
}

pub open spec fn stack_has(s: Seq<(isize, isize)>, i: int, j: int) -> bool {
    exists|k: int| 0 <= k < s.len() && s[k].0 == i && s[k].1 == j
}

/// Every entry of the work stack is a source inside the grid.
pub open spec fn stack_ok(
    g0: Seq<Seq<Cell>>,
    g: Seq<Seq<Cell>>,
    r: int,
    c: int,
    s: Seq<(isize, isize)>,
) -> bool {
    forall|k: int|
        0 <= k < s.len() ==> in_grid(g0, #[trigger] s[k].0 as int, s[k].1 as int) && source(
            g0,
            g,
            r,
            c,
            s[k].0 as int,
            s[k].1 as int,
        )
}

/// Every source is waiting on the stack or has already spread.
pub open spec fn pending_ok(
    g0: Seq<Seq<Cell>>,
    g: Seq<Seq<Cell>>,
    r: int,
    c: int,
    s: Seq<(isize, isize)>,
) -> bool {
    forall|i: int, j: int|
        in_grid(g0, i, j) && #[trigger] source(g0, g, r, c, i, j) ==> stack_has(s, i, j) || spreads(
            g0,
            g,
            i,
            j,
        )
}

/// Opening one more cell: the cell `(a, b)` of the flood, still eligible, is revealed.
pub open spec fn open_one(g: Seq<Seq<Cell>>, a: int, b: int) -> Seq<Seq<Cell>> {
    g.update(a, g[a].update(b, g[a][b].after_reveal()))
}

/// A cell that changed under `progress` was eligible and is now revealed.
pub proof fn lemma_changed_cell(g0: Seq<Seq<Cell>>, g: Seq<Seq<Cell>>, r: int, c: int, i: int, j: int)
    requires
        progress(g0, g, r, c),
        in_grid(g0, i, j),
    ensures
        g[i][j] != g0[i][j] ==> eligible(g0[i][j]) && opened(g, i, j) && in_flood(g0, r, c, i, j),
        g[i][j] != g0[i][j] <==> (eligible(g0[i][j]) && opened(g, i, j)),
{
    if g[i][j] != g0[i][j] {
        assert(g[i][j] == g0[i][j].after_reveal());
    }
}

/// A neighbour reached from a source belongs to the flood.
pub proof fn lemma_extend_flood(
    g0: Seq<Seq<Cell>>,
    g: Seq<Seq<Cell>>,
    r: int,
    c: int,
    i: int,
    j: int,
    a: int,
    b: int,
)
    requires
        progress(g0, g, r, c),
        in_grid(g0, r, c),
        in_grid(g0, i, j),
        source(g0, g, r, c, i, j),
        in_grid(g0, a, b),
        adjacent(i, j, a, b),
        eligible(g0[a][b]),
    ensures
        in_flood(g0, r, c, a, b),
{
    if i == r && j == c {
        let p = seq![(r, c), (a, b)];
        assert(path_link(p, 0));
        assert(path_cell_ok(g0, p, 1));
        assert(flood_path(g0, r, c, p));
    } else {
        lemma_changed_cell(g0, g, r, c, i, j);
        let p0 = choose|p: Seq<(int, int)>| #[trigger] flood_path(g0, r, c, p) && p.last() == (i, j);
        let p = p0.push((a, b));
        assert forall|k: int| 0 <= k < p.len() - 1 implies #[trigger] path_link(p, k) by {
            if k < p0.len() - 1 {
                assert(path_link(p0, k));
            }
        }
        assert forall|k: int| 1 <= k < p.len() implies #[trigger] path_cell_ok(g0, p, k) by {
            if k < p0.len() - 1 {
                assert(path_cell_ok(g0, p0, k));
            } else if k == p0.len() - 1 {
                assert(path_cell_ok(g0, p0, k));
            }
        }
        assert(flood_path(g0, r, c, p));
    }
}

/// Under `progress`, the revealed cells of `g` are revealed in the finished flood too.
pub proof fn lemma_progress_below(g0: Seq<Seq<Cell>>, g: Seq<Seq<Cell>>, r: int, c: int)
    requires
        progress(g0, g, r, c),
    ensures
        same_shape(g, flooded(g0, r, c)),
        forall|i: int, j: int|
            in_grid(g, i, j) && #[trigger] is_open(g[i][j]) ==> is_open(flooded(g0, r, c)[i][j]),
{
    let f = flooded(g0, r, c);
    assert forall|i: int, j: int| in_grid(g, i, j) && #[trigger] is_open(g[i][j]) implies is_open(
        f[i][j],
    ) by {
        lemma_changed_cell(g0, g, r, c, i, j);
    }
}

/// The count of revealed cells under `progress` stays below that of the finished
/// flood, strictly while a flood cell is still covered.
pub proof fn lemma_progress_count(g0: Seq<Seq<Cell>>, g: Seq<Seq<Cell>>, r: int, c: int, a: int, b: int)
    requires
        progress(g0, g, r, c),
        in_grid(g0, a, b),
        in_flood(g0, r, c, a, b),
        eligible(g[a][b]),
    ensures
        revealed_total(g) < revealed_total(flooded(g0, r, c)),
{
    lemma_progress_below(g0, g, r, c);
    let f = flooded(g0, r, c);
    lemma_changed_cell(g0, g, r, c, a, b);
    assert(eligible(g0[a][b]));
    assert(is_open(f[a][b]));
    lemma_count_grid_mono_strict(g, f, |x: Cell| is_open(x), a, b);
}

/// Opening an eligible flood cell keeps `progress` and adds one revealed cell.
pub proof fn lemma_open_one(g0: Seq<Seq<Cell>>, g: Seq<Seq<Cell>>, r: int, c: int, a: int, b: int)
    requires
        progress(g0, g, r, c),
        in_grid(g0, a, b),
        in_flood(g0, r, c, a, b),
        eligible(g[a][b]),
    ensures
        progress(g0, open_one(g, a, b), r, c),
        revealed_total(open_one(g, a, b)) == revealed_total(g) + 1,
        g[a][b] == g0[a][b],
        open_one(g, a, b)[a][b] == g0[a][b].after_reveal(),
        forall|i: int, j: int|
            in_grid(g, i, j) && !(i == a && j == b) ==> #[trigger] open_one(g, a, b)[i][j] == g[i][j],
{
    lemma_changed_cell(g0, g, r, c, a, b);
    let g2 = open_one(g, a, b);
    assert forall|i: int, j: int|
        in_grid(g0, i, j) && #[trigger] g2[i][j] != g0[i][j] implies in_flood(g0, r, c, i, j)
        && g2[i][j] == g0[i][j].after_reveal() by {
        if !(i == a && j == b) {
            assert(g2[i][j] == g[i][j]);
        }
    }
    lemma_count_cell_update(g, a, b, g[a][b].after_reveal(), |x: Cell| is_open(x));
}

/// Following a flood path, every step after the start is revealed once every
/// source has spread.
proof fn lemma_path_opened(
    g0: Seq<Seq<Cell>>,
    g: Seq<Seq<Cell>>,
    r: int,
    c: int,
    p: Seq<(int, int)>,
    k: int,
)
    requires
        progress(g0, g, r, c),
        in_grid(g0, r, c),
        flood_path(g0, r, c, p),
        1 <= k < p.len(),
        forall|i: int, j: int| in_grid(g0, i, j) && source(g0, g, r, c, i, j) ==> spreads(g0, g, i, j),
    ensures
        opened(g, p[k].0, p[k].1),
    decreases k,
{
    assert(path_link(p, k - 1));
    assert(path_cell_ok(g0, p, k));
    let (a, b) = p[k];
    assert(eligible(g0[a][b]));
    if k == 1 {
        assert(source(g0, g, r, c, r, c));
        assert(spreads(g0, g, r, c));
        assert(opened(g, a, b));
    } else {
        lemma_path_opened(g0, g, r, c, p, k - 1);
        let (i, j) = p[k - 1];
        assert(path_cell_ok(g0, p, k - 1));
        assert(opener(g0[i][j]));
        assert(g[i][j] != g0[i][j]);
        assert(source(g0, g, r, c, i, j));
        assert(spreads(g0, g, i, j));
        assert(opened(g, a, b));
    }
}

/// Once every source has spread, the grid is exactly the finished flood.
pub proof fn lemma_flood_complete(g0: Seq<Seq<Cell>>, g: Seq<Seq<Cell>>, r: int, c: int)
    requires
        progress(g0, g, r, c),
        in_grid(g0, r, c),
        forall|i: int, j: int| in_grid(g0, i, j) && source(g0, g, r, c, i, j) ==> spreads(g0, g, i, j),
    ensures
        g == flooded(g0, r, c),
{
    let f = flooded(g0, r, c);
    assert forall|i: int| 0 <= i < g.len() implies #[trigger] g[i] =~= f[i] by {
        assert forall|j: int| 0 <= j < g[i].len() implies g[i][j] == f[i][j] by {
            lemma_changed_cell(g0, g, r, c, i, j);
            if in_flood(g0, r, c, i, j) {
                let p = choose|p: Seq<(int, int)>| #[trigger] flood_path(g0, r, c, p) && p.last() == (i, j);
                lemma_path_opened(g0, g, r, c, p, p.len() - 1);
                assert(path_cell_ok(g0, p, p.len() - 1));
                assert(eligible(g0[i][j]));
            }
        }
    }
    assert(g =~= f);
}

/// Neighbour `k` (0..9, row-major, 4 the centre) of `(i, j)` is revealed in `g`
/// if it was eligible in `g0`.
pub open spec fn nb_done(g0: Seq<Seq<Cell>>, g: Seq<Seq<Cell>>, i: int, j: int, k: int) -> bool {
    let a = i + block_dr(k);
    let b = j + block_dc(k);
    (in_grid(g0, a, b) && eligible(g0[a][b])) ==> opened(g, a, b)
}

/// Sources that may be waiting, spread, or be the cell `(r, c)` now being handled.
pub open spec fn pending_except(
    g0: Seq<Seq<Cell>>,
    g: Seq<Seq<Cell>>,
    r0: int,
    c0: int,
    s: Seq<(isize, isize)>,
    r: int,
    c: int,
) -> bool {
    forall|i: int, j: int|
        in_grid(g0, i, j) && #[trigger] source(g0, g, r0, c0, i, j) ==> stack_has(s, i, j) || spreads(
            g0,
            g,
            i,
            j,
        ) || (i == r && j == c)
}

/// All eight neighbours handled: the cell has spread.
pub proof fn lemma_all_neighbours(g0: Seq<Seq<Cell>>, g: Seq<Seq<Cell>>, i: int, j: int)
    requires
        forall|k: int| 0 <= k < 9 && k != 4 ==> #[trigger] nb_done(g0, g, i, j, k),
    ensures
        spreads(g0, g, i, j),
{
    assert forall|a: int, b: int|
        in_grid(g0, a, b) && adjacent(i, j, a, b) && eligible(g0[a][b]) implies #[trigger] opened(
        g,
        a,
        b,
    ) by {
        let k = (a - i + 1) * 3 + (b - j + 1);
        assert(0 <= k < 9 && k != 4);
        assert(block_dr(k) == a - i && block_dc(k) == b - j);
        assert(nb_done(g0, g, i, j, k));
    }
}

/// Taking the top entry off the work stack.
pub proof fn lemma_pop(g0: Seq<Seq<Cell>>, g: Seq<Seq<Cell>>, r0: int, c0: int, s: Seq<(isize, isize)>)
    requires
        s.len() > 0,
        stack_ok(g0, g, r0, c0, s),
        pending_ok(g0, g, r0, c0, s),
    ensures
        stack_ok(g0, g, r0, c0, s.drop_last()),
        in_grid(g0, s.last().0 as int, s.last().1 as int),
        source(g0, g, r0, c0, s.last().0 as int, s.last().1 as int),
        pending_except(g0, g, r0, c0, s.drop_last(), s.last().0 as int, s.last().1 as int),
{
    let t = s.last();
    let s1 = s.drop_last();
    assert(in_grid(g0, s[s.len() - 1].0 as int, s[s.len() - 1].1 as int));
    assert forall|k: int| 0 <= k < s1.len() implies in_grid(g0, #[trigger] s1[k].0 as int, s1[k].1 as int)
        && source(g0, g, r0, c0, s1[k].0 as int, s1[k].1 as int) by {
        assert(s1[k] == s[k]);
        assert(in_grid(g0, s[k].0 as int, s[k].1 as int));
    }
    assert forall|i: int, j: int|
        in_grid(g0, i, j) && #[trigger] source(g0, g, r0, c0, i, j) implies stack_has(s1, i, j) || spreads(
        g0,
        g,
        i,
        j,
    ) || (i == t.0 && j == t.1) by {
        if stack_has(s, i, j) && !spreads(g0, g, i, j) {
            let k = choose|k: int| 0 <= k < s.len() && s[k].0 == i && s[k].1 == j;
            if k < s.len() - 1 {
                assert(s1[k] == s[k]);
            }
        }
    }
}

/// Handled the cell `(r, c)` on top of the stack: back to the full `pending_ok`.
pub proof fn lemma_finish_cell(
    g0: Seq<Seq<Cell>>,
    g: Seq<Seq<Cell>>,
    r0: int,
    c0: int,
    s: Seq<(isize, isize)>,
    r: int,
    c: int,
)
    requires
        pending_except(g0, g, r0, c0, s, r, c),
        spreads(g0, g, r, c),
    ensures
        pending_ok(g0, g, r0, c0, s),
{
}

/// Revealing the eligible flood cell `(a, b)` while handling `(r, c)`, and pushing
/// it when it is an opener, keeps the stack invariants.
pub proof fn lemma_reveal_step(
    g0: Seq<Seq<Cell>>,
    g: Seq<Seq<Cell>>,
    r0: int,
    c0: int,
    s: Seq<(isize, isize)>,
    r: int,
    c: int,
    a: int,
    b: int,
    e: (isize, isize),
)
    requires
        progress(g0, g, r0, c0),
        in_grid(g0, a, b),
        eligible(g[a][b]),
        in_flood(g0, r0, c0, a, b),
        e.0 == a,
        e.1 == b,
        stack_ok(g0, g, r0, c0, s),
        pending_except(g0, g, r0, c0, s, r, c),
    ensures
        ({
            let g2 = open_one(g, a, b);
            let s2 = if opener(g[a][b]) {
                s.push(e)
            } else {
                s
            };
            &&& stack_ok(g0, g2, r0, c0, s2)
            &&& pending_except(g0, g2, r0, c0, s2, r, c)
            &&& forall|i: int, j: int| in_grid(g0, i, j) && opened(g, i, j) ==> #[trigger] opened(g2, i, j)
            &&& opened(g2, a, b)
        }),
{
    lemma_open_one(g0, g, r0, c0, a, b);
    let g2 = open_one(g, a, b);
    let s2 = if opener(g[a][b]) {
        s.push(e)
    } else {
        s
    };
    assert(g[a][b] == g0[a][b]);
    assert forall|i: int, j: int| in_grid(g0, i, j) && opened(g, i, j) implies #[trigger] opened(g2, i, j) by {
        if !(i == a && j == b) {
            assert(g2[i][j] == g[i][j]);
        }
    }
    // sources of g stay sources of g2, and the only new one is (a, b)
    assert forall|i: int, j: int|
        in_grid(g0, i, j) && !(i == a && j == b) implies (#[trigger] source(g0, g2, r0, c0, i, j)
        == source(g0, g, r0, c0, i, j)) by {
        assert(g2[i][j] == g[i][j]);
    }
    assert forall|i: int, j: int| in_grid(g0, i, j) && spreads(g0, g, i, j) implies spreads(
        g0,
        g2,
        i,
        j,
    ) by {
        assert forall|x: int, y: int|
            in_grid(g0, x, y) && adjacent(i, j, x, y) && eligible(g0[x][y]) implies #[trigger] opened(
            g2,
            x,
            y,
        ) by {
            assert(opened(g, x, y));
        }
    }
    assert forall|i: int, j: int| stack_has(s, i, j) implies stack_has(s2, i, j) by {
        let k = choose|k: int| 0 <= k < s.len() && s[k].0 == i && s[k].1 == j;
        assert(s2[k] == s[k]);
    }
    assert forall|k: int| 0 <= k < s2.len() implies in_grid(g0, #[trigger] s2[k].0 as int, s2[k].1 as int)
        && source(g0, g2, r0, c0, s2[k].0 as int, s2[k].1 as int) by {
        if k < s.len() {
            assert(s2[k] == s[k]);
            assert(in_grid(g0, s[k].0 as int, s[k].1 as int) && source(g0, g, r0, c0, s[k].0 as int, s[k].1 as int));
            if !(s[k].0 == a && s[k].1 == b) {
                assert(source(g0, g2, r0, c0, s[k].0 as int, s[k].1 as int));
            } else {
                if !(a == r0 && b == c0) {
                    assert(g[a][b] != g0[a][b]);
                }
            }
        } else {
            assert(s2[k] == e);
            assert(g2[a][b] != g0[a][b]);
        }
    }
    assert forall|i: int, j: int|
        in_grid(g0, i, j) && #[trigger] source(g0, g2, r0, c0, i, j) implies stack_has(s2, i, j) || spreads(
        g0,
        g2,
        i,
        j,
    ) || (i == r && j == c) by {
        if i == a && j == b {
            if opener(g[a][b]) {
                assert(s2[s.len() as int] == e);
            } else {
                assert(source(g0, g, r0, c0, i, j));
            }
        } else {
            assert(source(g0, g, r0, c0, i, j));
        }
    }
}

/// A covered cell once revealed by the player: opened unless flagged, and
/// exploded when it holds a mine.
pub open spec fn exposed(x: Cell) -> Cell {
    Cell { is_exploded: x.is_exploded || x.is_mine, ..x.after_reveal() }
}

/// The grid right after the player's cell at `(r, c)` is exposed.
pub open spec fn first_step(g: Seq<Seq<Cell>>, r: int, c: int) -> Seq<Seq<Cell>> {
    g.update(r, g[r].update(c, exposed(g[r][c])))
}

/// The grid after revealing `(r, c)`: the cell is exposed, and when it is mine-free
/// with no neighbouring mines the flood from it follows.
pub open spec fn reveal_outcome(g: Seq<Seq<Cell>>, r: int, c: int) -> Seq<Seq<Cell>> {
    if !g[r][c].is_mine && g[r][c].adjacent_mines == 0 {
        flooded(first_step(g, r, c), r, c)
    } else {
        first_step(g, r, c)
    }
}

/// How many cells the flood after revealing `(r, c)` opens.
pub open spec fn flood_gain(g: Seq<Seq<Cell>>, r: int, c: int) -> int {
    revealed_total(reveal_outcome(g, r, c)) - revealed_total(first_step(g, r, c))
}

/// The flood never closes a cell: it opens at least as many as it started with.
pub proof fn lemma_flood_gain_nonneg(g: Seq<Seq<Cell>>, r: int, c: int)
    ensures
        revealed_total(g) <= revealed_total(flooded(g, r, c)),
{
    lemma_progress_below(g, g, r, c);
    lemma_count_grid_mono(g, flooded(g, r, c), |x: Cell| is_open(x));
}

/// The flood only opens cells: mines and numbers stay where they are.
pub proof fn lemma_flooded_layout(g: Seq<Seq<Cell>>, r: int, c: int)
    ensures
        same_layout(g, flooded(g, r, c)),
{
}

/// Revealing only opens and explodes cells: mines and numbers stay where they are.
pub proof fn lemma_reveal_layout(g: Seq<Seq<Cell>>, r: int, c: int)
    requires
        in_grid(g, r, c),
    ensures
        same_layout(g, reveal_outcome(g, r, c)),
        mine_total(reveal_outcome(g, r, c)) == mine_total(g),
{
    let g1 = first_step(g, r, c);
    assert(same_layout(g, g1));
    lemma_flooded_layout(g1, r, c);
    let o = reveal_outcome(g, r, c);
    assert(same_layout(g, o));
    lemma_count_grid_same(g, o, |x: Cell| is_mine_cell(x));
}

/// Revealing opens cells and keeps them open; a flag keeps its cell flagged and
/// no other cell gains or loses one unless the revealed cell itself was flagged.
pub proof fn lemma_reveal_monotone(g: Seq<Seq<Cell>>, r: int, c: int)
    requires
        in_grid(g, r, c),
    ensures
        same_layout(g, reveal_outcome(g, r, c)),
        forall|i: int, j: int|
            in_grid(g, i, j) && is_open(g[i][j]) ==> #[trigger] is_open(reveal_outcome(g, r, c)[i][j]),
        forall|i: int, j: int|
            in_grid(g, i, j) && is_flag(g[i][j]) ==> #[trigger] is_flag(reveal_outcome(g, r, c)[i][j]),
        g[r][c].state != CellState::Flagged ==> forall|i: int, j: int|
            in_grid(g, i, j) ==> #[trigger] is_flag(reveal_outcome(g, r, c)[i][j]) == is_flag(g[i][j]),
        g[r][c].state != CellState::Flagged ==> is_open(reveal_outcome(g, r, c)[r][c]),
{
    lemma_reveal_layout(g, r, c);
}

/// With correct numbers, revealing a cell opens no mine other than the cell itself.
pub proof fn lemma_reveal_spares_mines(g: Seq<Seq<Cell>>, r: int, c: int)
    requires
        in_grid(g, r, c),
        numbers_correct(g),
    ensures
        forall|i: int, j: int|
            in_grid(g, i, j) && !(i == r && j == c) && #[trigger] reveal_outcome(g, r, c)[i][j].is_mine
                && is_open(reveal_outcome(g, r, c)[i][j]) ==> is_open(g[i][j]),
{
    let o = reveal_outcome(g, r, c);
    let g1 = first_step(g, r, c);
    assert forall|i: int, j: int|
        in_grid(g, i, j) && !(i == r && j == c) && #[trigger] o[i][j].is_mine && is_open(o[i][j]) implies is_open(
        g[i][j],
    ) by {
        assert(g1[i][j] == g[i][j]);
        if !g[r][c].is_mine && g[r][c].adjacent_mines == 0 && in_flood(g1, r, c, i, j) && !is_open(g[i][j]) {
            let p = choose|p: Seq<(int, int)>| #[trigger] flood_path(g1, r, c, p) && p.last() == (i, j);
            let n = p.len() - 1;
            assert(path_link(p, n - 1));
            assert(path_cell_ok(g1, p, n));
            let (a, b) = p[n - 1];
            assert(same_mines(g, g1));
            if n - 1 == 0 {
                assert(a == r && b == c);
            } else {
                assert(path_cell_ok(g1, p, n - 1));
            }
            assert(in_grid(g, a, b));
            assert(!g[a][b].is_mine && g[a][b].adjacent_mines == 0);
            assert(g[i][j].is_mine);
            lemma_adjacent_mine_counted(g, a, b, i, j);
            assert(g[a][b].adjacent_mines == mine_neighbours(g, a, b));
        }
    }
}

/// Revealing a covered, unflagged cell adds the cell and the flood to the revealed
/// cells and leaves the flags alone.
pub proof fn lemma_reveal_counts(g: Seq<Seq<Cell>>, r: int, c: int)
    requires
        in_grid(g, r, c),
        g[r][c].covered(),
        g[r][c].state != CellState::Flagged,
    ensures
        revealed_total(g) + 1 + flood_gain(g, r, c) == revealed_total(reveal_outcome(g, r, c)),
        flagged_total(reveal_outcome(g, r, c)) == flagged_total(g),
{
    lemma_count_cell_update(g, r, c, exposed(g[r][c]), |x: Cell| is_open(x));
    lemma_reveal_monotone(g, r, c);
    lemma_count_grid_same(g, reveal_outcome(g, r, c), |x: Cell| is_flag(x));
}

/// The finished flood from `(r, c)` has made progress from where it started.
pub proof fn lemma_flooded_progress(g0: Seq<Seq<Cell>>, r: int, c: int)
    ensures
        progress(g0, flooded(g0, r, c), r, c),
{
    let f = flooded(g0, r, c);
    assert forall|i: int, j: int|
        in_grid(g0, i, j) && #[trigger] f[i][j] != g0[i][j] implies in_flood(g0, r, c, i, j) && f[i][j]
        == g0[i][j].after_reveal() by {
    }
}

/// In the flood that follows exposing the hidden or question-marked cell `(r, c)`,
/// an opened cell that was hidden or question-marked, mine-free and without
/// neighbouring mines has every hidden or question-marked neighbour opened too.
pub proof fn lemma_flood_closed(g: Seq<Seq<Cell>>, r: int, c: int, i: int, j: int, a: int, b: int)
    requires
        in_grid(g, r, c),
        eligible(g[r][c]),
        in_grid(g, i, j),
        in_grid(g, a, b),
        adjacent(i, j, a, b),
        opener(g[i][j]),
        opened(flooded(first_step(g, r, c), r, c), i, j),
        eligible(g[a][b]),
    ensures
        opened(flooded(first_step(g, r, c), r, c), a, b),
{
    let g1 = first_step(g, r, c);
    let f = flooded(g1, r, c);
    assert(in_grid(g1, r, c) && in_grid(g1, i, j) && in_grid(g1, a, b));
    assert(g1[r][c].state == CellState::Revealed);
    if !(a == r && b == c) {
        assert(g1[a][b] == g[a][b]);
        if !(i == r && j == c) {
            assert(g1[i][j] == g[i][j]);
            assert(f[i][j] != g1[i][j]);
        }
        lemma_flooded_progress(g1, r, c);
        lemma_extend_flood(g1, f, r, c, i, j, a, b);
    }
}

/// At the start nothing has changed.
pub proof fn lemma_progress_start(g0: Seq<Seq<Cell>>, r: int, c: int)
    ensures
        progress(g0, g0, r, c),
{
}

} // verus!
