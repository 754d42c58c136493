use vstd::prelude::*;
use crate::cell::{lemma_toggle_flag_twice, Cell, CellState};
use crate::flood::{
    eligible, first_step, flood_gain, flooded, lemma_all_neighbours, lemma_flood_closed, lemma_changed_cell, lemma_extend_flood,
    lemma_finish_cell, lemma_flood_complete, lemma_flood_gain_nonneg, lemma_open_one, lemma_pop,
    lemma_progress_count, lemma_progress_start, lemma_reveal_counts, lemma_reveal_monotone,
    lemma_reveal_spares_mines, lemma_reveal_step, nb_done, open_one, pending_except, pending_ok,
    progress, reveal_outcome, stack_has, stack_ok,
};
use crate::grid::{
    adjacent, flagged_total, in_grid, is_flag, is_mine_cell, is_open, lemma_count_cell_update,
    lemma_count_grid_bound, lemma_count_grid_complement, lemma_count_grid_implies,
    lemma_count_grid_none, lemma_count_grid_same, lemma_mines_shown_cells, lemma_block_sum, lemma_neighbours_bound,
    lemma_neighbours_same, lemma_numbered, lemma_numbers_kept, mine_neighbours, mine_total,
    mines_in_block, mines_shown, numbered, numbers_correct, rectangular, revealed_total, same_layout,
    same_mines, same_shape, with_cell,
};
use crate::random::{choose_candidate, choose_positions, thread_rng};

verus! {

/// The minefield: `height` rows of `width` cells, with the number of mines it
/// was made with and counters of flags and reveals.
#[derive(Debug)]
pub struct Board {
    pub width: usize,
    pub height: usize,
    pub cells: Vec<Vec<Cell>>,
    pub mine_count: usize,
    pub flag_count: usize,
    pub revealed_count: usize,
}

impl Clone for Board {
    /// A copy with the same cells and counters.
    fn clone(&self) -> (b: Self)
        ensures
            b.width == self.width,
            b.height == self.height,
            b.mine_count == self.mine_count,
            b.flag_count == self.flag_count,
            b.revealed_count == self.revealed_count,
            b.grid() == self.grid(),
            b.wf() == self.wf(),
    {
        let mut cells: Vec<Vec<Cell>> = Vec::new();
        let mut i: usize = 0;
        while i < self.cells.len()
            invariant
                i <= self.cells@.len(),
                cells@.len() == i,
                forall|a: int| 0 <= a < i ==> (#[trigger] cells@[a])@ == self.cells@[a]@,
            decreases self.cells@.len() - i,
        {
            let mut row: Vec<Cell> = Vec::new();
            let mut j: usize = 0;
            while j < self.cells[i].len()
                invariant
                    i < self.cells@.len(),
                    j <= self.cells@[i as int]@.len(),
                    row@ == self.cells@[i as int]@.subrange(0, j as int),
                decreases self.cells@[i as int]@.len() - j,
            {
                row.push(self.cells[i][j]);
                j += 1;
                assert(row@ =~= self.cells@[i as int]@.subrange(0, j as int));
            }
            assert(row@ =~= self.cells@[i as int]@);
            cells.push(row);
            i += 1;
        }
        let b = Board {
            width: self.width,
            height: self.height,
            cells,
            mine_count: self.mine_count,
            flag_count: self.flag_count,
            revealed_count: self.revealed_count,
        };
        assert forall|a: int| 0 <= a < self.cells@.len() implies #[trigger] b.cells@[a]@ == self.cells@[a]@ by {
            assert(cells@[a]@ == self.cells@[a]@);
        }
        assert(b.grid() =~= self.grid());
        proof {
            if self.wf() {
                assert forall|a: int| 0 <= a < b.height implies #[trigger] b.cells@[a]@.len() == b.width by {
                    assert(b.cells@[a]@ == self.cells@[a]@);
                }
            }
            if b.wf() {
                assert forall|a: int| 0 <= a < self.height implies #[trigger] self.cells@[a]@.len() == self.width by {
                    assert(b.cells@[a]@ == self.cells@[a]@);
                }
            }
        }
        b
    }
}

/// `ps` holds distinct cell indices below `n`.
pub open spec fn distinct_below(ps: Seq<usize>, n: int) -> bool {
    &&& forall|k: int| 0 <= k < ps.len() ==> #[trigger] ps[k] < n
    &&& forall|k1: int, k2: int|
        0 <= k1 < ps.len() && 0 <= k2 < ps.len() && k1 != k2 ==> #[trigger] ps[k1] != #[trigger] ps[k2]
}

/// Index `n` (row-major) occurs in `ps`.
pub open spec fn holds_index(ps: Seq<usize>, n: int) -> bool {
    exists|k: int| 0 <= k < ps.len() && ps[k] == n
}

/// A `height` x `width` grid of fresh cells with mines at the row-major indices in `ps`.
pub open spec fn laid_out(width: int, height: int, ps: Seq<usize>) -> Seq<Seq<Cell>> {
    Seq::new(
        height as nat,
        |i: int| Seq::new(width as nat, |j: int| Cell { is_mine: holds_index(ps, i * width + j), ..Cell::fresh() }),
    )
}

/// Row and column of the row-major index `pos` on a board `w` cells wide.
proof fn lemma_index_split(pos: int, w: int, h: int)
    requires
        0 <= pos < w * h,
        w > 0,
    ensures
        0 <= pos / w < h,
        0 <= pos % w < w,
        (pos / w) * w + pos % w == pos,
        forall|i: int, j: int| 0 <= j < w && #[trigger] (i * w + j) == pos ==> i == pos / w && j == pos % w,
{
    vstd::arithmetic::div_mod::lemma_fundamental_div_mod(pos, w);
    vstd::arithmetic::div_mod::lemma_mod_bound(pos, w);
    vstd::arithmetic::div_mod::lemma_div_pos_is_pos(pos, w);
    if pos / w >= h {
        vstd::arithmetic::mul::lemma_mul_inequality(h, pos / w, w);
        assert(w * (pos / w) == (pos / w) * w) by (nonlinear_arith);
        assert(h * w == w * h) by (nonlinear_arith);
    }
    assert((pos / w) * w == w * (pos / w)) by (nonlinear_arith);
    assert forall|i: int, j: int| 0 <= j < w && #[trigger] (i * w + j) == pos implies i == pos / w && j
        == pos % w by {
        vstd::arithmetic::div_mod::lemma_fundamental_div_mod_converse(pos, w, i, j);
    }
}

/// `(i, j)` is a mine-free cell of `g` other than `(row, col)`: a place the mine
/// under a first click may move to.
pub open spec fn candidate(g: Seq<Seq<Cell>>, row: int, col: int, i: int, j: int) -> bool {
    in_grid(g, i, j) && !(i == row && j == col) && !g[i][j].is_mine
}

/// `g` with the mine at `(row, col)` moved to `(i, j)` and the numbers recomputed.
pub open spec fn moved_mine(g: Seq<Seq<Cell>>, row: int, col: int, i: int, j: int) -> Seq<Seq<Cell>> {
    let cleared = with_cell(g, row, col, Cell { is_mine: false, ..g[row][col] });
    numbered(with_cell(cleared, i, j, Cell { is_mine: true, ..cleared[i][j] }))
}

/// `choice` is a valid outcome of picking where the mine at `(row, col)` goes:
/// one of the candidates, or none when there is none.
pub open spec fn choice_ok(g: Seq<Seq<Cell>>, row: int, col: int, choice: Option<(usize, usize)>) -> bool {
    match choice {
        Some(t) => candidate(g, row, col, t.0 as int, t.1 as int),
        None => forall|i: int, j: int| !#[trigger] candidate(g, row, col, i, j),
    }
}

/// The grid a first click at `(row, col)` reveals: the mine there, if any, moved
/// to `choice` when there is one.
pub open spec fn relocated(g: Seq<Seq<Cell>>, row: int, col: int, choice: Option<(usize, usize)>) -> Seq<Seq<Cell>> {
    if g[row][col].is_mine {
        match choice {
            Some(t) => moved_mine(g, row, col, t.0 as int, t.1 as int),
            None => g,
        }
    } else {
        g
    }
}

/// Moving the mine keeps the number of mines, clears the clicked cell, and numbers
/// every mine-free cell correctly.
pub proof fn lemma_moved_mine(g: Seq<Seq<Cell>>, row: int, col: int, i: int, j: int)
    requires
        in_grid(g, row, col),
        g[row][col].is_mine,
        candidate(g, row, col, i, j),
    ensures
        same_shape(g, moved_mine(g, row, col, i, j)),
        mine_total(moved_mine(g, row, col, i, j)) == mine_total(g),
        numbers_correct(moved_mine(g, row, col, i, j)),
        !moved_mine(g, row, col, i, j)[row][col].is_mine,
        moved_mine(g, row, col, i, j)[row][col].state == g[row][col].state,
        moved_mine(g, row, col, i, j)[row][col].is_exploded == g[row][col].is_exploded,
{
    let cleared = with_cell(g, row, col, Cell { is_mine: false, ..g[row][col] });
    let placed = with_cell(cleared, i, j, Cell { is_mine: true, ..cleared[i][j] });
    lemma_count_cell_update(g, row, col, Cell { is_mine: false, ..g[row][col] }, |x: Cell| is_mine_cell(x));
    lemma_count_cell_update(cleared, i, j, Cell { is_mine: true, ..cleared[i][j] }, |x: Cell| is_mine_cell(x));
    lemma_numbered(placed);
}

/// Where the first click's mine goes keeps the number of mines and correct numbers.
pub proof fn lemma_relocated(g: Seq<Seq<Cell>>, row: int, col: int, choice: Option<(usize, usize)>)
    requires
        in_grid(g, row, col),
        g[row][col].is_mine ==> choice_ok(g, row, col, choice),
    ensures
        same_shape(g, relocated(g, row, col, choice)),
        mine_total(relocated(g, row, col, choice)) == mine_total(g),
        numbers_correct(g) ==> numbers_correct(relocated(g, row, col, choice)),
        relocated(g, row, col, choice)[row][col].is_mine ==> forall|i: int, j: int|
            in_grid(g, i, j) ==> #[trigger] g[i][j].is_mine,
        relocated(g, row, col, choice)[row][col].state == g[row][col].state,
{
    if g[row][col].is_mine {
        match choice {
            Some(t) => {
                lemma_moved_mine(g, row, col, t.0 as int, t.1 as int);
            },
            None => {
                assert forall|i: int, j: int| in_grid(g, i, j) implies #[trigger] g[i][j].is_mine by {
                    assert(!candidate(g, row, col, i, j));
                }
            },
        }
    }
}

/// Toggling the flag twice at the same cell, unless it is questioned, restores the
/// cells and the flag counter.
pub proof fn lemma_flag_toggle_twice(b: Board, mid: Board, post: Board, row: int, col: int)
    requires
        b.wf(),
        b.flag_toggled(mid, row, col),
        mid.flag_toggled(post, row, col),
        !(b.on_board(row, col) && b.grid()[row][col].state == CellState::Questioned),
    ensures
        post.grid() == b.grid(),
        post.flag_count == b.flag_count,
        post.revealed_count == b.revealed_count,
{
    b.lemma_wf_grid();
    if b.on_board(row, col) && b.grid()[row][col].covered() {
        let g = b.grid();
        let x = g[row][col];
        lemma_toggle_flag_twice(x);
        assert(mid.grid()[row][col] == x.after_toggle_flag());
        assert(post.grid() =~~= g);
    }
}

/// Flags and question marks never move mines or change numbers.
pub proof fn lemma_marks_keep_layout(b: Board, post: Board, row: int, col: int)
    requires
        b.wf(),
        b.flag_toggled(post, row, col) || b.question_toggled(post, row, col),
    ensures
        same_layout(b.grid(), post.grid()),
{
    b.lemma_wf_grid();
}

/// The counters of a new board agree with its cells: nothing revealed or flagged.
pub proof fn lemma_new_board_counters(b: Board, width: int, height: int, mine_count: int)
    requires
        b.is_new_board(width, height, mine_count),
    ensures
        b.counters_match(),
{
    b.lemma_wf_grid();
    lemma_count_grid_none(b.grid(), |x: Cell| is_open(x));
    lemma_count_grid_none(b.grid(), |x: Cell| is_flag(x));
}

/// Victory as the counters tell it is victory on the board: while the counters
/// agree with the cells, the board holds `mine_count` mines and no mine is
/// revealed, the reveal counter reaches the number of mine-free cells exactly when
/// every mine-free cell is revealed.
pub proof fn lemma_victory_means_cleared(b: Board)
    requires
        b.wf(),
        b.counters_match(),
        mine_total(b.grid()) == b.mine_count,
        forall|i: int, j: int|
            b.on_board(i, j) && #[trigger] b.grid()[i][j].state == CellState::Revealed ==> !b.grid()[i][j].is_mine,
    ensures
        (b.revealed_count == b.width * b.height - b.mine_count) <==> (forall|i: int, j: int|
            b.on_board(i, j) && !#[trigger] b.grid()[i][j].is_mine ==> b.grid()[i][j].state
                == CellState::Revealed),
{
    let g = b.grid();
    let w = b.width as int;
    b.lemma_wf_grid();
    let safe = |x: Cell| !is_mine_cell(x);
    let open = |x: Cell| is_open(x);
    lemma_count_grid_complement(g, |x: Cell| is_mine_cell(x), safe, w);
    assert(g.len() * w == b.width * b.height) by (nonlinear_arith)
        requires
            g.len() == b.height,
            w == b.width,
    ;
    assert forall|i: int, j: int| in_grid(g, i, j) && #[trigger] open(g[i][j]) implies safe(g[i][j]) by {
        assert(b.grid()[i][j].state == CellState::Revealed);
    }
    lemma_count_grid_implies(g, open, safe);
    if forall|i: int, j: int| b.on_board(i, j) && !#[trigger] g[i][j].is_mine ==> g[i][j].state
        == CellState::Revealed {
        assert forall|i: int, j: int| in_grid(g, i, j) && #[trigger] safe(g[i][j]) implies open(g[i][j]) by {
            assert(!g[i][j].is_mine);
        }
        lemma_count_grid_implies(g, safe, open);
    }
    if b.revealed_count == b.width * b.height - b.mine_count {
        assert forall|i: int, j: int| b.on_board(i, j) && !#[trigger] g[i][j].is_mine implies g[i][j].state
            == CellState::Revealed by {
            assert(safe(g[i][j]));
        }
    }
}

/// A first click at `(row, col)` overflows no counter, wherever the mine goes.
pub open spec fn first_reveal_fits(g: Seq<Seq<Cell>>, flags: int, reveals: int, row: int, col: int) -> bool {
    if g[row][col].is_mine {
        &&& forall|i: int, j: int|
            #[trigger] candidate(g, row, col, i, j) ==> reveal_fits_on(
                moved_mine(g, row, col, i, j),
                flags,
                reveals,
                row,
                col,
            )
        &&& (forall|i: int, j: int| !#[trigger] candidate(g, row, col, i, j)) ==> reveal_fits_on(
            g,
            flags,
            reveals,
            row,
            col,
        )
    } else {
        reveal_fits_on(g, flags, reveals, row, col)
    }
}

/// Revealing a cell that is hidden or question-marked, holds no mine and has no
/// neighbouring mines floods: nothing explodes, the board becomes the flood from
/// the cell, the cell is opened, and every opened cell that was hidden or
/// question-marked, mine-free and without neighbouring mines has each of its
/// hidden or question-marked neighbours opened as well.
pub proof fn lemma_reveal_floods(b: Board, post: Board, row: int, col: int, exploded: bool)
    requires
        b.wf(),
        b.on_board(row, col),
        b.reveal_done(post, row, col, exploded),
        b.grid()[row][col].state == CellState::Hidden || b.grid()[row][col].state
            == CellState::Questioned,
        !b.grid()[row][col].is_mine,
        b.grid()[row][col].adjacent_mines == 0,
    ensures
        !exploded,
        post.grid() == flooded(first_step(b.grid(), row, col), row, col),
        post.grid()[row][col].state == CellState::Revealed,
        forall|i: int, j: int, a: int, c: int|
            b.on_board(i, j) && b.on_board(a, c) && adjacent(i, j, a, c) && eligible(b.grid()[i][j])
                && !b.grid()[i][j].is_mine && b.grid()[i][j].adjacent_mines == 0
                && #[trigger] post.grid()[i][j].state == CellState::Revealed && eligible(
                #[trigger] b.grid()[a][c],
            ) ==> post.grid()[a][c].state == CellState::Revealed,
{
    b.lemma_wf_grid();
    let g = b.grid();
    let g1 = first_step(g, row, col);
    assert(post.grid() == flooded(g1, row, col));
    assert(g1[row][col].state == CellState::Revealed);
    assert(post.grid()[row][col].state == CellState::Revealed);
    assert forall|i: int, j: int, a: int, c: int|
        b.on_board(i, j) && b.on_board(a, c) && adjacent(i, j, a, c) && eligible(g[i][j])
            && !g[i][j].is_mine && g[i][j].adjacent_mines == 0
            && #[trigger] post.grid()[i][j].state == CellState::Revealed && eligible(
            #[trigger] g[a][c],
        ) implies post.grid()[a][c].state == CellState::Revealed by {
        lemma_flood_closed(g, row, col, i, j, a, c);
    }
}

/// Revealing `(row, col)` of a grid `g` with the given counters overflows no counter.
pub open spec fn reveal_fits_on(g: Seq<Seq<Cell>>, flags: int, reveals: int, row: int, col: int) -> bool {
    (in_grid(g, row, col) && g[row][col].covered()) ==> {
        &&& g[row][col].state == CellState::Flagged ==> flags > 0
        &&& reveals + 1 + flood_gain(g, row, col) <= usize::MAX
    }
}

/// `post` is the board that revealing `(row, col)` of a board with grid `g` and
/// the given counters leaves, and `exploded` what the reveal returns.
pub open spec fn reveal_done_on(
    g: Seq<Seq<Cell>>,
    flags: int,
    reveals: int,
    post: Board,
    row: int,
    col: int,
    exploded: bool,
) -> bool {
    if in_grid(g, row, col) && g[row][col].covered() {
        &&& post.grid() == reveal_outcome(g, row, col)
        &&& post.flag_count == if g[row][col].state == CellState::Flagged {
            flags - 1
        } else {
            flags
        }
        &&& post.revealed_count == reveals + 1 + flood_gain(g, row, col)
        &&& exploded == g[row][col].is_mine
    } else {
        &&& post.grid() == g
        &&& post.flag_count == flags
        &&& post.revealed_count == reveals
        &&& !exploded
    }
}

impl Board {
    /// The cells as rows of values.
    pub open spec fn grid(self) -> Seq<Seq<Cell>> {
        self.cells@.map_values(|row: Vec<Cell>| row@)
    }

    /// `height` rows of `width` cells, small enough to be held in memory.
    pub open spec fn wf(self) -> bool {
        &&& self.cells@.len() == self.height
        &&& forall|i: int| 0 <= i < self.height ==> #[trigger] self.cells@[i]@.len() == self.width
        &&& self.height <= isize::MAX
        &&& self.width <= isize::MAX
        &&& self.width * self.height <= isize::MAX
    }

    /// `(row, col)` is a cell of the board.
    pub open spec fn on_board(self, row: int, col: int) -> bool {
        0 <= row < self.height && 0 <= col < self.width
    }

    pub proof fn lemma_wf_grid(self)
        requires
            self.wf(),
        ensures
            self.grid().len() == self.height,
            rectangular(self.grid(), self.width as int),
            forall|i: int, j: int| in_grid(self.grid(), i, j) <==> self.on_board(i, j),
    {
    }

    /// No flag counter overflow or underflow when toggling the flag at `(row, col)`.
    pub open spec fn flag_toggle_fits(self, row: int, col: int) -> bool {
        (self.on_board(row, col) && self.grid()[row][col].covered()) ==> if self.grid()[row][col].state
            == CellState::Flagged {
            self.flag_count > 0
        } else {
            self.flag_count < usize::MAX
        }
    }

    /// `post` is this board after toggling the flag at `(row, col)`: a covered cell
    /// on the board toggles (see `Cell::after_toggle_flag`) and the flag counter
    /// follows the cell's former state; otherwise nothing changes.
    pub open spec fn flag_toggled(self, post: Board, row: int, col: int) -> bool {
        &&& post.wf() == self.wf()
        &&& post.width == self.width
        &&& post.height == self.height
        &&& post.mine_count == self.mine_count
        &&& post.revealed_count == self.revealed_count
        &&& if self.on_board(row, col) && self.grid()[row][col].covered() {
            let x = self.grid()[row][col];
            &&& post.grid() == with_cell(self.grid(), row, col, x.after_toggle_flag())
            &&& post.flag_count == if x.state == CellState::Flagged {
                self.flag_count - 1
            } else {
                self.flag_count + 1
            }
        } else {
            post == self
        }
    }

    pub fn toggle_flag(&mut self, row: usize, col: usize)
        requires
            old(self).wf(),
            old(self).flag_toggle_fits(row as int, col as int),
        ensures
            final(self).wf(),
            old(self).flag_toggled(*final(self), row as int, col as int),
            old(self).counters_match() && !(old(self).on_board(row as int, col as int)
                && old(self).grid()[row as int][col as int].state == CellState::Questioned)
                ==> final(self).counters_match(),
    {
        if !(row < self.height && col < self.width) {
            return;
        }
        let cell = self.cells[row][col];
        if !cell.is_hidden() {
            return;
        }
        proof {
            let g = self.grid();
            lemma_count_cell_update(g, row as int, col as int, cell.after_toggle_flag(), |x: Cell| is_open(x));
            lemma_count_cell_update(g, row as int, col as int, cell.after_toggle_flag(), |x: Cell| is_flag(x));
        }
        if cell.is_flagged() {
            self.flag_count -= 1;
        } else {
            self.flag_count += 1;
        }
        self.cells[row][col].toggle_flag();
        assert(self.grid() =~~= with_cell(old(self).grid(), row as int, col as int, cell.after_toggle_flag()));
    }

    /// `post` is this board after `toggle_question` at `(row, col)`: a hidden cell
    /// on the board becomes questioned; otherwise nothing changes.
    pub open spec fn question_toggled(self, post: Board, row: int, col: int) -> bool {
        &&& post.wf() == self.wf()
        &&& post.width == self.width
        &&& post.height == self.height
        &&& post.mine_count == self.mine_count
        &&& post.flag_count == self.flag_count
        &&& post.revealed_count == self.revealed_count
        &&& if self.on_board(row, col) && self.grid()[row][col].state == CellState::Hidden {
            post.grid() == with_cell(self.grid(), row, col, self.grid()[row][col].after_toggle_question())
        } else {
            post == self
        }
    }

    pub fn toggle_question(&mut self, row: usize, col: usize)
        requires
            old(self).wf(),
        ensures
            final(self).wf(),
            old(self).question_toggled(*final(self), row as int, col as int),
            old(self).counters_match() ==> final(self).counters_match(),
    {
        if !(row < self.height && col < self.width) {
            return;
        }
        let cell = self.cells[row][col];
        if !matches!(cell.state, CellState::Hidden) {
            return;
        }
        proof {
            let g = self.grid();
            lemma_count_cell_update(g, row as int, col as int, cell.after_toggle_question(), |x: Cell| is_open(x));
            lemma_count_cell_update(g, row as int, col as int, cell.after_toggle_question(), |x: Cell| is_flag(x));
        }
        self.cells[row][col].toggle_question();
        assert(self.grid() =~~= with_cell(old(self).grid(), row as int, col as int, cell.after_toggle_question()));
    }

    pub fn get_cell(&self, row: usize, col: usize) -> (r: Option<&Cell>)
        requires
            self.wf(),
        ensures
            r == if self.on_board(row as int, col as int) {
                Some(&self.grid()[row as int][col as int])
            } else {
                None
            },
    {
        if row >= self.height || col >= self.width {
            None
        } else {
            Some(&self.cells[row][col])
        }
    }

    pub fn total_cells(&self) -> (n: usize)
        requires
            self.width * self.height <= usize::MAX,
        ensures
            n == self.width * self.height,
    {
        self.width * self.height
    }

    pub fn non_mine_cells(&self) -> (n: usize)
        requires
            self.width * self.height <= usize::MAX,
            self.mine_count <= self.width * self.height,
        ensures
            n == self.width * self.height - self.mine_count,
    {
        self.total_cells() - self.mine_count
    }

    /// Every mine-free cell has been revealed, as the counters tell.
    pub fn check_victory(&self) -> (won: bool)
        requires
            self.width * self.height <= usize::MAX,
            self.mine_count <= self.width * self.height,
        ensures
            won == (self.revealed_count == self.width * self.height - self.mine_count),
    {
        self.revealed_count == self.non_mine_cells()
    }

    pub fn reveal_all_mines(&mut self)
        requires
            old(self).wf(),
        ensures
            final(self).wf(),
            final(self).width == old(self).width,
            final(self).height == old(self).height,
            final(self).mine_count == old(self).mine_count,
            final(self).flag_count == old(self).flag_count,
            final(self).revealed_count == old(self).revealed_count,
            final(self).grid() == mines_shown(old(self).grid()),
            forall|i: int, j: int|
                old(self).on_board(i, j) && old(self).grid()[i][j].is_mine && old(self).grid()[i][j].state
                    != CellState::Flagged ==> #[trigger] final(self).grid()[i][j] == (Cell {
                    state: CellState::Revealed,
                    ..old(self).grid()[i][j]
                }),
            forall|i: int, j: int|
                old(self).on_board(i, j) && (!old(self).grid()[i][j].is_mine || old(self).grid()[i][j].state
                    == CellState::Flagged) ==> #[trigger] final(self).grid()[i][j] == old(self).grid()[i][j],
    {
        let ghost g0 = self.grid();
        let ghost target = mines_shown(g0);
        let mut row: usize = 0;
        while row < self.height
            invariant
                self.wf(),
                self.width == old(self).width,
                self.height == old(self).height,
                self.mine_count == old(self).mine_count,
                self.flag_count == old(self).flag_count,
                self.revealed_count == old(self).revealed_count,
                g0 == old(self).grid(),
                g0.len() == self.height,
                rectangular(g0, self.width as int),
                target == mines_shown(g0),
                row <= self.height,
                forall|i: int, j: int|
                    #![trigger self.grid()[i][j]]
                    0 <= i < self.height && 0 <= j < self.width ==> self.grid()[i][j] == if i < row {
                        target[i][j]
                    } else {
                        g0[i][j]
                    },
            decreases self.height - row,
        {
            let mut col: usize = 0;
            while col < self.width
                invariant
                    self.wf(),
                    self.width == old(self).width,
                    self.height == old(self).height,
                    self.mine_count == old(self).mine_count,
                    self.flag_count == old(self).flag_count,
                    self.revealed_count == old(self).revealed_count,
                    g0 == old(self).grid(),
                    g0.len() == self.height,
                    rectangular(g0, self.width as int),
                    target == mines_shown(g0),
                    row < self.height,
                    col <= self.width,
                    forall|i: int, j: int|
                        #![trigger self.grid()[i][j]]
                        0 <= i < self.height && 0 <= j < self.width ==> self.grid()[i][j] == if i < row
                            || (i == row && j < col) {
                            target[i][j]
                        } else {
                            g0[i][j]
                        },
                decreases self.width - col,
            {
                let ghost before = self.grid();
                let cell = self.cells[row][col];
                if cell.is_mine && !cell.is_flagged() {
                    self.cells[row][col].uncover();
                    assert(self.grid() =~~= with_cell(before, row as int, col as int, cell.after_reveal()));
                }
                proof {
                    assert forall|i: int, j: int|
                        0 <= i < self.height && 0 <= j < self.width implies #[trigger] self.grid()[i][j]
                        == if i < row || (i == row && j < col + 1) {
                        target[i][j]
                    } else {
                        g0[i][j]
                    } by {
                        assert(before[i][j] == if i < row || (i == row && j < col) {
                            target[i][j]
                        } else {
                            g0[i][j]
                        });
                    }
                }
                col += 1;
            }
            row += 1;
        }
        assert(self.grid() =~~= target);
        proof {
            old(self).lemma_wf_grid();
            lemma_mines_shown_cells(g0);
        }
    }

    /// A board of fresh cells and zero counters.
    fn empty(width: usize, height: usize, mine_count: usize) -> (b: Board)
        requires
            width <= isize::MAX,
            height <= isize::MAX,
            width * height <= isize::MAX,
        ensures
            b.wf(),
            b.width == width,
            b.height == height,
            b.mine_count == mine_count,
            b.flag_count == 0,
            b.revealed_count == 0,
            b.grid() == laid_out(width as int, height as int, Seq::empty()),
    {
        let mut cells: Vec<Vec<Cell>> = Vec::new();
        let mut i: usize = 0;
        while i < height
            invariant
                i <= height,
                cells@.len() == i,
                forall|a: int| 0 <= a < i ==> (#[trigger] cells@[a])@.len() == width,
                forall|a: int, b: int| 0 <= a < i && 0 <= b < width ==> #[trigger] cells@[a]@[b] == Cell::fresh(),
            decreases height - i,
        {
            let mut row: Vec<Cell> = Vec::new();
            let mut j: usize = 0;
            while j < width
                invariant
                    j <= width,
                    row@.len() == j,
                    forall|b: int| 0 <= b < j ==> #[trigger] row@[b] == Cell::fresh(),
                decreases width - j,
            {
                row.push(Cell::new());
                j += 1;
            }
            cells.push(row);
            i += 1;
        }
        let b = Board { width, height, cells, mine_count, flag_count: 0, revealed_count: 0 };
        assert(b.grid() =~~= laid_out(width as int, height as int, Seq::empty()));
        b
    }

    /// Puts mines at the row-major indices in `positions` on a board without mines.
    fn lay_mines(&mut self, positions: &Vec<usize>)
        requires
            old(self).wf(),
            old(self).grid() == laid_out(old(self).width as int, old(self).height as int, Seq::empty()),
            distinct_below(positions@, old(self).width * old(self).height),
        ensures
            final(self).wf(),
            final(self).width == old(self).width,
            final(self).height == old(self).height,
            final(self).mine_count == old(self).mine_count,
            final(self).flag_count == old(self).flag_count,
            final(self).revealed_count == old(self).revealed_count,
            final(self).grid() == laid_out(old(self).width as int, old(self).height as int, positions@),
            mine_total(final(self).grid()) == positions@.len(),
    {
        let ghost w = self.width as int;
        let ghost h = self.height as int;
        proof {
            self.lemma_wf_grid();
            assert forall|i: int, j: int| in_grid(self.grid(), i, j) implies !#[trigger] is_mine_cell(self.grid()[i][j]) by {}
            assert(positions@.take(0) =~= Seq::<usize>::empty());
            lemma_count_grid_none(self.grid(), |c: Cell| is_mine_cell(c));
        }
        let mut k: usize = 0;
        while k < positions.len()
            invariant
                self.wf(),
                self.width == old(self).width,
                self.height == old(self).height,
                self.mine_count == old(self).mine_count,
                self.flag_count == old(self).flag_count,
                self.revealed_count == old(self).revealed_count,
                w == self.width,
                h == self.height,
                distinct_below(positions@, w * h),
                k <= positions.len(),
                self.grid() == laid_out(w, h, positions@.take(k as int)),
                mine_total(self.grid()) == k,
            decreases positions.len() - k,
        {
            let pos = positions[k];
            proof {
                lemma_index_split(pos as int, w, h);
            }
            let row = pos / self.width;
            let col = pos % self.width;
            let ghost before = self.grid();
            proof {
                self.lemma_wf_grid();
                assert(row * w + col == pos);
                if holds_index(positions@.take(k as int), row * w + col) {
                    let t = choose|t: int| 0 <= t < positions@.take(k as int).len() && #[trigger] positions@.take(k as int)[t] == row * w + col;
                    assert(positions@[t] == positions@[k as int]);
                }
                lemma_count_cell_update(before, row as int, col as int, Cell { is_mine: true, ..before[row as int][col as int] }, |c: Cell| is_mine_cell(c));
            }
            self.cells[row][col].is_mine = true;
            proof {
                assert(self.grid() =~~= with_cell(before, row as int, col as int, Cell { is_mine: true, ..before[row as int][col as int] }));
                let after = laid_out(w, h, positions@.take(k + 1));
                assert forall|i: int| 0 <= i < h implies #[trigger] self.grid()[i] =~= after[i] by {
                    assert forall|j: int| 0 <= j < w implies self.grid()[i][j] == after[i][j] by {
                        let n = i * w + j;
                        if n == pos {
                            assert(i == row && j == col);
                            assert(positions@.take(k + 1)[k as int] == pos);
                        } else {
                            if holds_index(positions@.take(k + 1), n) {
                                let t = choose|t: int| 0 <= t < positions@.take(k + 1).len() && #[trigger] positions@.take(k + 1)[t] == n;
                                assert(t < k);
                                assert(positions@.take(k as int)[t] == positions@.take(k + 1)[t]);
                            }
                            if holds_index(positions@.take(k as int), n) {
                                let t = choose|t: int| 0 <= t < positions@.take(k as int).len() && #[trigger] positions@.take(k as int)[t] == n;
                                assert(positions@.take(k + 1)[t] == positions@.take(k as int)[t]);
                            }
                            assert(!(i == row && j == col));
                        }
                    }
                }
                assert(self.grid() =~= after);
            }
            k += 1;
        }
        assert(positions@.take(positions.len() as int) =~= positions@);
    }

    /// A board with mines exactly at the row-major cell indices in `positions`, every
    /// mine-free cell numbered; `mine_count` is recorded as given.
    pub fn from_mine_positions(width: usize, height: usize, mine_count: usize, positions: &Vec<usize>) -> (b: Board)
        requires
            width <= isize::MAX,
            height <= isize::MAX,
            width * height <= isize::MAX,
            distinct_below(positions@, width * height),
        ensures
            b.wf(),
            b.width == width,
            b.height == height,
            b.mine_count == mine_count,
            b.flag_count == 0,
            b.revealed_count == 0,
            b.grid() == numbered(laid_out(width as int, height as int, positions@)),
            mine_total(b.grid()) == positions@.len(),
            numbers_correct(b.grid()),
    {
        let mut board = Self::empty(width, height, mine_count);
        board.lay_mines(positions);
        board.calculate_adjacent();
        proof {
            lemma_numbered(laid_out(width as int, height as int, positions@));
        }
        board
    }

    /// A board as `new` makes it: `height` rows of `width` hidden cells, zero
    /// counters, mines at `min(mine_count, width * height)` distinct places and
    /// every mine-free cell numbered.
    pub open spec fn is_new_board(self, width: int, height: int, mine_count: int) -> bool {
        &&& self.wf()
        &&& self.width == width
        &&& self.height == height
        &&& self.mine_count == mine_count
        &&& self.flag_count == 0
        &&& self.revealed_count == 0
        &&& exists|ps: Seq<usize>|
            {
                &&& distinct_below(ps, width * height)
                &&& ps.len() == if mine_count < width * height {
                    mine_count
                } else {
                    width * height
                }
                &&& #[trigger] self.grid() == numbered(laid_out(width, height, ps))
            }
        &&& mine_total(self.grid()) == if mine_count < width * height {
            mine_count
        } else {
            width * height
        }
        &&& numbers_correct(self.grid())
        &&& forall|i: int, j: int|
            self.on_board(i, j) ==> (#[trigger] self.grid()[i][j]).state == CellState::Hidden
                && !self.grid()[i][j].is_exploded
    }

    /// A new board with `min(mine_count, width * height)` mines at places drawn by
    /// `rand`, every mine-free cell numbered.
    pub fn new(width: usize, height: usize, mine_count: usize) -> (b: Self)
        requires
            width <= isize::MAX,
            height <= isize::MAX,
            width * height <= isize::MAX,
            mine_count <= isize::MAX / 8,
        ensures
            b.is_new_board(width as int, height as int, mine_count as int),
    {
        let mut board = Self::empty(width, height, mine_count);
        let ps = board.place_mines(mine_count);
        board.calculate_adjacent();
        proof {
            lemma_numbered(laid_out(width as int, height as int, ps@));
        }
        board
    }

    fn place_mines(&mut self, count: usize) -> (ps: Ghost<Seq<usize>>)
        requires
            old(self).wf(),
            old(self).grid() == laid_out(old(self).width as int, old(self).height as int, Seq::empty()),
            count <= isize::MAX / 8,
        ensures
            final(self).wf(),
            final(self).width == old(self).width,
            final(self).height == old(self).height,
            final(self).mine_count == old(self).mine_count,
            final(self).flag_count == old(self).flag_count,
            final(self).revealed_count == old(self).revealed_count,
            distinct_below(ps@, old(self).width * old(self).height),
            ps@.len() == if count < old(self).width * old(self).height {
                count as int
            } else {
                old(self).width * old(self).height
            },
            final(self).grid() == laid_out(old(self).width as int, old(self).height as int, ps@),
            mine_total(final(self).grid()) == ps@.len(),
    {
        let mut rng = thread_rng();
        let total_cells = self.width * self.height;
        let mine_positions = choose_positions(&mut rng, total_cells, count);
        self.lay_mines(&mine_positions);
        Ghost(mine_positions@)
    }

    /// The mine-free cells other than `(row, col)`, row by row.
    fn mine_free_cells_except(&self, row: usize, col: usize) -> (v: Vec<(usize, usize)>)
        requires
            self.wf(),
        ensures
            forall|k: int| 0 <= k < v.len() ==> candidate(self.grid(), row as int, col as int, #[trigger] v@[k].0 as int, v@[k].1 as int),
            forall|i: int, j: int| #[trigger] candidate(self.grid(), row as int, col as int, i, j) ==> exists|k: int| 0 <= k < v.len() && v@[k].0 == i && v@[k].1 == j,
    {
        let ghost g = self.grid();
        let mut candidates: Vec<(usize, usize)> = Vec::new();
        let mut r: usize = 0;
        while r < self.height
            invariant
                self.wf(),
                g == self.grid(),
                r <= self.height,
                forall|k: int| 0 <= k < candidates.len() ==> candidate(g, row as int, col as int, #[trigger] candidates@[k].0 as int, candidates@[k].1 as int),
                forall|i: int, j: int| #[trigger] candidate(g, row as int, col as int, i, j) && i < r ==> exists|k: int| 0 <= k < candidates.len() && candidates@[k].0 == i && candidates@[k].1 == j,
            decreases self.height - r,
        {
            let mut c: usize = 0;
            while c < self.width
                invariant
                    self.wf(),
                    g == self.grid(),
                    r < self.height,
                    c <= self.width,
                    forall|k: int| 0 <= k < candidates.len() ==> candidate(g, row as int, col as int, #[trigger] candidates@[k].0 as int, candidates@[k].1 as int),
                    forall|i: int, j: int| #[trigger] candidate(g, row as int, col as int, i, j) && (i < r || (i == r && j < c)) ==> exists|k: int| 0 <= k < candidates.len() && candidates@[k].0 == i && candidates@[k].1 == j,
                decreases self.width - c,
            {
                let ghost before = candidates@;
                if !self.cells[r][c].is_mine && !(r == row && c == col) {
                    candidates.push((r, c));
                    proof {
                        assert forall|i: int, j: int| #[trigger] candidate(g, row as int, col as int, i, j) && (i < r || (i == r && j < c + 1)) implies exists|k: int| 0 <= k < candidates.len() && candidates@[k].0 == i && candidates@[k].1 == j by {
                            if i == r && j == c {
                                assert(candidates@[before.len() as int] == (r, c));
                            } else {
                                let k = choose|k: int| 0 <= k < before.len() && before[k].0 == i && before[k].1 == j;
                                assert(candidates@[k] == before[k]);
                            }
                        }
                    }
                }
                c += 1;
            }
            r += 1;
        }
        candidates
    }

    /// `post` is this board after a first click at `(row, col)` returning `exploded`:
    /// for some valid choice of where a mine there goes, the relocated board was
    /// revealed at `(row, col)`. On a mine-free cell that is exactly a plain reveal.
    /// The number of mines is kept, correct numbers stay correct, and the click
    /// explodes only when every cell holds a mine.
    pub open spec fn first_reveal_done(self, post: Board, row: int, col: int, exploded: bool) -> bool {
        &&& post.width == self.width
        &&& post.height == self.height
        &&& post.mine_count == self.mine_count
        &&& exists|choice: Option<(usize, usize)>|
            {
                &&& (self.grid()[row][col].is_mine ==> choice_ok(self.grid(), row, col, choice))
                &&& #[trigger] reveal_done_on(
                    relocated(self.grid(), row, col, choice),
                    self.flag_count as int,
                    self.revealed_count as int,
                    post,
                    row,
                    col,
                    exploded,
                )
            }
        &&& !self.grid()[row][col].is_mine ==> self.reveal_done(post, row, col, exploded)
        &&& mine_total(post.grid()) == mine_total(self.grid())
        &&& numbers_correct(self.grid()) ==> numbers_correct(post.grid())
        &&& exploded ==> forall|i: int, j: int| in_grid(self.grid(), i, j) ==> #[trigger] self.grid()[i][j].is_mine
    }

    /// The first click at `(row, col)`: a mine there is first moved to `choice`
    /// (an outcome of picking among the other mine-free cells), then the cell is
    /// revealed as by `reveal_cell`.
    pub fn safe_reveal_first_with(&mut self, row: usize, col: usize, choice: Option<(usize, usize)>) -> (exploded: bool)
        requires
            old(self).wf(),
            old(self).on_board(row as int, col as int),
            old(self).grid()[row as int][col as int].is_mine ==> choice_ok(old(self).grid(), row as int, col as int, choice),
            reveal_fits_on(
                relocated(old(self).grid(), row as int, col as int, choice),
                old(self).flag_count as int,
                old(self).revealed_count as int,
                row as int,
                col as int,
            ),
        ensures
            final(self).wf(),
            final(self).width == old(self).width,
            final(self).height == old(self).height,
            final(self).mine_count == old(self).mine_count,
            reveal_done_on(
                relocated(old(self).grid(), row as int, col as int, choice),
                old(self).flag_count as int,
                old(self).revealed_count as int,
                *final(self),
                row as int,
                col as int,
                exploded,
            ),
            mine_total(final(self).grid()) == mine_total(old(self).grid()),
            numbers_correct(old(self).grid()) ==> numbers_correct(final(self).grid()),
            exploded ==> forall|i: int, j: int|
                in_grid(old(self).grid(), i, j) ==> #[trigger] old(self).grid()[i][j].is_mine,
    {
        let ghost g = self.grid();
        proof {
            self.lemma_wf_grid();
        }
        if self.cells[row][col].is_mine {
            if let Some((new_r, new_c)) = choice {
                let old_cell = self.cells[row][col];
                self.cells[row][col].is_mine = false;
                let ghost cleared = self.grid();
                assert(cleared =~~= with_cell(g, row as int, col as int, Cell { is_mine: false, ..old_cell }));
                let target_cell = self.cells[new_r][new_c];
                self.cells[new_r][new_c].is_mine = true;
                assert(self.grid() =~~= with_cell(cleared, new_r as int, new_c as int, Cell { is_mine: true, ..target_cell }));
                self.calculate_adjacent();
            }
        }
        assert(self.grid() == relocated(g, row as int, col as int, choice));
        let ghost r = self.grid();
        proof {
            lemma_relocated(g, row as int, col as int, choice);
        }
        let exploded = self.reveal_cell(row, col);
        proof {
            lemma_count_grid_same(r, self.grid(), |x: Cell| is_mine_cell(x));
            if numbers_correct(g) {
                lemma_numbers_kept(r, self.grid());
            }
        }
        exploded
    }

    /// The first click at `(row, col)`: if it hits a mine, the mine is moved to a
    /// mine-free cell picked by `rand` before the cell is revealed, so the click
    /// explodes only when every cell holds a mine.
    pub fn safe_reveal_first(&mut self, row: usize, col: usize) -> (exploded: bool)
        requires
            old(self).wf(),
            old(self).on_board(row as int, col as int),
            first_reveal_fits(
                old(self).grid(),
                old(self).flag_count as int,
                old(self).revealed_count as int,
                row as int,
                col as int,
            ),
        ensures
            final(self).wf(),
            final(self).width == old(self).width,
            final(self).height == old(self).height,
            final(self).mine_count == old(self).mine_count,
            old(self).first_reveal_done(*final(self), row as int, col as int, exploded),
    {
        let ghost g = self.grid();
        let mut choice: Option<(usize, usize)> = None;
        if self.cells[row][col].is_mine {
            let mut rng = thread_rng();
            let candidates = self.mine_free_cells_except(row, col);
            choice = choose_candidate(&mut rng, &candidates);
            proof {
                match choice {
                    Some(t) => {
                        let k = choose|k: int| 0 <= k < candidates.len() && candidates@[k] == t;
                        assert(candidate(g, row as int, col as int, candidates@[k].0 as int, candidates@[k].1 as int));
                    },
                    None => {
                        assert forall|i: int, j: int| !#[trigger] candidate(g, row as int, col as int, i, j) by {
                            if candidate(g, row as int, col as int, i, j) {
                                let k = choose|k: int| 0 <= k < candidates.len() && candidates@[k].0 == i && candidates@[k].1 == j;
                            }
                        }
                    },
                }
            }
        }
        let exploded = self.safe_reveal_first_with(row, col, choice);
        assert(reveal_done_on(
            relocated(g, row as int, col as int, choice),
            old(self).flag_count as int,
            old(self).revealed_count as int,
            *self,
            row as int,
            col as int,
            exploded,
        ));
        exploded
    }

    /// The counters agree with the board: as many reveals and flags as revealed and
    /// flagged cells.
    pub open spec fn counters_match(self) -> bool {
        &&& self.revealed_count == revealed_total(self.grid())
        &&& self.flag_count == flagged_total(self.grid())
    }

    /// No counter overflows when revealing `(row, col)`.
    pub open spec fn reveal_fits(self, row: int, col: int) -> bool {
        reveal_fits_on(self.grid(), self.flag_count as int, self.revealed_count as int, row, col)
    }

    /// `post` is this board after revealing `(row, col)`, which returned `exploded`.
    pub open spec fn reveal_done(self, post: Board, row: int, col: int, exploded: bool) -> bool {
        &&& post.width == self.width
        &&& post.height == self.height
        &&& post.mine_count == self.mine_count
        &&& reveal_done_on(
            self.grid(),
            self.flag_count as int,
            self.revealed_count as int,
            post,
            row,
            col,
            exploded,
        )
    }

    /// Reveals the cell at `(row, col)` if it is on the board and covered; returns
    /// whether it held a mine. A mine-free cell with no neighbouring mines floods.
    pub fn reveal_cell(&mut self, row: usize, col: usize) -> (exploded: bool)
        requires
            old(self).wf(),
            old(self).reveal_fits(row as int, col as int),
        ensures
            final(self).wf(),
            old(self).reveal_done(*final(self), row as int, col as int, exploded),
            same_layout(old(self).grid(), final(self).grid()),
            forall|i: int, j: int|
                in_grid(old(self).grid(), i, j) && is_open(old(self).grid()[i][j]) ==> #[trigger] is_open(
                    final(self).grid()[i][j],
                ),
            forall|i: int, j: int|
                in_grid(old(self).grid(), i, j) && is_flag(old(self).grid()[i][j]) ==> #[trigger] is_flag(
                    final(self).grid()[i][j],
                ),
            numbers_correct(old(self).grid()) ==> forall|i: int, j: int|
                in_grid(old(self).grid(), i, j) && !(i == row && j == col) && #[trigger] final(self).grid()[i][j].is_mine
                    && is_open(final(self).grid()[i][j]) ==> is_open(old(self).grid()[i][j]),
            old(self).counters_match() && !(old(self).on_board(row as int, col as int)
                && old(self).grid()[row as int][col as int].state == CellState::Flagged)
                ==> final(self).counters_match(),
    {
        proof {
            self.lemma_wf_grid();
        }
        if !(row < self.height && col < self.width) {
            return false;
        }
        let cell = self.cells[row][col];
        if !cell.is_hidden() {
            return false;
        }
        let ghost g = self.grid();
        proof {
            lemma_flood_gain_nonneg(first_step(g, row as int, col as int), row as int, col as int);
            lemma_reveal_monotone(g, row as int, col as int);
            if numbers_correct(g) {
                lemma_reveal_spares_mines(g, row as int, col as int);
            }
            if cell.state != CellState::Flagged {
                lemma_reveal_counts(g, row as int, col as int);
            }
        }
        if cell.is_flagged() {
            self.flag_count -= 1;
        }
        self.cells[row][col].uncover();
        self.revealed_count += 1;
        if cell.is_mine {
            self.cells[row][col].is_exploded = true;
            assert(self.grid() =~~= first_step(g, row as int, col as int));
            return true;
        }
        assert(self.grid() =~~= first_step(g, row as int, col as int));
        if cell.adjacent_mines == 0 {
            self.flood_fill(row as isize, col as isize);
        }
        false
    }

    /// Opens, from `(row, col)`, every covered unflagged cell that the flood reaches.
    fn flood_fill(&mut self, row: isize, col: isize)
        requires
            old(self).wf(),
            old(self).on_board(row as int, col as int),
            old(self).revealed_count + revealed_total(flooded(old(self).grid(), row as int, col as int))
                - revealed_total(old(self).grid()) <= usize::MAX,
        ensures
            final(self).wf(),
            final(self).width == old(self).width,
            final(self).height == old(self).height,
            final(self).mine_count == old(self).mine_count,
            final(self).flag_count == old(self).flag_count,
            final(self).grid() == flooded(old(self).grid(), row as int, col as int),
            final(self).revealed_count == old(self).revealed_count + revealed_total(final(self).grid())
                - revealed_total(old(self).grid()),
    {
        let ghost g0 = self.grid();
        let ghost r0 = row as int;
        let ghost c0 = col as int;
        let ghost rc0 = self.revealed_count as int;
        let mut stack: Vec<(isize, isize)> = Vec::new();
        stack.push((row, col));
        proof {
            self.lemma_wf_grid();
            lemma_progress_start(g0, r0, c0);
            lemma_count_grid_bound(g0, |x: Cell| is_open(x), self.width as int);
            assert(self.grid().len() * (self.width as int) == self.width * self.height) by (nonlinear_arith)
                requires
                    self.grid().len() == self.height,
            ;
            assert(stack@[0] == (row, col));
            assert forall|i: int, j: int|
                in_grid(g0, i, j) && #[trigger] crate::flood::source(g0, g0, r0, c0, i, j) implies stack_has(
                stack@,
                i,
                j,
            ) || crate::flood::spreads(g0, g0, i, j) by {
                assert(stack@[0].0 == i && stack@[0].1 == j);
            }
        }
        while stack.len() > 0
            invariant
                self.wf(),
                self.width == old(self).width,
                self.height == old(self).height,
                self.mine_count == old(self).mine_count,
                self.flag_count == old(self).flag_count,
                g0 == old(self).grid(),
                g0.len() == self.height,
                r0 == row,
                c0 == col,
                in_grid(g0, r0, c0),
                rc0 == old(self).revealed_count,
                rc0 + revealed_total(flooded(g0, r0, c0)) - revealed_total(g0) <= usize::MAX,
                progress(g0, self.grid(), r0, c0),
                self.revealed_count == rc0 + revealed_total(self.grid()) - revealed_total(g0),
                revealed_total(self.grid()) <= self.width * self.height,
                stack_ok(g0, self.grid(), r0, c0, stack@),
                pending_ok(g0, self.grid(), r0, c0, stack@),
            decreases self.width * self.height - revealed_total(self.grid()) + stack.len(),
        {
            let ghost measure0 = self.width * self.height - revealed_total(self.grid()) + stack.len();
            proof {
                lemma_pop(g0, self.grid(), r0, c0, stack@);
            }
            let top = stack.pop();
            let (r, c) = top.unwrap();
            let mut k: usize = 0;
            while k < 9
                invariant
                    self.wf(),
                    self.width == old(self).width,
                    self.height == old(self).height,
                    self.mine_count == old(self).mine_count,
                    self.flag_count == old(self).flag_count,
                    g0 == old(self).grid(),
                    g0.len() == self.height,
                    in_grid(g0, r0, c0),
                    in_grid(g0, r as int, c as int),
                    rc0 == old(self).revealed_count,
                    rc0 + revealed_total(flooded(g0, r0, c0)) - revealed_total(g0) <= usize::MAX,
                    progress(g0, self.grid(), r0, c0),
                    self.revealed_count == rc0 + revealed_total(self.grid()) - revealed_total(g0),
                    revealed_total(self.grid()) <= self.width * self.height,
                    stack_ok(g0, self.grid(), r0, c0, stack@),
                    pending_except(g0, self.grid(), r0, c0, stack@, r as int, c as int),
                    crate::flood::source(g0, self.grid(), r0, c0, r as int, c as int),
                    k <= 9,
                    forall|k2: int| 0 <= k2 < k && k2 != 4 ==> #[trigger] nb_done(g0, self.grid(), r as int, c as int, k2),
                    self.width * self.height - revealed_total(self.grid()) + stack.len() < measure0,
                decreases 9 - k,
            {
                if k != 4 {
                    let dr: isize = (k / 3) as isize - 1;
                    let dc: isize = (k % 3) as isize - 1;
                    let nr = r + dr;
                    let nc = c + dc;
                    if self.is_valid_pos(nr, nc) {
                        let cell = self.cells[nr as usize][nc as usize];
                        let ghost before = self.grid();
                        proof {
                            lemma_changed_cell(g0, before, r0, c0, nr as int, nc as int);
                        }
                        if cell.is_hidden() && !cell.is_flagged() {
                            proof {
                                lemma_extend_flood(g0, before, r0, c0, r as int, c as int, nr as int, nc as int);
                                lemma_progress_count(g0, before, r0, c0, nr as int, nc as int);
                                lemma_open_one(g0, before, r0, c0, nr as int, nc as int);
                                lemma_reveal_step(g0, before, r0, c0, stack@, r as int, c as int, nr as int, nc as int, (nr, nc));
                            }
                            self.cells[nr as usize][nc as usize].uncover();
                            self.revealed_count += 1;
                            assert(self.grid() =~~= open_one(before, nr as int, nc as int));
                            if cell.adjacent_mines == 0 && !cell.is_mine {
                                stack.push((nr, nc));
                            }
                            proof {
                                assert(self.grid()[r as int][c as int] == before[r as int][c as int]);
                                lemma_count_grid_bound(self.grid(), |x: Cell| is_open(x), self.width as int);
                                assert(self.grid().len() * (self.width as int) == self.width * self.height) by (nonlinear_arith)
                                    requires
                                        self.grid().len() == self.height,
                                ;
                                assert forall|k2: int| 0 <= k2 < k + 1 && k2 != 4 implies #[trigger] nb_done(
                                    g0,
                                    self.grid(),
                                    r as int,
                                    c as int,
                                    k2,
                                ) by {
                                    if k2 < k {
                                        assert(nb_done(g0, before, r as int, c as int, k2));
                                    }
                                }
                            }
                        }
                    }
                }
                k += 1;
            }
            proof {
                lemma_all_neighbours(g0, self.grid(), r as int, c as int);
                lemma_finish_cell(g0, self.grid(), r0, c0, stack@, r as int, c as int);
            }
        }
        proof {
            lemma_flood_complete(g0, self.grid(), r0, c0);
        }
    }

    fn is_valid_pos(&self, row: isize, col: isize) -> (b: bool)
        requires
            self.wf(),
        ensures
            b == self.on_board(row as int, col as int),
    {
        row >= 0 && row < self.height as isize && col >= 0 && col < self.width as isize
    }

    fn count_adjacent_mines(&self, row: usize, col: usize) -> (count: u8)
        requires
            self.wf(),
            self.on_board(row as int, col as int),
        ensures
            count == mine_neighbours(self.grid(), row as int, col as int),
    {
        let mut count: u8 = 0;
        let mut k: usize = 0;
        while k < 9
            invariant
                self.wf(),
                self.on_board(row as int, col as int),
                k <= 9,
                count == mines_in_block(self.grid(), row as int, col as int, k as int),
                count <= k,
            decreases 9 - k,
        {
            if k != 4 {
                let dr: isize = (k / 3) as isize - 1;
                let dc: isize = (k % 3) as isize - 1;
                let nr = row as isize + dr;
                let nc = col as isize + dc;
                if self.is_valid_pos(nr, nc) {
                    if self.cells[nr as usize][nc as usize].is_mine {
                        count += 1;
                    }
                }
            }
            k += 1;
        }
        proof {
            lemma_block_sum(self.grid(), row as int, col as int);
        }
        count
    }

    fn calculate_adjacent(&mut self)
        requires
            old(self).wf(),
        ensures
            final(self).wf(),
            final(self).width == old(self).width,
            final(self).height == old(self).height,
            final(self).mine_count == old(self).mine_count,
            final(self).flag_count == old(self).flag_count,
            final(self).revealed_count == old(self).revealed_count,
            final(self).grid() == numbered(old(self).grid()),
    {
        let ghost g0 = self.grid();
        let ghost target = numbered(g0);
        let mut row: usize = 0;
        while row < self.height
            invariant
                self.wf(),
                self.width == old(self).width,
                self.height == old(self).height,
                self.mine_count == old(self).mine_count,
                self.flag_count == old(self).flag_count,
                self.revealed_count == old(self).revealed_count,
                g0 == old(self).grid(),
                g0.len() == self.height,
                rectangular(g0, self.width as int),
                target == numbered(g0),
                row <= self.height,
                forall|i: int, j: int|
                    #![trigger self.grid()[i][j]]
                    0 <= i < self.height && 0 <= j < self.width ==> self.grid()[i][j] == if i < row {
                        target[i][j]
                    } else {
                        g0[i][j]
                    },
            decreases self.height - row,
        {
            let mut col: usize = 0;
            while col < self.width
                invariant
                    self.wf(),
                    self.width == old(self).width,
                    self.height == old(self).height,
                    self.mine_count == old(self).mine_count,
                    self.flag_count == old(self).flag_count,
                    self.revealed_count == old(self).revealed_count,
                    g0 == old(self).grid(),
                    g0.len() == self.height,
                    rectangular(g0, self.width as int),
                    target == numbered(g0),
                    row < self.height,
                    col <= self.width,
                    forall|i: int, j: int|
                        #![trigger self.grid()[i][j]]
                        0 <= i < self.height && 0 <= j < self.width ==> self.grid()[i][j] == if i < row
                            || (i == row && j < col) {
                            target[i][j]
                        } else {
                            g0[i][j]
                        },
                decreases self.width - col,
            {
                let ghost before = self.grid();
                let cell = self.cells[row][col];
                if !cell.is_mine {
                    proof {
                        assert forall|i: int, j: int| in_grid(g0, i, j) implies #[trigger] before[i][j].is_mine
                            == g0[i][j].is_mine by {
                            assert(before[i][j] == if i < row || (i == row && j < col) {
                                target[i][j]
                            } else {
                                g0[i][j]
                            });
                        }
                        assert(same_mines(g0, before));
                        lemma_neighbours_same(g0, before, row as int, col as int);
                        lemma_neighbours_bound(g0, row as int, col as int);
                    }
                    let n = self.count_adjacent_mines(row, col);
                    self.cells[row][col].adjacent_mines = n;
                    assert(self.grid() =~~= with_cell(before, row as int, col as int, Cell { adjacent_mines: n, ..cell }));
                }
                proof {
                    assert forall|i: int, j: int|
                        0 <= i < self.height && 0 <= j < self.width implies #[trigger] self.grid()[i][j]
                        == if i < row || (i == row && j < col + 1) {
                        target[i][j]
                    } else {
                        g0[i][j]
                    } by {
                        assert(before[i][j] == if i < row || (i == row && j < col) {
                            target[i][j]
                        } else {
                            g0[i][j]
                        });
                    }
                }
                col += 1;
            }
            row += 1;
        }
        assert(self.grid() =~~= target);
    }
}

} // verus!
