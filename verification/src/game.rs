//! One game: the board, where the game stands, and its clock.

use vstd::prelude::*;
use crate::board::{first_reveal_fits, Board};
use crate::clock::{clock_text, elapsed_since, format_clock, now, Elapsed};
use crate::grid::{in_grid, mines_shown};
use crate::settings::{size_problem, Difficulty};

verus! {

/// Where a game stands.
#[derive(Clone, Copy, PartialEq, Eq, Debug, Structural)]
pub enum GameState {
    NotStarted,
    Running,
    Won,
    Lost,
}

/// A game: its board, its state and its clock.
#[derive(Debug)]
pub struct Game {
    pub board: Board,
    pub state: GameState,
    pub time_elapsed: Elapsed,
    pub start_time: Option<std::time::Instant>,
}

impl Clone for Game {
    fn clone(&self) -> (g: Self)
        ensures
            g.state == self.state,
            g.time_elapsed == self.time_elapsed,
            g.start_time == self.start_time,
            g.board.width == self.board.width,
            g.board.height == self.board.height,
            g.board.mine_count == self.board.mine_count,
            g.board.flag_count == self.board.flag_count,
            g.board.revealed_count == self.board.revealed_count,
            g.board.grid() == self.board.grid(),
            g.board.wf() == self.board.wf(),
    {
        Game {
            board: self.board.clone(),
            state: self.state,
            time_elapsed: self.time_elapsed,
            start_time: self.start_time,
        }
    }
}

/// A board of this size and mine count can be made without exhausting memory.
pub open spec fn size_ok(width: int, height: int, mine_count: int) -> bool {
    &&& width <= isize::MAX
    &&& height <= isize::MAX
    &&& width * height <= isize::MAX
    &&& mine_count <= isize::MAX / 8
}

/// Every board size that settings accept can be played: a game of that size can be
/// made, and there are fewer mines than cells.
pub proof fn lemma_accepted_size_playable(width: int, height: int, mines: int)
    requires
        0 <= width,
        0 <= height,
        0 <= mines,
        size_problem(width, height, mines) is None,
    ensures
        size_ok(width, height, mines),
        mines < width * height,
{
    assert(width * height <= 2500) by (nonlinear_arith)
        requires
            width <= 50,
            height <= 50,
            0 <= width,
            0 <= height,
    ;
}

/// The first reveal of a game never hits a mine while some cell is free of mines,
/// and it starts the game.
pub proof fn lemma_first_reveal_safe(g: Game, post: Game, row: int, col: int, exploded: bool, i: int, j: int)
    requires
        g.state == GameState::NotStarted,
        g.revealed(post, row, col, exploded),
        in_grid(g.board.grid(), i, j),
        !g.board.grid()[i][j].is_mine,
    ensures
        !exploded,
        post.state == GameState::Running,
{
}

/// In a running game a reveal is exactly the board's reveal, and the game keeps
/// running with its clock untouched: only a click handler ends it.
pub proof fn lemma_running_reveal_is_board_reveal(g: Game, post: Game, row: int, col: int, exploded: bool)
    requires
        g.state == GameState::Running,
        g.revealed(post, row, col, exploded),
    ensures
        g.board.reveal_done(post.board, row, col, exploded),
        post.state == GameState::Running,
        post.start_time == g.start_time,
        post.time_elapsed == g.time_elapsed,
{
}

/// A won or lost game stays as it is whatever is revealed.
pub proof fn lemma_over_is_final(g: Game, post: Game, row: int, col: int, exploded: bool)
    requires
        g.over(),
        g.revealed(post, row, col, exploded),
    ensures
        post == g,
        !exploded,
{
}

impl Game {
    /// A game as `new` makes it: a new board, not started, no start time.
    pub open spec fn is_new_game(self, width: int, height: int, mine_count: int) -> bool {
        &&& self.board.is_new_board(width, height, mine_count)
        &&& self.state == GameState::NotStarted
        &&& self.start_time is None
        &&& self.time_elapsed == (Elapsed { secs: 0, nanos: 0 })
    }

    /// Won or lost.
    pub open spec fn over(self) -> bool {
        self.state == GameState::Won || self.state == GameState::Lost
    }

    /// No counter overflows when revealing `(row, col)`, and a first reveal is on the board.
    pub open spec fn reveal_fits(self, row: int, col: int) -> bool {
        &&& self.state == GameState::NotStarted ==> self.board.on_board(row, col) && first_reveal_fits(
            self.board.grid(),
            self.board.flag_count as int,
            self.board.revealed_count as int,
            row,
            col,
        )
        &&& self.state == GameState::Running ==> self.board.reveal_fits(row, col)
    }

    /// `post` is this game after revealing `(row, col)`, which returned `exploded`.
    pub open spec fn revealed(self, post: Game, row: int, col: int, exploded: bool) -> bool {
        match self.state {
            GameState::NotStarted => {
                &&& self.board.first_reveal_done(post.board, row, col, exploded)
                &&& post.state == GameState::Running
                &&& post.start_time is Some
                &&& post.time_elapsed == self.time_elapsed
            },
            GameState::Running => {
                &&& self.board.reveal_done(post.board, row, col, exploded)
                &&& post.state == GameState::Running
                &&& post.start_time == self.start_time
                &&& post.time_elapsed == self.time_elapsed
            },
            _ => post == self && !exploded,
        }
    }

    pub fn new(width: usize, height: usize, mine_count: usize) -> (g: Self)
        requires
            size_ok(width as int, height as int, mine_count as int),
        ensures
            g.is_new_game(width as int, height as int, mine_count as int),
    {
        Self {
            board: Board::new(width, height, mine_count),
            state: GameState::NotStarted,
            time_elapsed: Elapsed::zero(),
            start_time: None,
        }
    }

    pub fn from_difficulty(difficulty: Difficulty) -> (g: Self)
        requires
            size_ok(difficulty.dims().0 as int, difficulty.dims().1 as int, difficulty.dims().2 as int),
        ensures
            g.is_new_game(difficulty.dims().0 as int, difficulty.dims().1 as int, difficulty.dims().2 as int),
    {
        let (width, height, mines) = match difficulty {
            Difficulty::Easy => (9, 9, 10),
            Difficulty::Medium => (16, 16, 40),
            Difficulty::Hard => (30, 16, 99),
            Difficulty::Custom { width, height, mines } => (width, height, mines),
        };
        Self::new(width, height, mines)
    }

    pub fn reset(&mut self, width: usize, height: usize, mine_count: usize)
        requires
            size_ok(width as int, height as int, mine_count as int),
        ensures
            final(self).is_new_game(width as int, height as int, mine_count as int),
    {
        *self = Self::new(width, height, mine_count);
    }

    pub fn reset_with_difficulty(&mut self, difficulty: Difficulty)
        requires
            size_ok(difficulty.dims().0 as int, difficulty.dims().1 as int, difficulty.dims().2 as int),
        ensures
            final(self).is_new_game(
                difficulty.dims().0 as int,
                difficulty.dims().1 as int,
                difficulty.dims().2 as int,
            ),
    {
        *self = Self::from_difficulty(difficulty);
    }

    /// Starts the clock of a game not yet started.
    pub fn start(&mut self)
        ensures
            if old(self).state == GameState::NotStarted {
                &&& final(self).state == GameState::Running
                &&& final(self).start_time is Some
                &&& final(self).board == old(self).board
                &&& final(self).time_elapsed == old(self).time_elapsed
            } else {
                *final(self) == *old(self)
            },
    {
        if self.state == GameState::NotStarted {
            self.state = GameState::Running;
            self.start_time = Some(now());
        }
    }

    /// Takes `e` as the elapsed time while the game runs with a start time.
    pub fn record_elapsed(&mut self, e: Elapsed)
        ensures
            final(self).board == old(self).board,
            final(self).state == old(self).state,
            final(self).start_time == old(self).start_time,
            final(self).time_elapsed == if old(self).state == GameState::Running
                && old(self).start_time is Some {
                e
            } else {
                old(self).time_elapsed
            },
    {
        if self.state == GameState::Running {
            if self.start_time.is_some() {
                self.time_elapsed = e;
            }
        }
    }

    /// Reads the clock into `time_elapsed` while the game runs: the time since its
    /// start, as `record_elapsed` takes it.
    pub fn update_time(&mut self)
        ensures
            final(self).board == old(self).board,
            final(self).state == old(self).state,
            final(self).start_time == old(self).start_time,
            !(old(self).state == GameState::Running && old(self).start_time is Some)
                ==> final(self).time_elapsed == old(self).time_elapsed,
            old(self).state == GameState::Running && old(self).start_time is Some
                ==> final(self).time_elapsed.nanos < 1_000_000_000,
    {
        if self.state == GameState::Running {
            if let Some(start) = &self.start_time {
                let e = elapsed_since(start);
                self.record_elapsed(e);
            }
        }
    }

    /// Reveals `(row, col)` unless the game is over; the first reveal starts the game
    /// and never hits a mine while a mine-free cell exists. Returns whether a mine
    /// was hit.
    pub fn reveal_at(&mut self, row: usize, col: usize) -> (exploded: bool)
        requires
            !old(self).over() ==> old(self).board.wf(),
            old(self).reveal_fits(row as int, col as int),
        ensures
            old(self).board.wf() ==> final(self).board.wf(),
            old(self).revealed(*final(self), row as int, col as int, exploded),
    {
        if self.state == GameState::Won || self.state == GameState::Lost {
            return false;
        }
        if self.state == GameState::NotStarted {
            let exploded = self.board.safe_reveal_first(row, col);
            self.state = GameState::Running;
            self.start_time = Some(now());
            return exploded;
        }
        self.board.reveal_cell(row, col)
    }

    /// Toggles the flag at `(row, col)` while the game runs.
    pub fn flag(&mut self, row: usize, col: usize)
        requires
            old(self).state == GameState::Running ==> old(self).board.wf() && old(self).board.flag_toggle_fits(
                row as int,
                col as int,
            ),
        ensures
            old(self).board.wf() ==> final(self).board.wf(),
            final(self).state == old(self).state,
            final(self).start_time == old(self).start_time,
            final(self).time_elapsed == old(self).time_elapsed,
            if old(self).state == GameState::Running {
                old(self).board.flag_toggled(final(self).board, row as int, col as int)
            } else {
                final(self).board == old(self).board
            },
    {
        if self.state == GameState::Running {
            self.board.toggle_flag(row, col);
        }
    }

    /// Marks the hidden cell at `(row, col)` with a question mark while the game runs.
    pub fn question(&mut self, row: usize, col: usize)
        requires
            old(self).state == GameState::Running ==> old(self).board.wf(),
        ensures
            old(self).board.wf() ==> final(self).board.wf(),
            final(self).state == old(self).state,
            final(self).start_time == old(self).start_time,
            final(self).time_elapsed == old(self).time_elapsed,
            if old(self).state == GameState::Running {
                old(self).board.question_toggled(final(self).board, row as int, col as int)
            } else {
                final(self).board == old(self).board
            },
    {
        if self.state == GameState::Running {
            self.board.toggle_question(row, col);
        }
    }

    /// A running game is won once the reveal counter reaches the number of mine-free cells.
    pub fn check_game_end(&mut self)
        requires
            old(self).state == GameState::Running ==> old(self).board.width * old(self).board.height
                <= usize::MAX && old(self).board.mine_count <= old(self).board.width * old(self).board.height,
        ensures
            final(self).board == old(self).board,
            final(self).start_time == old(self).start_time,
            final(self).time_elapsed == old(self).time_elapsed,
            final(self).state == if old(self).state == GameState::Running && old(self).board.revealed_count
                == old(self).board.width * old(self).board.height - old(self).board.mine_count {
                GameState::Won
            } else {
                old(self).state
            },
    {
        if self.state != GameState::Running {
            return;
        }
        if self.board.check_victory() {
            self.state = GameState::Won;
        }
    }

    /// Mines less flags, as signed numbers.
    pub fn get_mines_remaining(&self) -> (n: isize)
        requires
            isize::MIN <= (self.board.mine_count as isize) - (self.board.flag_count as isize) <= isize::MAX,
        ensures
            n == (self.board.mine_count as isize) - (self.board.flag_count as isize),
    {
        self.board.mine_count as isize - self.board.flag_count as isize
    }

    pub fn is_game_over(&self) -> (b: bool)
        ensures
            b == self.over(),
    {
        self.state == GameState::Won || self.state == GameState::Lost
    }

    /// The elapsed time as "MMM:SS", from the whole seconds of `time_elapsed`.
    pub fn format_time(&self) -> (s: String)
        ensures
            s@ == clock_text(self.time_elapsed.secs as nat),
    {
        let total_seconds = self.time_elapsed.secs;
        format_clock(total_seconds)
    }

    /// The reveal at `(row, col)` would hit a mine: a covered mine in a running game,
    /// or a first click on a covered cell of a board of mines only.
    pub open spec fn click_explodes(self, row: int, col: int) -> bool {
        match self.state {
            GameState::NotStarted => self.board.on_board(row, col) && self.board.grid()[row][col].covered()
                && forall|i: int, j: int|
                in_grid(self.board.grid(), i, j) ==> #[trigger] self.board.grid()[i][j].is_mine,
            GameState::Running => self.board.on_board(row, col) && self.board.grid()[row][col].covered()
                && self.board.grid()[row][col].is_mine,
            _ => false,
        }
    }

    /// A primary click on `(row, col)` of a `width` x `height` board: outside it nothing
    /// happens; otherwise the cell is revealed, a mine loses the game and shows every
    /// unflagged mine, and anything else checks for victory.
    pub fn on_primary_click(&mut self, row: usize, col: usize, width: usize, height: usize)
        requires
            row < height && col < width && !old(self).over() ==> old(self).board.wf(),
            row < height && col < width ==> old(self).reveal_fits(row as int, col as int),
            row < height && col < width && !old(self).over() && !old(self).click_explodes(row as int, col as int)
                ==> old(self).board.mine_count <= old(self).board.width * old(self).board.height,
        ensures
            old(self).board.wf() ==> final(self).board.wf(),
            if row < height && col < width {
                exists|mid: Game, exploded: bool|
                    {
                        &&& #[trigger] old(self).revealed(mid, row as int, col as int, exploded)
                        &&& if exploded {
                            &&& final(self).state == GameState::Lost
                            &&& final(self).board.grid() == mines_shown(mid.board.grid())
                            &&& final(self).board.width == mid.board.width
                            &&& final(self).board.height == mid.board.height
                            &&& final(self).board.mine_count == mid.board.mine_count
                            &&& final(self).board.flag_count == mid.board.flag_count
                            &&& final(self).board.revealed_count == mid.board.revealed_count
                            &&& final(self).start_time == mid.start_time
                            &&& final(self).time_elapsed == mid.time_elapsed
                        } else {
                            &&& final(self).board == mid.board
                            &&& final(self).start_time == mid.start_time
                            &&& final(self).time_elapsed == mid.time_elapsed
                            &&& final(self).state == if mid.state == GameState::Running
                                && mid.board.revealed_count == mid.board.width * mid.board.height
                                - mid.board.mine_count {
                                GameState::Won
                            } else {
                                mid.state
                            }
                        }
                    }
            } else {
                *final(self) == *old(self)
            },
    {
        if row < height && col < width {
            let exploded = self.reveal_at(row, col);
            let ghost mid = *self;
            if exploded {
                self.state = GameState::Lost;
                self.board.reveal_all_mines();
            } else {
                self.check_game_end();
            }
            assert(old(self).revealed(mid, row as int, col as int, exploded));
        }
    }

    /// A secondary click on `(row, col)` of a `width` x `height` board toggles the
    /// flag there while the game runs.
    pub fn on_secondary_click(&mut self, row: usize, col: usize, width: usize, height: usize)
        requires
            row < height && col < width && old(self).state == GameState::Running ==> old(self).board.wf()
                && old(self).board.flag_toggle_fits(row as int, col as int),
        ensures
            old(self).board.wf() ==> final(self).board.wf(),
            final(self).state == old(self).state,
            final(self).start_time == old(self).start_time,
            final(self).time_elapsed == old(self).time_elapsed,
            if row < height && col < width && old(self).state == GameState::Running {
                old(self).board.flag_toggled(final(self).board, row as int, col as int)
            } else {
                final(self).board == old(self).board
            },
    {
        if row < height && col < width {
            self.flag(row, col);
        }
    }
}

} // verus!
