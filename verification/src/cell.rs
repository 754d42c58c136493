use vstd::prelude::*;

verus! {

/// What the player currently sees of a cell.
#[derive(Clone, Copy, PartialEq, Eq, Debug, Structural)]
pub enum CellState {
    Hidden,
    Revealed,
    Flagged,
    Questioned,
}

/// One square of the board.
#[derive(Clone, Copy, PartialEq, Eq, Debug, Structural)]
pub struct Cell {
    pub is_mine: bool,
    pub state: CellState,
    pub adjacent_mines: u8,
    pub is_exploded: bool,
}

impl Cell {
    /// A fresh cell: no mine, hidden, no neighbouring mines counted, not exploded.
    pub open spec fn fresh() -> Cell {
        Cell { is_mine: false, state: CellState::Hidden, adjacent_mines: 0, is_exploded: false }
    }

    /// The cell is still covered: hidden, flagged or questioned.
    pub open spec fn covered(self) -> bool {
        self.state != CellState::Revealed
    }

    /// The cell after `reveal`: a flag protects it, anything else opens it.
    pub open spec fn after_reveal(self) -> Cell {
        if self.state == CellState::Flagged {
            self
        } else {
            Cell { state: CellState::Revealed, ..self }
        }
    }

    /// The cell after `toggle_flag`: hidden and flagged swap, other states stay.
    pub open spec fn after_toggle_flag(self) -> Cell {
        match self.state {
            CellState::Hidden => Cell { state: CellState::Flagged, ..self },
            CellState::Flagged => Cell { state: CellState::Hidden, ..self },
            _ => self,
        }
    }

    /// The cell after `toggle_question`: hidden and questioned swap, other states stay.
    pub open spec fn after_toggle_question(self) -> Cell {
        match self.state {
            CellState::Hidden => Cell { state: CellState::Questioned, ..self },
            CellState::Questioned => Cell { state: CellState::Hidden, ..self },
            _ => self,
        }
    }

    pub fn new() -> (c: Self)
        ensures
            c == Cell::fresh(),
    {
        Self::default()
    }

    pub fn with_mine(self) -> (c: Self)
        ensures
            c == (Cell { is_mine: true, ..self }),
    {
        let mut c = self;
        c.is_mine = true;
        c
    }

    pub fn uncover(&mut self)
        ensures
            *final(self) == old(self).after_reveal(),
    {
        if !matches!(self.state, CellState::Flagged) {
            self.state = CellState::Revealed;
        }
    }

    pub fn toggle_flag(&mut self)
        ensures
            *final(self) == old(self).after_toggle_flag(),
    {
        match self.state {
            CellState::Hidden => self.state = CellState::Flagged,
            CellState::Flagged => self.state = CellState::Hidden,
            _ => {},
        }
    }

    pub fn toggle_question(&mut self)
        ensures
            *final(self) == old(self).after_toggle_question(),
    {
        match self.state {
            CellState::Hidden => self.state = CellState::Questioned,
            CellState::Questioned => self.state = CellState::Hidden,
            _ => {},
        }
    }

    pub fn is_revealed(&self) -> (b: bool)
        ensures
            b == (self.state == CellState::Revealed),
    {
        matches!(self.state, CellState::Revealed)
    }

    pub fn is_hidden(&self) -> (b: bool)
        ensures
            b == self.covered(),
    {
        matches!(self.state, CellState::Hidden | CellState::Flagged | CellState::Questioned)
    }

    pub fn is_flagged(&self) -> (b: bool)
        ensures
            b == (self.state == CellState::Flagged),
    {
        matches!(self.state, CellState::Flagged)
    }
}

/// Toggling the flag twice leaves any cell as it was.
pub proof fn lemma_toggle_flag_twice(c: Cell)
    ensures
        c.after_toggle_flag().after_toggle_flag() == c,
{
}

/// Toggling the question mark twice leaves any cell as it was.
pub proof fn lemma_toggle_question_twice(c: Cell)
    ensures
        c.after_toggle_question().after_toggle_question() == c,
{
}

/// Revealing a cell a second time changes nothing more.
pub proof fn lemma_uncover_idempotent(c: Cell)
    ensures
        c.after_reveal().after_reveal() == c.after_reveal(),
{
}

/// A cell is either revealed or covered, never both.
pub proof fn lemma_revealed_or_covered(c: Cell)
    ensures
        (c.state == CellState::Revealed) != c.covered(),
{
}

impl Default for Cell {
    fn default() -> (c: Self)
        ensures
            c == Cell::fresh(),
    {
        Cell { is_mine: false, state: CellState::Hidden, adjacent_mines: 0, is_exploded: false }
    }
}

} // verus!
