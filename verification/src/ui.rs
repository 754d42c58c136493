//! What the board view draws for a cell, and which cell the pointer is over.

use vstd::prelude::*;
use crate::cell::{Cell, CellState};

verus! {

/// Remembers the cell under the pointer, if any.
pub struct CellPainter {
    hover_cell: Option<(usize, usize)>,
}

impl CellPainter {
    /// The cell under the pointer, if any.
    pub closed spec fn hover(self) -> Option<(usize, usize)> {
        self.hover_cell
    }

    pub fn new() -> (p: Self)
        ensures
            p.hover() is None,
    {
        Self { hover_cell: None }
    }

    pub fn set_hover(&mut self, cell: Option<(usize, usize)>)
        ensures
            final(self).hover() == cell,
    {
        self.hover_cell = cell;
    }

    pub fn is_hovered(&self, row: usize, col: usize) -> (b: bool)
        ensures
            b == (self.hover() == Some((row, col))),
    {
        match self.hover_cell {
            Some((r, c)) => r == row && c == col,
            None => false,
        }
    }

    pub fn hover_cell(&self) -> (c: Option<(usize, usize)>)
        ensures
            c == self.hover(),
    {
        self.hover_cell
    }
}

impl Default for CellPainter {
    fn default() -> (p: Self)
        ensures
            p.hover() is None,
    {
        Self::new()
    }
}

/// The background a cell is drawn with.
#[derive(Clone, Copy, PartialEq, Eq, Debug, Structural)]
pub enum CellFace {
    /// Hidden, flagged or questioned: the covered colour, lighter under the pointer.
    Covered,
    /// A revealed mine.
    MineShown,
    /// A revealed mine-free cell.
    Open,
}

/// The symbol drawn on a cell.
#[derive(Clone, Copy, PartialEq, Eq, Debug, Structural)]
pub enum CellMark {
    Exploded,
    Mine,
    Flag,
    Number(u8),
    Question,
    Blank,
}

pub open spec fn face_of(c: Cell) -> CellFace {
    if c.state != CellState::Revealed {
        CellFace::Covered
    } else if c.is_mine {
        CellFace::MineShown
    } else {
        CellFace::Open
    }
}

/// The first that applies: an exploded cell, a revealed mine, a flag, the number
/// of a revealed cell with neighbouring mines, a question mark, nothing.
pub open spec fn mark_of(c: Cell) -> CellMark {
    if c.is_exploded {
        CellMark::Exploded
    } else if c.state == CellState::Revealed && c.is_mine {
        CellMark::Mine
    } else if c.state == CellState::Flagged {
        CellMark::Flag
    } else if c.state == CellState::Revealed && c.adjacent_mines > 0 {
        CellMark::Number(c.adjacent_mines)
    } else if c.state == CellState::Questioned {
        CellMark::Question
    } else {
        CellMark::Blank
    }
}

/// What is drawn follows what the player may see. A number appears only on a
/// revealed, mine-free, unexploded cell, and it is that cell's count of
/// neighbouring mines; every such cell with a positive count shows it. A mine
/// symbol appears only on a revealed mine, the explosion only on the exploded
/// cell; a covered cell that has not exploded shows its flag, its question mark
/// or nothing. The covered background is drawn exactly on the cells that are not
/// revealed.
pub proof fn lemma_mark_follows_state(c: Cell)
    ensures
        mark_of(c) is Number ==> c.state == CellState::Revealed && !c.is_mine && !c.is_exploded
            && c.adjacent_mines > 0 && mark_of(c)->0 == c.adjacent_mines,
        c.state == CellState::Revealed && !c.is_mine && !c.is_exploded && c.adjacent_mines > 0
            ==> mark_of(c) == CellMark::Number(c.adjacent_mines),
        (mark_of(c) is Exploded) <==> c.is_exploded,
        (mark_of(c) is Mine) <==> (c.state == CellState::Revealed && c.is_mine && !c.is_exploded),
        c.state == CellState::Hidden && !c.is_exploded ==> mark_of(c) == CellMark::Blank,
        c.state == CellState::Flagged && !c.is_exploded ==> mark_of(c) == CellMark::Flag,
        c.state == CellState::Questioned && !c.is_exploded ==> mark_of(c) == CellMark::Question,
        (face_of(c) is Covered) <==> c.state != CellState::Revealed,
        (face_of(c) is MineShown) <==> (c.state == CellState::Revealed && c.is_mine),
{
}

pub fn cell_face(cell: &Cell) -> (f: CellFace)
    ensures
        f == face_of(*cell),
{
    match cell.state {
        CellState::Hidden | CellState::Flagged | CellState::Questioned => CellFace::Covered,
        CellState::Revealed => {
            if cell.is_mine {
                CellFace::MineShown
            } else {
                CellFace::Open
            }
        },
    }
}

pub fn cell_mark(cell: &Cell) -> (m: CellMark)
    ensures
        m == mark_of(*cell),
{
    if cell.is_exploded {
        CellMark::Exploded
    } else if matches!(cell.state, CellState::Revealed) && cell.is_mine {
        CellMark::Mine
    } else if cell.is_flagged() {
        CellMark::Flag
    } else if matches!(cell.state, CellState::Revealed) && cell.adjacent_mines > 0 {
        CellMark::Number(cell.adjacent_mines)
    } else if matches!(cell.state, CellState::Questioned) {
        CellMark::Question
    } else {
        CellMark::Blank
    }
}

} // verus!
