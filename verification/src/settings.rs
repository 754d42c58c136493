//! Difficulty levels and game settings.

use vstd::prelude::*;

verus! {

/// A preset board size, or a custom one.
#[derive(Clone, Copy, PartialEq, Eq, Debug, Structural)]
pub enum Difficulty {
    Easy,
    Medium,
    Hard,
    Custom { width: usize, height: usize, mines: usize },
}

impl Default for Difficulty {
    fn default() -> (d: Self)
        ensures
            d == Difficulty::Easy,
    {
        Difficulty::Easy
    }
}

impl Difficulty {
    /// Width, height and number of mines of the level.
    pub open spec fn dims(self) -> (usize, usize, usize) {
        match self {
            Difficulty::Easy => (9, 9, 10),
            Difficulty::Medium => (16, 16, 40),
            Difficulty::Hard => (30, 16, 99),
            Difficulty::Custom { width, height, mines } => (width, height, mines),
        }
    }

    /// The level's name as shown to the player.
    pub open spec fn name(self) -> Seq<char> {
        match self {
            Difficulty::Easy => "Easy"@,
            Difficulty::Medium => "Medium"@,
            Difficulty::Hard => "Hard"@,
            Difficulty::Custom { .. } => "Custom"@,
        }
    }

    pub fn display_name(&self) -> (s: &'static str)
        ensures
            s@ == self.name(),
    {
        match self {
            Difficulty::Easy => "Easy",
            Difficulty::Medium => "Medium",
            Difficulty::Hard => "Hard",
            Difficulty::Custom { .. } => "Custom",
        }
    }

    pub fn dimensions(&self) -> (d: (usize, usize, usize))
        ensures
            d == self.dims(),
    {
        match self {
            Difficulty::Easy => (9, 9, 10),
            Difficulty::Medium => (16, 16, 40),
            Difficulty::Hard => (30, 16, 99),
            Difficulty::Custom { width, height, mines } => (*width, *height, *mines),
        }
    }
}

/// The player's choices.
#[derive(Clone, Debug)]
pub struct Settings {
    pub difficulty: Difficulty,
    pub dark_mode: bool,
    pub sound_enabled: bool,
    pub animations_enabled: bool,
}

impl Default for Settings {
    fn default() -> (s: Self)
        ensures
            s.difficulty == Difficulty::Easy,
            s.dark_mode,
            s.sound_enabled,
            s.animations_enabled,
    {
        Self { difficulty: Difficulty::Easy, dark_mode: true, sound_enabled: true, animations_enabled: true }
    }
}

/// Why a board size is refused, checked in this order; `None` when it is accepted:
/// 5 to 50 columns, 5 to 50 rows, at least one mine, and fewer mines than cells.
pub open spec fn size_problem(width: int, height: int, mines: int) -> Option<Seq<char>> {
    if width < 5 || width > 50 {
        Some("Width must be between 5 and 50"@)
    } else if height < 5 || height > 50 {
        Some("Height must be between 5 and 50"@)
    } else if mines < 1 {
        Some("Must have at least 1 mine"@)
    } else if mines >= width * height {
        Some("Mines must be fewer than total cells"@)
    } else {
        None
    }
}

impl Settings {
    /// Why the chosen board size is refused, if it is.
    pub open spec fn problem(self) -> Option<Seq<char>> {
        size_problem(
            self.difficulty.dims().0 as int,
            self.difficulty.dims().1 as int,
            self.difficulty.dims().2 as int,
        )
    }

    pub fn validate(&self) -> (r: Result<(), String>)
        ensures
            match r {
                Ok(_) => self.problem() is None,
                Err(e) => self.problem() == Some(e@),
            },
    {
        let (width, height, mines) = self.difficulty.dimensions();
        if width < 5 || width > 50 {
            return Err(String::from_str("Width must be between 5 and 50"));
        }
        if height < 5 || height > 50 {
            return Err(String::from_str("Height must be between 5 and 50"));
        }
        if mines < 1 {
            return Err(String::from_str("Must have at least 1 mine"));
        }
        assert(width * height <= 2500) by (nonlinear_arith)
            requires
                width <= 50,
                height <= 50,
        ;
        if mines >= width * height {
            return Err(String::from_str("Mines must be fewer than total cells"));
        }
        Ok(())
    }
}

} // verus!
