# minesweeper

A Minesweeper game whose rules are verified with Verus.

`src/` is the verified library:

- `cell.rs` — a cell and its state changes (reveal, flag, question mark).
- `grid.rs` — the model of a board as rows of cells: counting, neighbourhoods,
  mine numbers, and the lemmas about them.
- `flood.rs` — what a reveal opens: the flood from a cell with no neighbouring
  mines, defined by paths, with the invariants of the work-stack algorithm.
- `board.rs` — the board: construction from mine positions or at random,
  numbering, reveal with flood fill, the safe first click, flags and question
  marks, victory.
- `random.rs` — the calls into `rand` (trusted wrappers).
- `clock.rs` — the calls into `std::time` (trusted wrappers) and the verified
  "MMM:SS" clock display.
- `game.rs` — the game state machine and the handling of clicks.
- `settings.rs` — difficulty levels and the validation of board sizes.
- `ui.rs` — hover tracking and what is drawn for each cell.
- `theme.rs` — the colour palettes.

`app/` is the egui program around it: window, layout, pixel geometry, drawing,
the theme's floating-point sizes, and the serde copies of the settings types.

`tests/` runs the library on concrete boards.
