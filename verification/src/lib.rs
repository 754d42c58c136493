//! Minesweeper game logic: cells, the board with its flood-fill reveal,
//! the game state machine, settings and the colour theme.

pub mod cell;
pub mod grid;
pub mod flood;
pub mod board;
pub mod random;
pub mod settings;
pub mod clock;
pub mod game;
pub mod ui;
pub mod theme;
