//! Rule engine for a single-player Minesweeper game: mine-field generation,
//! per-cell visibility state, and the cascade that opens a zero region.

pub mod board;
pub mod cascade;
pub mod chance;
pub mod column;
pub mod command;
pub mod field;
pub mod game;
pub mod laws;
pub mod screen;
pub mod tally;
