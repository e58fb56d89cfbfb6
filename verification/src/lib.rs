//! Board logic of a 15 x 15 minesweeper: building a board around a set of
//! mines, revealing buttons, and the flood fill that opens the area around
//! a button with no neighbouring mine.
pub mod board;
mod count;
pub mod define;
mod flood;
pub mod game;
pub mod laws;
pub mod rng;
