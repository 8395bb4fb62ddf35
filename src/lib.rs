//! A terminal minesweeper: the board model, the reveal cascade, the key-driven
//! session and the screen layout, each stated and proved with Verus.
pub mod cascade;
pub mod cell;
pub mod game;
pub mod play;
pub mod screen;
pub mod session;
pub mod setup;
pub mod theorems;
