//! A small engine for five-in-a-row on a square grid of up to 19 by 19 cells:
//! a compact board, move application, win detection through the last stone,
//! move enumeration, and exhaustive node counting over the game tree.
//!
//! - `position` holds the mathematical model of a game state and the laws
//!   of the game that are proved about it.
//! - `board` holds the executable board and, in its submodules, the
//!   notations of boards and moves, the picture of a board, and random moves.
//! - `perft` counts the lines of play of a given length, with or without the
//!   table of computed counts in `cache`.
//! - `text` holds what the notations are made of: blanks, words and decimal
//!   numbers.

pub mod position;
pub mod text;
pub mod board;
pub mod cache;
pub mod perft;
