//! Rule engine of a falling-block puzzle game.
//!
//! The library decides where a falling piece may move, when it locks into
//! the board, when filled rows are cleared, and when the next piece spawns.
//! It consumes abstract direction inputs and an integer clock, and exposes
//! the set of occupied cells; windowing, rendering and input devices are
//! left to the surrounding program.

pub mod board;
pub mod catalog;
pub mod cells;
pub mod clear;
pub mod rng;
