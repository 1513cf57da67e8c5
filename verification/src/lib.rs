//! A verified engine for a grid-based mine-discovery puzzle.
//!
//! The engine owns a rectangular board of cells, seeds hidden mines, answers
//! queries about cells and reveals regions of mine-free cells in one step.
//! Every executable function carries a contract over the mathematical
//! [`board::Board`] that a [`game::Game`] stands for; [`laws`] holds what
//! follows from those contracts for every board.

pub mod cell;
pub mod board;
pub mod tally;
pub mod flood;
pub mod laws;
pub mod game;
pub mod random;
pub mod text;
pub mod coords;

pub use cell::{CellState, GameError, GameState};
pub use coords::get_coords;
pub use game::Game;
