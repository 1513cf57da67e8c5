//! The values a cell, the game and an error can take.

use vstd::prelude::*;

verus! {

/// Coarse state of a game.
#[derive(Debug, Copy, Clone, PartialEq, Eq, Structural)]
pub enum GameState {
    /// No move has been made since the board was generated or wiped.
    Initial,
    /// A cell has been marked or uncovered, and no mine has been uncovered.
    Playing,
    /// The game is won. No command of the engine leads here.
    Won,
    /// A mine has been uncovered. Uncovering is frozen from then on.
    Lost,
}

/// What a single cell shows, together with what it hides.
///
/// The `bool` of the first four variants is the ground truth: whether the
/// cell holds a mine. A counted cell never holds one.
#[derive(Debug, Copy, Clone, PartialEq, Eq, Structural)]
pub enum CellState {
    Unknown(bool),
    Known(bool),
    Flagged(bool),
    Counted(u8),
    Questioned(bool),
}

/// Why an operation was refused.
#[derive(Debug, Copy, Clone, PartialEq, Eq, Structural)]
pub enum GameError {
    /// The coordinates or the index do not name a cell of the board. The
    /// command that says so has changed nothing.
    OutOfBounds,
    /// The dimensions are not positive, or leave no cell free of mines.
    InvalidDimensions,
}

impl CellState {
    /// Ground truth: the cell holds a mine, whatever it shows.
    pub open spec fn is_mine(self) -> bool {
        match self {
            CellState::Unknown(m) => m,
            CellState::Known(m) => m,
            CellState::Flagged(m) => m,
            CellState::Questioned(m) => m,
            CellState::Counted(_) => false,
        }
    }

    /// The cell holds a mine that has not been revealed. These are the cells
    /// that a neighbour counts.
    pub open spec fn hides_mine(self) -> bool {
        self == CellState::Unknown(true) || self == CellState::Flagged(true) || self
            == CellState::Questioned(true)
    }

    /// The cell is covered (unmarked, flagged or questioned) and holds no mine.
    pub open spec fn is_covered_safe(self) -> bool {
        self == CellState::Unknown(false) || self == CellState::Flagged(false) || self
            == CellState::Questioned(false)
    }

    /// The cell carries a flag.
    pub open spec fn is_flagged(self) -> bool {
        self is Flagged
    }

    /// A count, where the cell shows one, lies between 1 and 8.
    pub open spec fn valid(self) -> bool {
        match self {
            CellState::Counted(n) => 1 <= n <= 8,
            _ => true,
        }
    }

    /// What `flag` makes of the cell.
    pub open spec fn flagged(self) -> CellState {
        match self {
            CellState::Unknown(m) => CellState::Flagged(m),
            CellState::Questioned(m) => CellState::Flagged(m),
            _ => self,
        }
    }

    /// What `question` makes of the cell.
    pub open spec fn questioned(self) -> CellState {
        match self {
            CellState::Unknown(m) => CellState::Questioned(m),
            CellState::Flagged(m) => CellState::Questioned(m),
            _ => self,
        }
    }

    /// What `set_unknown` makes of the cell.
    pub open spec fn unmarked(self) -> CellState {
        match self {
            CellState::Flagged(m) => CellState::Unknown(m),
            CellState::Known(m) => CellState::Unknown(m),
            CellState::Questioned(m) => CellState::Unknown(m),
            CellState::Counted(_) => CellState::Unknown(false),
            CellState::Unknown(m) => CellState::Unknown(m),
        }
    }

    /// What `show_mined` makes of the cell.
    pub open spec fn shown(self) -> CellState {
        if self == CellState::Unknown(true) {
            CellState::Known(true)
        } else {
            self
        }
    }
}

} // verus!
