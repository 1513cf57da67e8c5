//! The executable game: a board held in a vector, its queries, and in the
//! modules below its commands.

use vstd::prelude::*;
use crate::board::{lemma_index_in_range, Board};
use crate::cell::{CellState, GameError, GameState};

mod generate;
mod marks;
mod render;
mod uncover;

verus! {

/// How often generation draws a cell again for one mine when it keeps
/// hitting cells that are mined already.
pub const MAX_RESAMPLES: usize = 64;

/// A game: the board, its mines and the player's marks.
pub struct Game {
    width: i16,
    height: i16,
    state: GameState,
    field_state: Vec<CellState>,
    total: u16,
    remaining: u16,
}

impl View for Game {
    type V = Board;

    closed spec fn view(&self) -> Board {
        Board {
            width: self.width as int,
            height: self.height as int,
            cells: self.field_state@,
            state: self.state,
            total: self.total as nat,
            remaining: self.remaining as nat,
        }
    }
}

impl Game {
    /// The invariant of a game: that of the board it stands for.
    pub open spec fn wf(&self) -> bool {
        self@.wf()
    }

    /// The number of cells in a row.
    pub fn width(&self) -> (w: i16)
        ensures
            w == self@.width,
    {
        self.width
    }

    /// The number of rows.
    pub fn height(&self) -> (h: i16)
        ensures
            h == self@.height,
    {
        self.height
    }

    /// The state of the game.
    pub fn state(&self) -> (s: GameState)
        ensures
            s == self@.state,
    {
        self.state
    }

    /// The number of mines that the player has not flagged yet.
    pub fn remaining(&self) -> (n: u16)
        ensures
            n == self@.remaining,
    {
        self.remaining
    }

    /// The number of mines placed when the board was generated.
    pub fn total_mines(&self) -> (n: u16)
        ensures
            n == self@.total,
    {
        self.total
    }

    fn holds(&self, x: i16, y: i16) -> (r: bool)
        ensures
            r == self@.in_bounds(x as int, y as int),
    {
        0 <= x && x < self.width && 0 <= y && y < self.height
    }

    fn index_of(&self, x: i16, y: i16) -> (i: usize)
        requires
            self.wf(),
            self@.in_bounds(x as int, y as int),
        ensures
            i == self@.index(x as int, y as int),
            i < self.field_state@.len(),
    {
        proof {
            lemma_index_in_range(self.width as int, self.height as int, x as int, y as int);
        }
        (y as usize) * (self.width as usize) + (x as usize)
    }

    /// What the cell at `(x, y)` shows and hides.
    pub fn cell_state(&self, x: i16, y: i16) -> (r: Result<CellState, GameError>)
        requires
            self.wf(),
        ensures
            r == (if self@.in_bounds(x as int, y as int) {
                Ok::<CellState, GameError>(self@.at(x as int, y as int))
            } else {
                Err(GameError::OutOfBounds)
            }),
    {
        if !self.holds(x, y) {
            return Err(GameError::OutOfBounds);
        }
        let index = self.index_of(x, y);
        Ok(self.field_state[index])
    }

    /// The cell at a row-major index.
    pub fn cell_at(&self, index: usize) -> (r: Result<CellState, GameError>)
        requires
            self.wf(),
        ensures
            r == (if index < self@.cells.len() {
                Ok::<CellState, GameError>(self@.cells[index as int])
            } else {
                Err(GameError::OutOfBounds)
            }),
    {
        if index >= self.field_state.len() {
            return Err(GameError::OutOfBounds);
        }
        Ok(self.field_state[index])
    }

    /// Whether the cell at `(x, y)` is an unmarked or a revealed mine. A mine
    /// under a flag or a question mark is not reported.
    pub fn is_mined(&self, x: i16, y: i16) -> (r: Result<bool, GameError>)
        requires
            self.wf(),
        ensures
            r == (if self@.in_bounds(x as int, y as int) {
                Ok::<bool, GameError>(
                    self@.at(x as int, y as int) == CellState::Unknown(true) || self@.at(
                        x as int,
                        y as int,
                    ) == CellState::Known(true),
                )
            } else {
                Err(GameError::OutOfBounds)
            }),
    {
        if !self.holds(x, y) {
            return Err(GameError::OutOfBounds);
        }
        let index = self.index_of(x, y);
        Ok(
            self.field_state[index] == CellState::Unknown(true) || self.field_state[index]
                == CellState::Known(true),
        )
    }

    /// Whether the cell at `(x, y)` holds a mine, whatever it shows.
    pub fn has_mine(&self, x: i16, y: i16) -> (r: Result<bool, GameError>)
        requires
            self.wf(),
        ensures
            r == (if self@.in_bounds(x as int, y as int) {
                Ok::<bool, GameError>(self@.at(x as int, y as int).is_mine())
            } else {
                Err(GameError::OutOfBounds)
            }),
    {
        if !self.holds(x, y) {
            return Err(GameError::OutOfBounds);
        }
        let index = self.index_of(x, y);
        Ok(
            match self.field_state[index] {
                CellState::Unknown(mined) => mined,
                CellState::Known(mined) => mined,
                CellState::Flagged(mined) => mined,
                CellState::Questioned(mined) => mined,
                CellState::Counted(_) => false,
            },
        )
    }

    /// 1 if `(x, y)` is a cell that hides a mine, else 0.
    fn mine_at(&self, x: i16, y: i16) -> (r: u8)
        requires
            self.wf(),
        ensures
            r == self@.mine_at(x as int, y as int),
            r <= 1,
    {
        if !self.holds(x, y) {
            return 0;
        }
        let index = self.index_of(x, y);
        match self.field_state[index] {
            CellState::Unknown(true) | CellState::Flagged(true) | CellState::Questioned(true) => 1,
            _ => 0,
        }
    }

    fn count_around(&self, x: i16, y: i16) -> (r: u8)
        requires
            self.wf(),
            self@.in_bounds(x as int, y as int),
        ensures
            r == self@.neighbor_count(x as int, y as int),
            r <= 8,
    {
        self.mine_at(x - 1, y - 1) + self.mine_at(x, y - 1) + self.mine_at(x + 1, y - 1)
            + self.mine_at(x - 1, y) + self.mine_at(x + 1, y) + self.mine_at(x - 1, y + 1)
            + self.mine_at(x, y + 1) + self.mine_at(x + 1, y + 1)
    }

    /// The number of hidden mines among the up to eight cells around
    /// `(x, y)`. A mine under a flag or a question mark counts.
    pub fn neighbor_count(&self, x: i16, y: i16) -> (r: Result<u8, GameError>)
        requires
            self.wf(),
        ensures
            match r {
                Ok(n) => self@.in_bounds(x as int, y as int) && n == self@.neighbor_count(
                    x as int,
                    y as int,
                ),
                Err(e) => e == GameError::OutOfBounds && !self@.in_bounds(x as int, y as int),
            },
    {
        if !self.holds(x, y) {
            return Err(GameError::OutOfBounds);
        }
        Ok(self.count_around(x, y))
    }
}

} // verus!
