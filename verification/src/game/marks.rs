//! The player's marks: flags and question marks.

use vstd::prelude::*;
use crate::board::lemma_valid_area;
use crate::cell::{CellState, GameError, GameState};
use crate::game::Game;
use crate::tally::{flag_pred, lemma_tally_bound, lemma_tally_update};

verus! {

impl Game {
    /// Marks the cell at `(x, y)` as a suspected mine.
    pub fn flag(&mut self, x: i16, y: i16) -> (r: Result<(), GameError>)
        requires
            old(self).wf(),
        ensures
            final(self).wf(),
            final(self)@ == old(self)@.flag(x as int, y as int),
            r == (if old(self)@.in_bounds(x as int, y as int) {
                Ok::<(), GameError>(())
            } else {
                Err(GameError::OutOfBounds)
            }),
    {
        if !self.holds(x, y) {
            return Err(GameError::OutOfBounds);
        }
        let index = self.index_of(x, y);
        match self.field_state[index] {
            CellState::Unknown(mined) | CellState::Questioned(mined) => {
                proof {
                    lemma_tally_update(
                        self.field_state@,
                        index as int,
                        CellState::Flagged(mined),
                        flag_pred(),
                    );
                    lemma_tally_bound(
                        self.field_state@.update(index as int, CellState::Flagged(mined)),
                        flag_pred(),
                    );
                }
                self.field_state[index] = CellState::Flagged(mined);
                if self.remaining > 0 {
                    self.remaining -= 1;
                }
            },
            _ => {},
        }
        self.state = GameState::Playing;
        assert(self@.cells =~= old(self)@.flag(x as int, y as int).cells);
        Ok(())
    }

    /// Marks the cell at `(x, y)` as uncertain.
    pub fn question(&mut self, x: i16, y: i16) -> (r: Result<(), GameError>)
        requires
            old(self).wf(),
        ensures
            final(self).wf(),
            final(self)@ == old(self)@.question(x as int, y as int),
            r == (if old(self)@.in_bounds(x as int, y as int) {
                Ok::<(), GameError>(())
            } else {
                Err(GameError::OutOfBounds)
            }),
    {
        if !self.holds(x, y) {
            return Err(GameError::OutOfBounds);
        }
        let index = self.index_of(x, y);
        proof {
            lemma_valid_area(self.width as int * self.height as int);
        }
        match self.field_state[index] {
            CellState::Unknown(mined) => {
                proof {
                    lemma_tally_update(
                        self.field_state@,
                        index as int,
                        CellState::Questioned(mined),
                        flag_pred(),
                    );
                }
                self.field_state[index] = CellState::Questioned(mined);
            },
            CellState::Flagged(mined) => {
                proof {
                    lemma_tally_update(
                        self.field_state@,
                        index as int,
                        CellState::Questioned(mined),
                        flag_pred(),
                    );
                }
                self.field_state[index] = CellState::Questioned(mined);
                self.remaining += 1;
            },
            _ => {},
        }
        self.state = GameState::Playing;
        assert(self@.cells =~= old(self)@.question(x as int, y as int).cells);
        Ok(())
    }

    /// Takes the player's mark off the cell at `(x, y)` and covers it again.
    pub fn set_unknown(&mut self, x: i16, y: i16) -> (r: Result<(), GameError>)
        requires
            old(self).wf(),
        ensures
            final(self).wf(),
            final(self)@ == old(self)@.set_unknown(x as int, y as int),
            r == (if old(self)@.in_bounds(x as int, y as int) {
                Ok::<(), GameError>(())
            } else {
                Err(GameError::OutOfBounds)
            }),
    {
        if !self.holds(x, y) {
            return Err(GameError::OutOfBounds);
        }
        let index = self.index_of(x, y);
        proof {
            lemma_valid_area(self.width as int * self.height as int);
            lemma_tally_update(
                self.field_state@,
                index as int,
                self.field_state@[index as int].unmarked(),
                flag_pred(),
            );
        }
        match self.field_state[index] {
            CellState::Flagged(mined) => {
                self.field_state[index] = CellState::Unknown(mined);
                self.remaining += 1;
            },
            CellState::Known(mined) | CellState::Questioned(mined) => {
                self.field_state[index] = CellState::Unknown(mined);
            },
            CellState::Counted(_) => {
                self.field_state[index] = CellState::Unknown(false);
            },
            _ => {},
        }
        assert(self@.cells =~= old(self)@.set_unknown(x as int, y as int).cells);
        Ok(())
    }

    /// Gives the cell at `(x, y)` its next mark: a covered cell is flagged, a
    /// flagged cell questioned, a questioned cell covered again. A revealed
    /// cell stays as it is.
    pub fn toggle_mark(&mut self, x: i16, y: i16) -> (r: Result<(), GameError>)
        requires
            old(self).wf(),
        ensures
            final(self).wf(),
            final(self)@ == old(self)@.toggle_mark(x as int, y as int),
            r == (if old(self)@.in_bounds(x as int, y as int) {
                Ok::<(), GameError>(())
            } else {
                Err(GameError::OutOfBounds)
            }),
    {
        match self.cell_state(x, y) {
            Err(e) => Err(e),
            Ok(CellState::Unknown(_)) => self.flag(x, y),
            Ok(CellState::Flagged(_)) => self.question(x, y),
            Ok(CellState::Questioned(_)) => self.set_unknown(x, y),
            Ok(_) => Ok(()),
        }
    }

    /// Covers the cell at a row-major index again, with a mine under it or
    /// without. Neither counter changes.
    pub fn set_mine(&mut self, index: usize, mined: bool) -> (r: Result<(), GameError>)
        requires
            old(self).wf(),
        ensures
            final(self).wf(),
            final(self)@ == old(self)@.set_mine(index as int, mined),
            r == (if index < old(self)@.cells.len() {
                Ok::<(), GameError>(())
            } else {
                Err(GameError::OutOfBounds)
            }),
    {
        if index >= self.field_state.len() {
            return Err(GameError::OutOfBounds);
        }
        proof {
            lemma_tally_update(
                self.field_state@,
                index as int,
                CellState::Unknown(mined),
                flag_pred(),
            );
        }
        self.field_state[index] = CellState::Unknown(mined);
        Ok(())
    }
}

} // verus!
