//! Generation: wiping the board and placing the mines.

use vstd::prelude::*;
use rand::rngs::StdRng;
use crate::board::{lemma_valid_area, mine_count, valid_dimensions, Board};
use crate::cell::{CellState, GameError, GameState};
use crate::game::{Game, MAX_RESAMPLES};
use crate::random::{draw_below, entropy_rng};
use crate::tally::{
    flag_pred, lemma_tally_none, lemma_tally_step, lemma_tally_update, mine_pred, mine_total,
};

verus! {

/// The number of mines on a board of `area` cells.
fn density(area: u64) -> (m: u64)
    requires
        area <= 0x4000_0000,
    ensures
        m == mine_count(area as int),
{
    assert(area * area <= 0x1000_0000_0000_0000 && 2 * area * area == 2 * (area * area))
        by (nonlinear_arith)
        requires
            area <= 0x4000_0000,
    ;
    let square: u64 = area * area;
    (2 * square + 938 * area + 13937) / 10000
}

impl Game {
    /// Puts a mine under the cell at `index` unless it is an unmarked mine
    /// already, and says whether it did.
    fn plant(&mut self, index: usize) -> (planted: bool)
        requires
            old(self).wf(),
            index < old(self)@.cells.len(),
        ensures
            final(self).wf(),
            planted == (old(self)@.cells[index as int] != CellState::Unknown(true)),
            final(self)@ == (if planted {
                old(self)@.set_mine(index as int, true)
            } else {
                old(self)@
            }),
    {
        if self.field_state[index] == CellState::Unknown(true) {
            return false;
        }
        proof {
            lemma_tally_update(
                self.field_state@,
                index as int,
                CellState::Unknown(true),
                flag_pred(),
            );
        }
        self.field_state[index] = CellState::Unknown(true);
        true
    }

    /// Puts a mine under the free cell that has `rank` free cells before it.
    fn plant_free(&mut self, rank: usize) -> (index: usize)
        requires
            old(self).wf(),
            forall|i: int|
                0 <= i < old(self)@.cells.len() ==> (#[trigger] old(self)@.cells[i]) is Unknown,
            rank + mine_total(old(self)@.cells) < old(self)@.cells.len(),
        ensures
            final(self).wf(),
            index < old(self)@.cells.len(),
            old(self)@.cells[index as int] == CellState::Unknown(false),
            index - mine_total(old(self)@.cells.take(index as int)) == rank,
            final(self)@ == old(self)@.set_mine(index as int, true),
    {
        let n = self.field_state.len();
        let mut seen: usize = 0;
        let mut i: usize = 0;
        while i < n
            invariant
                *self == *old(self),
                self.wf(),
                n == self.field_state@.len(),
                i <= n,
                seen + mine_total(self.field_state@.take(i as int)) == i,
                seen <= rank,
                forall|j: int|
                    0 <= j < self.field_state@.len() ==> (#[trigger] self.field_state@[j]) is Unknown,
            decreases n - i,
        {
            proof {
                lemma_tally_step(self.field_state@, i as int, mine_pred());
            }
            if self.field_state[i] == CellState::Unknown(false) {
                if seen == rank {
                    proof {
                        lemma_tally_update(
                            self.field_state@,
                            i as int,
                            CellState::Unknown(true),
                            flag_pred(),
                        );
                    }
                    self.field_state[i] = CellState::Unknown(true);
                    return i;
                }
                seen += 1;
            }
            i += 1;
        }
        proof {
            assert(self.field_state@.take(n as int) =~= self.field_state@);
        }
        0
    }

    /// Places the mines on a board that holds none: as many as the density
    /// asks for, each under a cell of its own.
    ///
    /// A cell is drawn for each mine, and drawn again where it is mined
    /// already. After `MAX_RESAMPLES` such draws the mine goes under a free
    /// cell picked by one more draw among the free cells alone.
    fn seed(&mut self, rng: &mut StdRng)
        requires
            old(self).wf(),
            forall|i: int|
                0 <= i < old(self)@.cells.len() ==> #[trigger] old(self)@.cells[i]
                    == CellState::Unknown(false),
        ensures
            final(self).wf(),
            final(self)@ == (Board { cells: final(self)@.cells, ..old(self)@ }),
            mine_total(final(self)@.cells) == final(self)@.total,
            forall|i: int|
                0 <= i < final(self)@.cells.len() ==> (#[trigger] final(self)@.cells[i]) is Unknown,
    {
        let size = self.field_state.len();
        let mut placed: u16 = 0;
        proof {
            lemma_tally_none(self.field_state@, mine_pred());
            lemma_valid_area(self.width as int * self.height as int);
        }
        while placed < self.total
            invariant
                self.wf(),
                self@ == (Board { cells: self@.cells, ..old(self)@ }),
                size == self.field_state@.len(),
                placed <= self.total,
                self.total < size,
                mine_total(self.field_state@) == placed,
                forall|j: int|
                    0 <= j < self.field_state@.len() ==> (#[trigger] self.field_state@[j]) is Unknown,
            decreases self.total - placed,
        {
            let mut tries: usize = 0;
            let mut planted = false;
            while !planted && tries < MAX_RESAMPLES
                invariant
                    self.wf(),
                    self@ == (Board { cells: self@.cells, ..old(self)@ }),
                    size == self.field_state@.len(),
                    placed < self.total,
                    self.total < size,
                    tries <= MAX_RESAMPLES,
                    mine_total(self.field_state@) == placed + (if planted {
                        1int
                    } else {
                        0int
                    }),
                    forall|j: int|
                        0 <= j < self.field_state@.len() ==> (
                        #[trigger] self.field_state@[j]) is Unknown,
                decreases MAX_RESAMPLES - tries,
            {
                let cell = draw_below(rng, size);
                proof {
                    lemma_tally_update(
                        self.field_state@,
                        cell as int,
                        CellState::Unknown(true),
                        mine_pred(),
                    );
                }
                planted = self.plant(cell);
                tries += 1;
            }
            if !planted {
                let rank = draw_below(rng, size - placed as usize);
                let ghost before = self.field_state@;
                let index = self.plant_free(rank);
                proof {
                    lemma_tally_update(
                        before,
                        index as int,
                        CellState::Unknown(true),
                        mine_pred(),
                    );
                }
            }
            placed += 1;
        }
    }

    /// A new game on a board of `width` by `height` cells, its mines placed
    /// by the random source `rng`.
    pub fn with_rng(width: i16, height: i16, rng: &mut StdRng) -> (r: Result<Game, GameError>)
        ensures
            match r {
                Ok(g) => {
                    &&& valid_dimensions(width as int, height as int)
                    &&& g.wf()
                    &&& g@.width == width
                    &&& g@.height == height
                    &&& g@.fresh()
                },
                Err(e) => e == GameError::InvalidDimensions && !valid_dimensions(
                    width as int,
                    height as int,
                ),
            },
    {
        if width <= 0 || height <= 0 {
            return Err(GameError::InvalidDimensions);
        }
        assert(width as int * height as int <= 0x4000_0000 && width as int * height as int > 0)
            by (nonlinear_arith)
            requires
                0 < width <= 0x7fff,
                0 < height <= 0x7fff,
        ;
        let area: u64 = (width as u64) * (height as u64);
        let mines = density(area);
        if mines >= area {
            return Err(GameError::InvalidDimensions);
        }
        proof {
            lemma_valid_area(area as int);
        }
        let size = area as usize;
        let mut cells: Vec<CellState> = Vec::with_capacity(size);
        let mut i: usize = 0;
        while i < size
            invariant
                i <= size,
                i == cells@.len(),
                forall|j: int| 0 <= j < i ==> #[trigger] cells@[j] == CellState::Unknown(false),
            decreases size - i,
        {
            cells.push(CellState::Unknown(false));
            i += 1;
        }
        let mut game = Game {
            width,
            height,
            state: GameState::Initial,
            field_state: cells,
            total: mines as u16,
            remaining: mines as u16,
        };
        proof {
            lemma_tally_none(game.field_state@, flag_pred());
        }
        game.seed(rng);
        Ok(game)
    }

    /// A new game on a board of `width` by `height` cells, its mines placed
    /// at random.
    pub fn new(width: i16, height: i16) -> (r: Result<Game, GameError>)
        ensures
            match r {
                Ok(g) => {
                    &&& valid_dimensions(width as int, height as int)
                    &&& g.wf()
                    &&& g@.width == width
                    &&& g@.height == height
                    &&& g@.fresh()
                },
                Err(e) => e == GameError::InvalidDimensions && !valid_dimensions(
                    width as int,
                    height as int,
                ),
            },
    {
        let mut rng = entropy_rng();
        Game::with_rng(width, height, &mut rng)
    }

    /// Wipes the board and places the mines anew by the random source
    /// `rng`. The dimensions stay.
    pub fn reset_with(&mut self, rng: &mut StdRng)
        requires
            old(self).wf(),
        ensures
            final(self).wf(),
            final(self)@.width == old(self)@.width,
            final(self)@.height == old(self)@.height,
            final(self)@.total == old(self)@.total,
            final(self)@.fresh(),
    {
        self.clear();
        self.seed(rng);
        self.remaining = self.total;
        self.state = GameState::Initial;
        proof {
            lemma_valid_area(self.width as int * self.height as int);
            lemma_tally_none(self.field_state@, flag_pred());
        }
    }

    /// Wipes the board and places the mines anew at random.
    pub fn reset(&mut self)
        requires
            old(self).wf(),
        ensures
            final(self).wf(),
            final(self)@.width == old(self)@.width,
            final(self)@.height == old(self)@.height,
            final(self)@.total == old(self)@.total,
            final(self)@.fresh(),
    {
        let mut rng = entropy_rng();
        self.reset_with(&mut rng);
    }

    /// Covers every cell and takes every mine off the board. The counters
    /// stay as they are.
    pub fn clear(&mut self)
        requires
            old(self).wf(),
        ensures
            final(self).wf(),
            final(self)@ == old(self)@.clear(),
    {
        let n = self.field_state.len();
        self.field_state.clear();
        let mut i: usize = 0;
        while i < n
            invariant
                i <= n,
                i == self.field_state@.len(),
                n == old(self).field_state@.len(),
                self.width == old(self).width,
                self.height == old(self).height,
                self.state == old(self).state,
                self.total == old(self).total,
                self.remaining == old(self).remaining,
                forall|j: int| 0 <= j < i ==> #[trigger] self.field_state@[j] == CellState::Unknown(false),
            decreases n - i,
        {
            self.field_state.push(CellState::Unknown(false));
            i += 1;
        }
        self.state = GameState::Initial;
        proof {
            lemma_tally_none(self.field_state@, flag_pred());
            assert(self@.cells =~= old(self)@.clear().cells);
        }
    }
}

} // verus!
