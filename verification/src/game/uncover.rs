//! Uncovering a cell, and the flood that reveals a region.

use vstd::prelude::*;
use rand::rngs::StdRng;
use crate::board::Board;
use crate::cell::{CellState, GameError, GameState};
use crate::flood::{
    adjacent, entry_ok, extends, flood_inv, lemma_count_unchanged, lemma_flood_again,
    lemma_flood_finish, lemma_flood_reveal, lemma_flood_start, lemma_on_stack_grows, not_covered,
    on_stack, spread_all, spread_to,
};
use crate::game::Game;
use crate::tally::{
    covered_safe_pred, covered_safe_total, flag_pred, flag_total, lemma_tally_update,
};

verus! {

impl Game {
    /// Pushes `(ux, uy)`, a place beside `(x, y)`, where it is a cell of the
    /// board that is covered, unmarked and without a mine.
    fn push_if_covered(
        &self,
        stack: &mut Vec<(i16, i16)>,
        Ghost(base): Ghost<Seq<(i16, i16)>>,
        Ghost(x): Ghost<int>,
        Ghost(y): Ghost<int>,
        ux: i16,
        uy: i16,
    )
        requires
            self.wf(),
            adjacent(x, y, ux as int, uy as int),
            extends(self@, self@.cells, base, old(stack)@, x, y),
        ensures
            extends(self@, self@.cells, base, final(stack)@, x, y),
            spread_to(
                self@,
                self@.cells,
                final(stack)@,
                base.len() as int,
                ux as int,
                uy as int,
            ),
            forall|vx: int, vy: int| #[trigger]
                on_stack(old(stack)@, base.len() as int, vx, vy) ==> on_stack(
                    final(stack)@,
                    base.len() as int,
                    vx,
                    vy,
                ),
    {
        let ghost before = stack@;
        if self.holds(ux, uy) {
            let index = self.index_of(ux, uy);
            if self.field_state[index] == CellState::Unknown(false) {
                stack.push((ux, uy));
                assert(stack@[before.len() as int] == (ux, uy));
            }
        }
        assert forall|vx: int, vy: int| #[trigger]
            on_stack(before, base.len() as int, vx, vy) implies on_stack(
            stack@,
            base.len() as int,
            vx,
            vy,
        ) by {
            lemma_on_stack_grows(before, stack@, base.len() as int, vx, vy);
        }
    }

    /// Pushes every cell around `(x, y)` that is covered, unmarked and
    /// without a mine.
    fn spread_around(&self, stack: &mut Vec<(i16, i16)>, x: i16, y: i16)
        requires
            self.wf(),
            self@.in_bounds(x as int, y as int),
        ensures
            extends(self@, self@.cells, old(stack)@, final(stack)@, x as int, y as int),
            spread_all(
                self@,
                self@.cells,
                final(stack)@,
                old(stack)@.len() as int,
                x as int,
                y as int,
            ),
    {
        let ghost base = stack@;
        let ghost xi = x as int;
        let ghost yi = y as int;
        self.push_if_covered(stack, Ghost(base), Ghost(xi), Ghost(yi), x - 1, y - 1);
        self.push_if_covered(stack, Ghost(base), Ghost(xi), Ghost(yi), x, y - 1);
        self.push_if_covered(stack, Ghost(base), Ghost(xi), Ghost(yi), x + 1, y - 1);
        self.push_if_covered(stack, Ghost(base), Ghost(xi), Ghost(yi), x - 1, y);
        self.push_if_covered(stack, Ghost(base), Ghost(xi), Ghost(yi), x + 1, y);
        self.push_if_covered(stack, Ghost(base), Ghost(xi), Ghost(yi), x - 1, y + 1);
        self.push_if_covered(stack, Ghost(base), Ghost(xi), Ghost(yi), x, y + 1);
        self.push_if_covered(stack, Ghost(base), Ghost(xi), Ghost(yi), x + 1, y + 1);
    }

    /// Reveals the covered cell at `(x, y)`, which holds no mine, and every
    /// cell that the flood gets to from it.
    ///
    /// The cells to look at wait on a stack, at first the cell at `(x, y)`
    /// alone. A cell taken off the stack shows the number of mines around
    /// it; where there is none, it shows as empty, and the covered, unmarked
    /// cells around it are pushed.
    fn flood(&mut self, x: i16, y: i16)
        requires
            old(self).wf(),
            old(self)@.in_bounds(x as int, y as int),
            old(self)@.at(x as int, y as int).is_covered_safe(),
        ensures
            final(self).wf(),
            final(self)@ == (Board {
                cells: old(self)@.flooded(x as int, y as int),
                ..old(self)@
            }),
    {
        let ghost b0 = self@;
        let ghost mut done: Set<(int, int)> = Set::empty();
        let mut stack: Vec<(i16, i16)> = Vec::new();
        stack.push((x, y));
        proof {
            lemma_flood_start(b0, x, y);
            assert(stack@ =~= seq![(x, y)]);
        }
        while stack.len() > 0
            invariant
                self.width == old(self).width,
                self.height == old(self).height,
                self.state == old(self).state,
                self.total == old(self).total,
                self.remaining == old(self).remaining,
                b0 == old(self)@,
                b0.wf(),
                b0.in_bounds(x as int, y as int),
                b0.at(x as int, y as int).is_covered_safe(),
                flood_inv(b0, self.field_state@, done, stack@, x as int, y as int),
                flag_total(self.field_state@) <= flag_total(b0.cells),
                forall|j: int|
                    0 <= j < self.field_state@.len() ==> (#[trigger] self.field_state@[j]).valid(),
            decreases covered_safe_total(self.field_state@), stack@.len(),
        {
            let ghost before = stack@;
            let ghost cur = self.field_state@;
            let (cx, cy) = stack.pop().unwrap();
            let ghost again = done.contains((cx as int, cy as int));
            let ghost shown = b0.reveal_value(cx as int, cy as int);
            assert(entry_ok(b0, done, x as int, y as int, before[before.len() - 1]));
            let index = self.index_of(cx, cy);
            let count = self.count_around(cx, cy);
            proof {
                lemma_count_unchanged(b0, cur, done, x as int, y as int, cx as int, cy as int);
                assert(self@ == (Board { cells: cur, ..b0 }));
                if again {
                    lemma_flood_again(b0, cur, done, before, x as int, y as int);
                    assert(cur.update(index as int, shown) =~= cur);
                } else {
                    lemma_tally_update(cur, index as int, shown, flag_pred());
                    lemma_tally_update(cur, index as int, shown, covered_safe_pred());
                }
            }
            if count == 0 {
                self.field_state[index] = CellState::Known(false);
                self.spread_around(&mut stack, cx, cy);
            } else {
                self.field_state[index] = CellState::Counted(count);
            }
            proof {
                assert(self@ == (Board { cells: self.field_state@, ..b0 }));
                if again {
                    if stack@.len() > before.len() - 1 {
                        let q = stack@[before.len() - 1];
                        assert(adjacent(cx as int, cy as int, q.0 as int, q.1 as int));
                        assert(!not_covered(b0, cur, q.0 as int, q.1 as int));
                    }
                    assert(stack@ =~= before.drop_last());
                } else {
                    lemma_flood_reveal(
                        b0,
                        cur,
                        done,
                        before,
                        self.field_state@,
                        stack@,
                        x as int,
                        y as int,
                    );
                    done = done.insert((cx as int, cy as int));
                }
            }
        }
        proof {
            assert(stack@ =~= Seq::empty());
            lemma_flood_finish(b0, self.field_state@, done, x as int, y as int);
        }
    }

    /// Uncovers the cell at `(x, y)` and says what state the game is in then.
    ///
    /// A lost game is frozen: nothing changes, whatever the coordinates.
    /// Uncovering a mine loses the game. Uncovering a covered cell without a
    /// mine reveals it and every cell that the flood gets to from it.
    pub fn uncover(&mut self, x: i16, y: i16) -> (r: Result<GameState, GameError>)
        requires
            old(self).wf(),
        ensures
            final(self).wf(),
            final(self)@ == old(self)@.uncover(x as int, y as int),
            r == (if old(self)@.state != GameState::Lost && !old(self)@.in_bounds(
                x as int,
                y as int,
            ) {
                Err::<GameState, GameError>(GameError::OutOfBounds)
            } else {
                Ok(final(self)@.state)
            }),
            old(self)@.state == GameState::Lost ==> final(self)@ == old(self)@ && r == Ok::<
                GameState,
                GameError,
            >(GameState::Lost),
    {
        if self.state == GameState::Lost {
            return Ok(self.state);
        }
        if !self.holds(x, y) {
            return Err(GameError::OutOfBounds);
        }
        let index = self.index_of(x, y);
        match self.field_state[index] {
            CellState::Questioned(false) | CellState::Flagged(false) | CellState::Unknown(false) => {
                self.flood(x, y);
                self.state = GameState::Playing;
            },
            CellState::Questioned(true) | CellState::Flagged(true) | CellState::Unknown(true) => {
                proof {
                    lemma_tally_update(
                        self.field_state@,
                        index as int,
                        CellState::Known(true),
                        flag_pred(),
                    );
                }
                self.field_state[index] = CellState::Known(true);
                self.state = GameState::Lost;
            },
            _ => {
                self.state = GameState::Playing;
            },
        }
        Ok(self.state)
    }

    /// Reveals every unmarked mine.
    pub fn show_mined(&mut self)
        requires
            old(self).wf(),
        ensures
            final(self).wf(),
            final(self)@ == old(self)@.show_mined(),
    {
        let n = self.field_state.len();
        let mut i: usize = 0;
        while i < n
            invariant
                i <= n,
                n == self.field_state@.len(),
                self.field_state@.len() == old(self).field_state@.len(),
                self.width == old(self).width,
                self.height == old(self).height,
                self.state == old(self).state,
                self.total == old(self).total,
                self.remaining == old(self).remaining,
                flag_total(self.field_state@) == flag_total(old(self).field_state@),
                forall|j: int|
                    0 <= j < i ==> self.field_state@[j] == (#[trigger] old(
                        self,
                    ).field_state@[j]).shown(),
                forall|j: int|
                    i <= j < n ==> self.field_state@[j] == #[trigger] old(self).field_state@[j],
                forall|j: int| 0 <= j < n ==> (#[trigger] self.field_state@[j]).valid(),
            decreases n - i,
        {
            if self.field_state[i] == CellState::Unknown(true) {
                proof {
                    lemma_tally_update(
                        self.field_state@,
                        i as int,
                        CellState::Known(true),
                        flag_pred(),
                    );
                }
                self.field_state[i] = CellState::Known(true);
            }
            i += 1;
        }
        assert(self@.cells =~= old(self)@.show_mined().cells);
    }

    /// Uncovers the cell at `(x, y)` and, where that loses the game, shows
    /// every mine.
    fn uncover_and_show(&mut self, x: i16, y: i16) -> (r: Result<GameState, GameError>)
        requires
            old(self).wf(),
            old(self)@.state != GameState::Lost,
        ensures
            final(self).wf(),
            final(self)@ == old(self)@.press(x as int, y as int),
            r == (if old(self)@.in_bounds(x as int, y as int) {
                Ok::<GameState, GameError>(final(self)@.state)
            } else {
                Err(GameError::OutOfBounds)
            }),
    {
        match self.uncover(x, y) {
            Err(e) => Err(e),
            Ok(state) => {
                if state == GameState::Lost {
                    self.show_mined();
                }
                Ok(state)
            },
        }
    }

    /// Plays the cell at `(x, y)` and says what state the game is in then.
    ///
    /// On a lost game this starts a new one on the same board, its mines
    /// placed by `rng`, whatever the coordinates. Otherwise the cell is
    /// uncovered, and where that loses the game every mine is shown.
    pub fn press_with(&mut self, x: i16, y: i16, rng: &mut StdRng) -> (r: Result<
        GameState,
        GameError,
    >)
        requires
            old(self).wf(),
        ensures
            final(self).wf(),
            old(self)@.state == GameState::Lost ==> {
                &&& r == Ok::<GameState, GameError>(GameState::Initial)
                &&& final(self)@.width == old(self)@.width
                &&& final(self)@.height == old(self)@.height
                &&& final(self)@.fresh()
            },
            old(self)@.state != GameState::Lost ==> {
                &&& final(self)@ == old(self)@.press(x as int, y as int)
                &&& r == (if old(self)@.in_bounds(x as int, y as int) {
                    Ok::<GameState, GameError>(final(self)@.state)
                } else {
                    Err(GameError::OutOfBounds)
                })
            },
    {
        if self.state == GameState::Lost {
            self.reset_with(rng);
            return Ok(self.state);
        }
        self.uncover_and_show(x, y)
    }

    /// Plays the cell at `(x, y)` as `press_with` does, with mines placed at
    /// random where a new game starts.
    pub fn press(&mut self, x: i16, y: i16) -> (r: Result<GameState, GameError>)
        requires
            old(self).wf(),
        ensures
            final(self).wf(),
            old(self)@.state == GameState::Lost ==> {
                &&& r == Ok::<GameState, GameError>(GameState::Initial)
                &&& final(self)@.width == old(self)@.width
                &&& final(self)@.height == old(self)@.height
                &&& final(self)@.fresh()
            },
            old(self)@.state != GameState::Lost ==> {
                &&& final(self)@ == old(self)@.press(x as int, y as int)
                &&& r == (if old(self)@.in_bounds(x as int, y as int) {
                    Ok::<GameState, GameError>(final(self)@.state)
                } else {
                    Err(GameError::OutOfBounds)
                })
            },
    {
        if self.state == GameState::Lost {
            self.reset();
            return Ok(self.state);
        }
        self.uncover_and_show(x, y)
    }
}

} // verus!
