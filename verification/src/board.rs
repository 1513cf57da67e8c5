//! The mathematical model of a game: a board of cells in row-major order,
//! and what each command makes of it.

use vstd::prelude::*;
use crate::cell::{CellState, GameState};
use crate::tally::{flag_total, mine_total};

verus! {

/// The number of mines on a board of `area` cells: the quadratic
/// `0.0002 * area^2 + 0.0938 * area + 0.8937`, rounded to the nearest
/// integer, a half upwards. In ten-thousandths that is
/// `2 * area^2 + 938 * area + 8937`, to which 5000 is added before the
/// division rounds down. A board of 10 by 10 cells holds 12 mines, one of 5
/// by 5 cells 3, one of 30 by 18 cells 110.
pub open spec fn mine_count(area: int) -> int {
    (2 * area * area + 938 * area + 13937) / 10000
}

/// Both sides are positive and the mines leave at least one cell free.
pub open spec fn valid_dimensions(width: int, height: int) -> bool {
    width > 0 && height > 0 && mine_count(width * height) < width * height
}

/// What a `Game` stands for.
pub struct Board {
    pub width: int,
    pub height: int,
    /// Row-major: the cell at `(x, y)` has index `y * width + x`.
    pub cells: Seq<CellState>,
    pub state: GameState,
    /// Mines placed when the board was generated.
    pub total: nat,
    /// Mines the player has not flagged yet, by the player's own marks.
    pub remaining: nat,
}

impl Board {
    /// `(x, y)` names a cell of the board.
    pub open spec fn in_bounds(self, x: int, y: int) -> bool {
        0 <= x < self.width && 0 <= y < self.height
    }

    /// The row-major index of the cell at `(x, y)`.
    pub open spec fn index(self, x: int, y: int) -> int {
        y * self.width + x
    }

    /// The cell at `(x, y)`.
    pub open spec fn at(self, x: int, y: int) -> CellState {
        self.cells[self.index(x, y)]
    }

    /// The invariant of a board: its dimensions are valid, it holds one cell
    /// for each place, the mines placed are those that the density asks for,
    /// the remaining mines and the flags together are no more than the
    /// cells, and every count shown lies between 1 and 8.
    pub open spec fn wf(self) -> bool {
        &&& valid_dimensions(self.width, self.height)
        &&& self.cells.len() == self.width * self.height
        &&& self.total == mine_count(self.width * self.height)
        &&& self.remaining + flag_total(self.cells) <= self.cells.len()
        &&& forall|i: int| 0 <= i < self.cells.len() ==> (#[trigger] self.cells[i]).valid()
    }

    /// A board as generation leaves it: every cell covered and unmarked, as
    /// many mines as the density asks for, none of them flagged yet, and no
    /// move made.
    pub open spec fn fresh(self) -> bool {
        &&& self.state == GameState::Initial
        &&& self.remaining == self.total
        &&& mine_total(self.cells) == self.total
        &&& forall|i: int| 0 <= i < self.cells.len() ==> (#[trigger] self.cells[i]) is Unknown
    }

    /// 1 if `(x, y)` is a cell of the board that hides a mine, else 0.
    pub open spec fn mine_at(self, x: int, y: int) -> nat {
        if self.in_bounds(x, y) && self.at(x, y).hides_mine() {
            1
        } else {
            0
        }
    }

    /// The number of hidden mines among the up to eight cells around `(x, y)`.
    pub open spec fn neighbor_count(self, x: int, y: int) -> nat {
        self.mine_at(x - 1, y - 1) + self.mine_at(x, y - 1) + self.mine_at(x + 1, y - 1)
            + self.mine_at(x - 1, y) + self.mine_at(x + 1, y) + self.mine_at(x - 1, y + 1)
            + self.mine_at(x, y + 1) + self.mine_at(x + 1, y + 1)
    }

    /// The board after the cell at `(x, y)` is flagged: a covered or
    /// questioned cell gets the flag, and one mine less remains unless none
    /// remained. The game is being played, whatever the cell was.
    pub open spec fn flag(self, x: int, y: int) -> Board {
        if !self.in_bounds(x, y) {
            self
        } else {
            let c = self.at(x, y);
            Board {
                cells: self.cells.update(self.index(x, y), c.flagged()),
                remaining: if (c is Unknown || c is Questioned) && self.remaining > 0 {
                    (self.remaining - 1) as nat
                } else {
                    self.remaining
                },
                state: GameState::Playing,
                ..self
            }
        }
    }

    /// The board after the cell at `(x, y)` is questioned: a covered or
    /// flagged cell gets the question mark, and where it was flagged one mine
    /// more remains. The game is being played, whatever the cell was.
    pub open spec fn question(self, x: int, y: int) -> Board {
        if !self.in_bounds(x, y) {
            self
        } else {
            let c = self.at(x, y);
            Board {
                cells: self.cells.update(self.index(x, y), c.questioned()),
                remaining: if c is Flagged {
                    self.remaining + 1
                } else {
                    self.remaining
                },
                state: GameState::Playing,
                ..self
            }
        }
    }

    /// The board after the mark is taken off the cell at `(x, y)`: the cell
    /// is covered, and where it was flagged one mine more remains. A cell
    /// that showed a count is covered without a mine. The state of the game
    /// stays.
    pub open spec fn set_unknown(self, x: int, y: int) -> Board {
        if !self.in_bounds(x, y) {
            self
        } else {
            let c = self.at(x, y);
            Board {
                cells: self.cells.update(self.index(x, y), c.unmarked()),
                remaining: if c is Flagged {
                    self.remaining + 1
                } else {
                    self.remaining
                },
                ..self
            }
        }
    }

    /// The next mark of the cell at `(x, y)`: a covered cell is flagged, a
    /// flagged cell questioned, a questioned cell covered again.
    pub open spec fn toggle_mark(self, x: int, y: int) -> Board {
        if !self.in_bounds(x, y) {
            self
        } else {
            match self.at(x, y) {
                CellState::Unknown(_) => self.flag(x, y),
                CellState::Flagged(_) => self.question(x, y),
                CellState::Questioned(_) => self.set_unknown(x, y),
                _ => self,
            }
        }
    }

    /// The cell at `(x, y)` uncovered and, where that loses the game, every
    /// mine shown.
    pub open spec fn press(self, x: int, y: int) -> Board {
        let u = self.uncover(x, y);
        if u.state == GameState::Lost {
            u.show_mined()
        } else {
            u
        }
    }

    /// The board with every unmarked mine revealed.
    pub open spec fn show_mined(self) -> Board {
        Board { cells: Seq::new(self.cells.len(), |i: int| self.cells[i].shown()), ..self }
    }

    /// The board with every cell covered and no mine left, before the first
    /// move. The counters stay.
    pub open spec fn clear(self) -> Board {
        Board {
            cells: Seq::new(self.cells.len(), |i: int| CellState::Unknown(false)),
            state: GameState::Initial,
            ..self
        }
    }

    /// The board with the cell at `index` covered again, with or without a mine.
    pub open spec fn set_mine(self, index: int, mined: bool) -> Board {
        if 0 <= index < self.cells.len() {
            Board { cells: self.cells.update(index, CellState::Unknown(mined)), ..self }
        } else {
            self
        }
    }

    /// What a revealed cell without a mine shows: nothing where no mine is
    /// near, else the number of mines around it.
    pub open spec fn reveal_value(self, x: int, y: int) -> CellState {
        let n = self.neighbor_count(x, y);
        if n == 0 {
            CellState::Known(false)
        } else {
            CellState::Counted(n as u8)
        }
    }

    /// The flood from `(sx, sy)` gets to `(tx, ty)` in at most `n` steps. A
    /// step goes from a cell that it has reached and that has no mine near
    /// it to a cell beside it that is covered, unmarked and without a mine.
    pub open spec fn reaches_within(self, sx: int, sy: int, tx: int, ty: int, n: nat) -> bool
        decreases n, 0nat,
    {
        if n == 0 {
            tx == sx && ty == sy
        } else {
            let m = (n - 1) as nat;
            self.reaches_within(sx, sy, tx, ty, m) || (self.in_bounds(tx, ty) && self.at(tx, ty)
                == CellState::Unknown(false) && (self.spreads_within(sx, sy, tx - 1, ty - 1, m)
                || self.spreads_within(sx, sy, tx, ty - 1, m) || self.spreads_within(
                sx,
                sy,
                tx + 1,
                ty - 1,
                m,
            ) || self.spreads_within(sx, sy, tx - 1, ty, m) || self.spreads_within(
                sx,
                sy,
                tx + 1,
                ty,
                m,
            ) || self.spreads_within(sx, sy, tx - 1, ty + 1, m) || self.spreads_within(
                sx,
                sy,
                tx,
                ty + 1,
                m,
            ) || self.spreads_within(sx, sy, tx + 1, ty + 1, m)))
        }
    }

    /// The flood from `(sx, sy)` gets to `(ux, uy)` in at most `n` steps and
    /// goes on from there: no mine is near `(ux, uy)`.
    pub open spec fn spreads_within(self, sx: int, sy: int, ux: int, uy: int, n: nat) -> bool
        decreases n, 1nat,
    {
        self.in_bounds(ux, uy) && self.neighbor_count(ux, uy) == 0 && self.reaches_within(
            sx,
            sy,
            ux,
            uy,
            n,
        )
    }

    /// The flood from `(sx, sy)` gets to `(tx, ty)`.
    pub open spec fn flood_reaches(self, sx: int, sy: int, tx: int, ty: int) -> bool {
        exists|n: nat| #[trigger] self.reaches_within(sx, sy, tx, ty, n)
    }

    /// The cells after a flood from `(sx, sy)`: every cell that the flood
    /// gets to is revealed, every other cell is as it was.
    pub open spec fn flooded(self, sx: int, sy: int) -> Seq<CellState> {
        Seq::new(
            self.cells.len(),
            |i: int|
                {
                    let x = i % self.width;
                    let y = i / self.width;
                    if self.flood_reaches(sx, sy, x, y) {
                        self.reveal_value(x, y)
                    } else {
                        self.cells[i]
                    }
                },
        )
    }

    /// The board after the cell at `(x, y)` is uncovered. A lost game stays
    /// as it is. A mine, marked or not, is revealed and the game lost. A
    /// covered cell without a mine, marked or not, starts a flood. A
    /// revealed cell stays. But for a lost game, the game is being played.
    pub open spec fn uncover(self, x: int, y: int) -> Board {
        if self.state == GameState::Lost || !self.in_bounds(x, y) {
            self
        } else if self.at(x, y).hides_mine() {
            Board {
                cells: self.cells.update(self.index(x, y), CellState::Known(true)),
                state: GameState::Lost,
                ..self
            }
        } else if self.at(x, y).is_covered_safe() {
            Board { cells: self.flooded(x, y), state: GameState::Playing, ..self }
        } else {
            Board { state: GameState::Playing, ..self }
        }
    }
}

/// A cell inside the board has an index inside the sequence of cells.
pub proof fn lemma_index_in_range(w: int, h: int, x: int, y: int)
    requires
        0 <= x < w,
        0 <= y < h,
    ensures
        0 <= y * w + x < w * h,
        y * w <= w * h,
{
    assert(y * w + x < w * h && 0 <= y * w && y * w <= w * h) by (nonlinear_arith)
        requires
            0 <= x < w,
            0 <= y < h,
    ;
}

/// Two cells inside the board with the same index are the same cell.
pub proof fn lemma_index_injective(w: int, x1: int, y1: int, x2: int, y2: int)
    requires
        0 <= x1 < w,
        0 <= x2 < w,
        0 <= y1,
        0 <= y2,
        y1 * w + x1 == y2 * w + x2,
    ensures
        x1 == x2,
        y1 == y2,
{
    assert(y1 == y2) by (nonlinear_arith)
        requires
            0 <= x1 < w,
            0 <= x2 < w,
            0 <= y1,
            0 <= y2,
            y1 * w + x1 == y2 * w + x2,
    ;
}

/// Every index is the index of one cell inside the board.
pub proof fn lemma_index_coords(w: int, h: int, i: int)
    requires
        0 < w,
        0 <= i < w * h,
    ensures
        0 <= i % w < w,
        0 <= i / w < h,
        (i / w) * w + i % w == i,
{
    vstd::arithmetic::div_mod::lemma_fundamental_div_mod(i, w);
    vstd::arithmetic::div_mod::lemma_mod_bound(i, w);
    let q = i / w;
    let r = i % w;
    assert(q * w == w * q) by (nonlinear_arith);
    assert(0 <= q < h) by (nonlinear_arith)
        requires
            0 < w,
            0 <= r < w,
            0 <= i < w * h,
            i == w * q + r,
    ;
}

/// Dimensions are valid exactly for boards of 2 to 4529 cells.
pub proof fn lemma_valid_area(area: int)
    ensures
        mine_count(area) < area <==> 2 <= area <= 4529,
        2 <= area <= 4529 ==> 1 <= mine_count(area) <= 4528,
{
    let n = 2 * area * area + 938 * area + 13937;
    assert(area >= 4530 || area <= 1 ==> n >= 10000 * area) by (nonlinear_arith)
        requires
            n == 2 * area * area + 938 * area + 13937,
    ;
    assert(2 <= area <= 4529 ==> 10000 <= n < 10000 * area) by (nonlinear_arith)
        requires
            n == 2 * area * area + 938 * area + 13937,
    ;
}

} // verus!
