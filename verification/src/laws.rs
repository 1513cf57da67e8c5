//! What holds of the commands on every board.

use vstd::prelude::*;
use crate::board::{lemma_index_coords, lemma_index_in_range, lemma_index_injective, Board};
use crate::cell::{CellState, GameState};
use crate::flood::{adjacent, lemma_flood_spreads};
use crate::tally::{
    flag_pred, lemma_tally_bound, lemma_tally_le, lemma_tally_none, lemma_tally_same,
    lemma_tally_update, mine_pred, mine_total,
};

verus! {

impl Board {
    /// 1 if `(x, y)` is a cell of the board that holds a mine, shown or not, else 0.
    pub open spec fn truth_at(self, x: int, y: int) -> nat {
        if self.in_bounds(x, y) && self.at(x, y).is_mine() {
            1
        } else {
            0
        }
    }

    /// The number of mines, shown or not, among the up to eight cells around `(x, y)`.
    pub open spec fn truth_count(self, x: int, y: int) -> nat {
        self.truth_at(x - 1, y - 1) + self.truth_at(x, y - 1) + self.truth_at(x + 1, y - 1)
            + self.truth_at(x - 1, y) + self.truth_at(x + 1, y) + self.truth_at(x - 1, y + 1)
            + self.truth_at(x, y + 1) + self.truth_at(x + 1, y + 1)
    }

    /// The cells from the start of a flood along `path` touch one after the
    /// other, no mine is near any of them, and all but the start are covered
    /// and unmarked.
    pub open spec fn zero_path(self, sx: int, sy: int, path: Seq<(int, int)>) -> bool {
        &&& path.len() >= 1
        &&& path[0] == (sx, sy)
        &&& forall|i: int|
            0 <= i < path.len() ==> self.in_bounds((#[trigger] path[i]).0, path[i].1)
                && self.neighbor_count(path[i].0, path[i].1) == 0
        &&& forall|i: int|
            1 <= i < path.len() ==> self.at((#[trigger] path[i]).0, path[i].1)
                == CellState::Unknown(false) && adjacent(
                path[i - 1].0,
                path[i - 1].1,
                path[i].0,
                path[i].1,
            )
    }

    /// A flood may start at `(sx, sy)`: the game is not lost, and the cell is
    /// covered and holds no mine.
    pub open spec fn floods_from(self, sx: int, sy: int) -> bool {
        &&& self.wf()
        &&& self.state != GameState::Lost
        &&& self.in_bounds(sx, sy)
        &&& self.at(sx, sy).is_covered_safe()
    }
}

/// The number of hidden mines around a cell depends only on which cells
/// hide a mine, not on how they are marked.
pub proof fn lemma_count_ignores_marks(a: Board, b: Board, x: int, y: int)
    requires
        a.wf(),
        a.width == b.width,
        a.height == b.height,
        a.cells.len() == b.cells.len(),
        forall|i: int|
            0 <= i < a.cells.len() ==> (#[trigger] a.cells[i]).hides_mine()
                == b.cells[i].hides_mine(),
    ensures
        a.neighbor_count(x, y) == b.neighbor_count(x, y),
{
    assert forall|ux: int, uy: int| a.mine_at(ux, uy) == b.mine_at(ux, uy) by {
        if a.in_bounds(ux, uy) {
            lemma_index_in_range(a.width, a.height, ux, uy);
            assert(a.cells[a.index(ux, uy)].hides_mine() == b.cells[a.index(ux, uy)].hides_mine());
        }
    }
}

/// Flagging or questioning a cell changes no count of hidden mines.
pub proof fn lemma_marks_keep_counts(b: Board, cx: int, cy: int, x: int, y: int)
    requires
        b.wf(),
    ensures
        b.flag(cx, cy).neighbor_count(x, y) == b.neighbor_count(x, y),
        b.question(cx, cy).neighbor_count(x, y) == b.neighbor_count(x, y),
{
    if b.in_bounds(cx, cy) {
        lemma_index_in_range(b.width, b.height, cx, cy);
    }
    lemma_count_ignores_marks(b, b.flag(cx, cy), x, y);
    lemma_count_ignores_marks(b, b.question(cx, cy), x, y);
}

/// Where no mine around a cell has been revealed, the count of hidden mines
/// around it is the number of cells around it that hold a mine.
pub proof fn lemma_count_is_truth(b: Board, x: int, y: int)
    requires
        b.wf(),
        forall|ux: int, uy: int|
            adjacent(x, y, ux, uy) && b.in_bounds(ux, uy) ==> #[trigger] b.at(ux, uy)
                != CellState::Known(true),
    ensures
        b.neighbor_count(x, y) == b.truth_count(x, y),
{
    assert forall|ux: int, uy: int| adjacent(x, y, ux, uy) implies b.mine_at(ux, uy) == b.truth_at(
        ux,
        uy,
    ) by {
        if b.in_bounds(ux, uy) {
            assert(b.at(ux, uy) != CellState::Known(true));
        }
    }
}

/// A cell of the flooded board is revealed where the flood gets to it, and
/// is as it was where the flood does not.
pub proof fn lemma_flooded_at(b: Board, sx: int, sy: int, x: int, y: int)
    requires
        b.wf(),
        b.in_bounds(x, y),
    ensures
        b.flooded(sx, sy)[b.index(x, y)] == (if b.flood_reaches(sx, sy, x, y) {
            b.reveal_value(x, y)
        } else {
            b.at(x, y)
        }),
{
    lemma_index_in_range(b.width, b.height, x, y);
    vstd::arithmetic::div_mod::lemma_fundamental_div_mod_converse(b.index(x, y), b.width, y, x);
}

/// The flood gets to the `i`-th cell of a path in at most `i` steps.
proof fn lemma_path_reaches(b: Board, sx: int, sy: int, path: Seq<(int, int)>, i: int)
    requires
        b.zero_path(sx, sy, path),
        0 <= i < path.len(),
    ensures
        b.reaches_within(sx, sy, path[i].0, path[i].1, i as nat),
        b.flood_reaches(sx, sy, path[i].0, path[i].1),
    decreases i,
{
    if i > 0 {
        lemma_path_reaches(b, sx, sy, path, i - 1);
        let p = path[i - 1];
        let q = path[i];
        assert(b.spreads_within(sx, sy, p.0, p.1, (i - 1) as nat));
        assert(adjacent(p.0, p.1, q.0, q.1));
    }
}

/// One uncovering reveals a whole region: every cell on a path of touching
/// cells with no mine near them, from the uncovered cell on, shows as
/// revealed and empty.
pub proof fn lemma_flood_reveals_region(b: Board, sx: int, sy: int, path: Seq<(int, int)>, i: int)
    requires
        b.floods_from(sx, sy),
        b.zero_path(sx, sy, path),
        0 <= i < path.len(),
    ensures
        b.uncover(sx, sy).at(path[i].0, path[i].1) == CellState::Known(false),
{
    lemma_path_reaches(b, sx, sy, path, i);
    lemma_flooded_at(b, sx, sy, path[i].0, path[i].1);
}

/// One uncovering reveals the border of the region too: a covered, unmarked
/// cell without a mine that touches the region shows the number of mines
/// around it, between 1 and 8, or shows as empty where there is none.
pub proof fn lemma_flood_reveals_border(
    b: Board,
    sx: int,
    sy: int,
    path: Seq<(int, int)>,
    ux: int,
    uy: int,
)
    requires
        b.floods_from(sx, sy),
        b.zero_path(sx, sy, path),
        adjacent(path.last().0, path.last().1, ux, uy),
        b.in_bounds(ux, uy),
        b.at(ux, uy) == CellState::Unknown(false),
    ensures
        b.uncover(sx, sy).at(ux, uy) == b.reveal_value(ux, uy),
        b.neighbor_count(ux, uy) <= 8,
        b.neighbor_count(ux, uy) != 0 ==> b.uncover(sx, sy).at(ux, uy) == CellState::Counted(
            b.neighbor_count(ux, uy) as u8,
        ),
{
    let i = path.len() - 1;
    let p = path[i];
    assert(b.flood_reaches(sx, sy, ux, uy)) by {
        lemma_path_reaches(b, sx, sy, path, i);
        assert(b.in_bounds(p.0, p.1) && b.neighbor_count(p.0, p.1) == 0);
        lemma_flood_spreads(b, sx, sy, p.0, p.1, ux, uy);
    }
    lemma_flooded_at(b, sx, sy, ux, uy);
}

/// A cell that the flood gets to is the start, or a covered, unmarked cell
/// without a mine that touches a cell which the flood gets to and which has
/// no mine near it.
pub proof fn lemma_reach_origin(b: Board, sx: int, sy: int, tx: int, ty: int, n: nat)
    requires
        b.reaches_within(sx, sy, tx, ty, n),
    ensures
        (tx == sx && ty == sy) || (b.in_bounds(tx, ty) && b.at(tx, ty) == CellState::Unknown(false)
            && exists|ux: int, uy: int|
            adjacent(tx, ty, ux, uy) && b.in_bounds(ux, uy) && b.neighbor_count(ux, uy) == 0
                && #[trigger] b.flood_reaches(sx, sy, ux, uy)),
    decreases n,
{
    if n > 0 {
        let m = (n - 1) as nat;
        if b.reaches_within(sx, sy, tx, ty, m) {
            lemma_reach_origin(b, sx, sy, tx, ty, m);
        } else {
            let (ux, uy) = if b.spreads_within(sx, sy, tx - 1, ty - 1, m) {
                (tx - 1, ty - 1)
            } else if b.spreads_within(sx, sy, tx, ty - 1, m) {
                (tx, ty - 1)
            } else if b.spreads_within(sx, sy, tx + 1, ty - 1, m) {
                (tx + 1, ty - 1)
            } else if b.spreads_within(sx, sy, tx - 1, ty, m) {
                (tx - 1, ty)
            } else if b.spreads_within(sx, sy, tx + 1, ty, m) {
                (tx + 1, ty)
            } else if b.spreads_within(sx, sy, tx - 1, ty + 1, m) {
                (tx - 1, ty + 1)
            } else if b.spreads_within(sx, sy, tx, ty + 1, m) {
                (tx, ty + 1)
            } else {
                (tx + 1, ty + 1)
            };
            assert(b.spreads_within(sx, sy, ux, uy, m));
            assert(b.reaches_within(sx, sy, ux, uy, m));
            assert(adjacent(tx, ty, ux, uy) && b.flood_reaches(sx, sy, ux, uy));
        }
    }
}

/// One uncovering touches nothing outside the region and its border: a
/// cell that it changes is the uncovered cell itself, or was covered and
/// unmarked and touches a cell that now shows as revealed and empty.
pub proof fn lemma_flood_stays_inside(b: Board, sx: int, sy: int, tx: int, ty: int)
    requires
        b.floods_from(sx, sy),
        b.in_bounds(tx, ty),
        b.uncover(sx, sy).at(tx, ty) != b.at(tx, ty),
    ensures
        b.uncover(sx, sy).at(tx, ty) == b.reveal_value(tx, ty),
        (tx == sx && ty == sy) || (b.at(tx, ty) == CellState::Unknown(false) && exists|
            ux: int,
            uy: int,
        |
            adjacent(tx, ty, ux, uy) && b.in_bounds(ux, uy) && b.neighbor_count(ux, uy) == 0
                && #[trigger] b.uncover(sx, sy).at(ux, uy) == CellState::Known(false)),
{
    lemma_flooded_at(b, sx, sy, tx, ty);
    let n = choose|n: nat| #[trigger] b.reaches_within(sx, sy, tx, ty, n);
    lemma_reach_origin(b, sx, sy, tx, ty, n);
    if !(tx == sx && ty == sy) {
        let (ux, uy) = choose|ux: int, uy: int|
            adjacent(tx, ty, ux, uy) && b.in_bounds(ux, uy) && b.neighbor_count(ux, uy) == 0
                && #[trigger] b.flood_reaches(sx, sy, ux, uy);
        lemma_flooded_at(b, sx, sy, ux, uy);
        assert(b.uncover(sx, sy).at(ux, uy) == CellState::Known(false));
    }
}

/// From a cell with a mine near it the flood gets nowhere else.
proof fn lemma_count_stops_reach(b: Board, sx: int, sy: int, tx: int, ty: int, n: nat)
    requires
        b.neighbor_count(sx, sy) != 0,
        b.reaches_within(sx, sy, tx, ty, n),
    ensures
        tx == sx && ty == sy,
    decreases n,
{
    if n > 0 {
        let m = (n - 1) as nat;
        if b.reaches_within(sx, sy, tx, ty, m) {
            lemma_count_stops_reach(b, sx, sy, tx, ty, m);
        } else {
            let (ux, uy) = if b.spreads_within(sx, sy, tx - 1, ty - 1, m) {
                (tx - 1, ty - 1)
            } else if b.spreads_within(sx, sy, tx, ty - 1, m) {
                (tx, ty - 1)
            } else if b.spreads_within(sx, sy, tx + 1, ty - 1, m) {
                (tx + 1, ty - 1)
            } else if b.spreads_within(sx, sy, tx - 1, ty, m) {
                (tx - 1, ty)
            } else if b.spreads_within(sx, sy, tx + 1, ty, m) {
                (tx + 1, ty)
            } else if b.spreads_within(sx, sy, tx - 1, ty + 1, m) {
                (tx - 1, ty + 1)
            } else if b.spreads_within(sx, sy, tx, ty + 1, m) {
                (tx, ty + 1)
            } else {
                (tx + 1, ty + 1)
            };
            assert(b.spreads_within(sx, sy, ux, uy, m));
            lemma_count_stops_reach(b, sx, sy, ux, uy, m);
        }
    }
}

/// Uncovering a covered cell with a mine near it reveals that cell alone:
/// it shows its count, and every other cell stays as it was.
pub proof fn lemma_count_stops_flood(b: Board, sx: int, sy: int)
    requires
        b.floods_from(sx, sy),
        b.neighbor_count(sx, sy) != 0,
    ensures
        b.uncover(sx, sy).cells == b.cells.update(
            b.index(sx, sy),
            CellState::Counted(b.neighbor_count(sx, sy) as u8),
        ),
        1 <= b.neighbor_count(sx, sy) <= 8,
{
    let after = b.uncover(sx, sy).cells;
    let goal = b.cells.update(b.index(sx, sy), CellState::Counted(b.neighbor_count(sx, sy) as u8));
    lemma_index_in_range(b.width, b.height, sx, sy);
    assert(b.reaches_within(sx, sy, sx, sy, 0));
    assert forall|i: int| 0 <= i < b.cells.len() implies after[i] == goal[i] by {
        lemma_index_coords(b.width, b.height, i);
        let tx = i % b.width;
        let ty = i / b.width;
        if b.flood_reaches(sx, sy, tx, ty) {
            let n = choose|n: nat| #[trigger] b.reaches_within(sx, sy, tx, ty, n);
            lemma_count_stops_reach(b, sx, sy, tx, ty, n);
        } else {
            if i == b.index(sx, sy) {
                lemma_index_injective(b.width, tx, ty, sx, sy);
            }
        }
    }
    assert(after =~= goal);
}

/// A lost game is frozen: once an uncovering has lost the game, another
/// uncovering, at whatever coordinates, changes nothing and the game stays
/// lost.
pub proof fn lemma_loss_freezes(b: Board, x: int, y: int, x2: int, y2: int)
    requires
        b.uncover(x, y).state == GameState::Lost,
    ensures
        b.uncover(x, y).uncover(x2, y2) == b.uncover(x, y),
        b.uncover(x, y).uncover(x2, y2).state == GameState::Lost,
{
}

/// Flagging a cell that is covered and not flagged takes one off the
/// remaining mines, but never below zero.
pub proof fn lemma_flag_decrements(b: Board, x: int, y: int)
    requires
        b.wf(),
        b.in_bounds(x, y),
        b.at(x, y) is Unknown || b.at(x, y) is Questioned,
    ensures
        b.remaining > 0 ==> b.flag(x, y).remaining == b.remaining - 1,
        b.remaining == 0 ==> b.flag(x, y).remaining == 0,
        b.flag(x, y).at(x, y) is Flagged,
{
    lemma_index_in_range(b.width, b.height, x, y);
}

/// Questioning a flagged cell, or taking the flag off it, adds one to the
/// remaining mines.
pub proof fn lemma_unflag_increments(b: Board, x: int, y: int)
    requires
        b.wf(),
        b.in_bounds(x, y),
        b.at(x, y) is Flagged,
    ensures
        b.question(x, y).remaining == b.remaining + 1,
        b.question(x, y).at(x, y) is Questioned,
        b.set_unknown(x, y).remaining == b.remaining + 1,
        b.set_unknown(x, y).at(x, y) is Unknown,
{
    lemma_index_in_range(b.width, b.height, x, y);
}

/// Flagging a covered cell, then questioning it, then taking the mark off
/// leaves as many remaining mines as there were, provided one was left to
/// take off. The cell is as it was before it was marked.
pub proof fn lemma_mark_cycle_restores(b: Board, x: int, y: int)
    requires
        b.wf(),
        b.in_bounds(x, y),
        b.at(x, y) is Unknown || b.at(x, y) is Questioned,
        b.remaining > 0,
    ensures
        b.flag(x, y).question(x, y).set_unknown(x, y).remaining == b.remaining,
        b.flag(x, y).question(x, y).set_unknown(x, y).at(x, y) == b.at(x, y).unmarked(),
{
    lemma_index_in_range(b.width, b.height, x, y);
    let b1 = b.flag(x, y);
    assert(b1.at(x, y) is Flagged);
    let b2 = b1.question(x, y);
    assert(b2.at(x, y) is Questioned);
    assert(b2.remaining == b.remaining);
}

/// Uncovering moves no mine: each cell holds a mine afterwards if and only
/// if it held one before.
pub proof fn lemma_uncover_keeps_mines(b: Board, x: int, y: int, i: int)
    requires
        b.wf(),
        0 <= i < b.cells.len(),
    ensures
        b.uncover(x, y).cells[i].is_mine() == b.cells[i].is_mine(),
{
    if b.state != GameState::Lost && b.in_bounds(x, y) {
        lemma_index_in_range(b.width, b.height, x, y);
        if b.at(x, y).is_covered_safe() {
            lemma_index_coords(b.width, b.height, i);
            let tx = i % b.width;
            let ty = i / b.width;
            if b.flood_reaches(x, y, tx, ty) {
                let n = choose|n: nat| #[trigger] b.reaches_within(x, y, tx, ty, n);
                lemma_reach_origin(b, x, y, tx, ty, n);
            }
        }
    }
}

/// No command of the player moves a mine: after flagging, questioning,
/// unmarking, uncovering or showing the mines, each cell holds a mine if and
/// only if it held one before, and the board holds as many mines as before.
pub proof fn lemma_commands_keep_mines(b: Board, x: int, y: int)
    requires
        b.wf(),
    ensures
        forall|i: int|
            0 <= i < b.cells.len() ==> (#[trigger] b.flag(x, y).cells[i]).is_mine()
                == b.cells[i].is_mine(),
        forall|i: int|
            0 <= i < b.cells.len() ==> (#[trigger] b.question(x, y).cells[i]).is_mine()
                == b.cells[i].is_mine(),
        forall|i: int|
            0 <= i < b.cells.len() ==> (#[trigger] b.set_unknown(x, y).cells[i]).is_mine()
                == b.cells[i].is_mine(),
        forall|i: int|
            0 <= i < b.cells.len() ==> (#[trigger] b.show_mined().cells[i]).is_mine()
                == b.cells[i].is_mine(),
        forall|i: int|
            0 <= i < b.cells.len() ==> (#[trigger] b.uncover(x, y).cells[i]).is_mine()
                == b.cells[i].is_mine(),
        mine_total(b.flag(x, y).cells) == mine_total(b.cells),
        mine_total(b.question(x, y).cells) == mine_total(b.cells),
        mine_total(b.set_unknown(x, y).cells) == mine_total(b.cells),
        mine_total(b.show_mined().cells) == mine_total(b.cells),
        mine_total(b.uncover(x, y).cells) == mine_total(b.cells),
{
    if b.in_bounds(x, y) {
        lemma_index_in_range(b.width, b.height, x, y);
    }
    assert forall|i: int| 0 <= i < b.cells.len() implies (#[trigger] b.uncover(
        x,
        y,
    ).cells[i]).is_mine() == b.cells[i].is_mine() by {
        lemma_uncover_keeps_mines(b, x, y, i);
    }
    lemma_tally_same(b.cells, b.flag(x, y).cells, mine_pred());
    lemma_tally_same(b.cells, b.question(x, y).cells, mine_pred());
    lemma_tally_same(b.cells, b.set_unknown(x, y).cells, mine_pred());
    lemma_tally_same(b.cells, b.show_mined().cells, mine_pred());
    lemma_tally_same(b.cells, b.uncover(x, y).cells, mine_pred());
}

/// Marking a cell keeps the invariant of the board.
pub proof fn lemma_marks_keep_wf(b: Board, x: int, y: int)
    requires
        b.wf(),
    ensures
        b.flag(x, y).wf(),
        b.question(x, y).wf(),
        b.set_unknown(x, y).wf(),
        b.toggle_mark(x, y).wf(),
{
    if b.in_bounds(x, y) {
        lemma_index_in_range(b.width, b.height, x, y);
        let i = b.index(x, y);
        let c = b.cells[i];
        lemma_tally_update(b.cells, i, c.flagged(), flag_pred());
        lemma_tally_update(b.cells, i, c.questioned(), flag_pred());
        lemma_tally_update(b.cells, i, c.unmarked(), flag_pred());
        lemma_tally_bound(b.cells.update(i, c.flagged()), flag_pred());
    }
}

/// Wiping the board, showing the mines and covering a cell keep the
/// invariant of the board.
pub proof fn lemma_sweeps_keep_wf(b: Board, index: int, mined: bool)
    requires
        b.wf(),
    ensures
        b.clear().wf(),
        b.show_mined().wf(),
        b.set_mine(index, mined).wf(),
{
    lemma_tally_none(b.clear().cells, flag_pred());
    lemma_tally_same(b.cells, b.show_mined().cells, flag_pred());
    if 0 <= index < b.cells.len() {
        lemma_tally_update(b.cells, index, CellState::Unknown(mined), flag_pred());
    }
}

/// Uncovering a cell keeps the invariant of the board, and so does showing
/// the mines after it.
pub proof fn lemma_uncover_keeps_wf(b: Board, x: int, y: int)
    requires
        b.wf(),
    ensures
        b.uncover(x, y).wf(),
        b.press(x, y).wf(),
{
    let u = b.uncover(x, y);
    if b.state != GameState::Lost && b.in_bounds(x, y) {
        lemma_index_in_range(b.width, b.height, x, y);
        if b.at(x, y).hides_mine() {
            lemma_tally_update(b.cells, b.index(x, y), CellState::Known(true), flag_pred());
        } else if b.at(x, y).is_covered_safe() {
            assert forall|i: int| 0 <= i < u.cells.len() implies (#[trigger] u.cells[i]).valid()
                && (u.cells[i].is_flagged() ==> b.cells[i].is_flagged()) by {
                assert(b.cells[i].valid());
            }
            lemma_tally_le(b.cells, u.cells, flag_pred());
        }
    }
    lemma_sweeps_keep_wf(u, 0, false);
}

/// No command wins the game: a game that is not won stays so.
pub proof fn lemma_never_wins(b: Board, x: int, y: int)
    requires
        b.state != GameState::Won,
    ensures
        b.flag(x, y).state != GameState::Won,
        b.question(x, y).state != GameState::Won,
        b.set_unknown(x, y).state != GameState::Won,
        b.show_mined().state != GameState::Won,
        b.clear().state != GameState::Won,
        b.uncover(x, y).state != GameState::Won,
{
}

} // verus!
