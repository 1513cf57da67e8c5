//! The invariant of the flood that reveals a region of the board, and the
//! proofs that each step of the flood keeps it.
//!
//! The flood works on a stack of cells. `done` is the set of cells that it
//! has revealed so far, `cur` the cells of the board as they are now, and
//! `b0` the board before the flood began.

use vstd::prelude::*;
use crate::board::{lemma_index_coords, lemma_index_in_range, lemma_index_injective, Board};
use crate::cell::CellState;

verus! {

/// The cell `(x, y)` waits on the stack, at the place `from` or above it.
pub open spec fn on_stack(stack: Seq<(i16, i16)>, from: int, x: int, y: int) -> bool {
    exists|k: int| from <= k < stack.len() && (#[trigger] stack[k]).0 == x && stack[k].1 == y
}

/// The place `(ux, uy)`, where it is a cell that was covered, unmarked and
/// without a mine, is revealed or waits on the stack above the place `j`;
/// with -1 for `j`, anywhere on the stack.
pub open spec fn pending_above(
    b0: Board,
    done: Set<(int, int)>,
    stack: Seq<(i16, i16)>,
    j: int,
    ux: int,
    uy: int,
) -> bool {
    b0.in_bounds(ux, uy) && b0.at(ux, uy) == CellState::Unknown(false) ==> done.contains((ux, uy))
        || on_stack(stack, j + 1, ux, uy)
}

/// Where a revealed cell with no mine near it waits on the stack once more,
/// at the place `j`, every cell that the flood spreads to from it is
/// revealed or waits above it. So when that place is the top, the flood has
/// nothing left to spread to from the cell.
pub open spec fn spread_above(
    b0: Board,
    done: Set<(int, int)>,
    stack: Seq<(i16, i16)>,
    j: int,
) -> bool {
    let x = stack[j].0 as int;
    let y = stack[j].1 as int;
    done.contains((x, y)) && b0.neighbor_count(x, y) == 0 ==> {
        &&& pending_above(b0, done, stack, j, x - 1, y - 1)
        &&& pending_above(b0, done, stack, j, x, y - 1)
        &&& pending_above(b0, done, stack, j, x + 1, y - 1)
        &&& pending_above(b0, done, stack, j, x - 1, y)
        &&& pending_above(b0, done, stack, j, x + 1, y)
        &&& pending_above(b0, done, stack, j, x - 1, y + 1)
        &&& pending_above(b0, done, stack, j, x, y + 1)
        &&& pending_above(b0, done, stack, j, x + 1, y + 1)
    }
}

/// Around a revealed cell with no mine near it, every cell that the flood
/// spreads to is revealed or waits on the stack.
pub open spec fn spread_done(
    b0: Board,
    done: Set<(int, int)>,
    stack: Seq<(i16, i16)>,
    x: int,
    y: int,
) -> bool {
    done.contains((x, y)) && b0.neighbor_count(x, y) == 0 ==> {
        &&& pending_above(b0, done, stack, -1, x - 1, y - 1)
        &&& pending_above(b0, done, stack, -1, x, y - 1)
        &&& pending_above(b0, done, stack, -1, x + 1, y - 1)
        &&& pending_above(b0, done, stack, -1, x - 1, y)
        &&& pending_above(b0, done, stack, -1, x + 1, y)
        &&& pending_above(b0, done, stack, -1, x - 1, y + 1)
        &&& pending_above(b0, done, stack, -1, x, y + 1)
        &&& pending_above(b0, done, stack, -1, x + 1, y + 1)
    }
}

/// A revealed cell was covered and without a mine, the flood gets to it, and
/// it shows its count; any other cell is as it was.
pub open spec fn cell_settled(
    b0: Board,
    cur: Seq<CellState>,
    done: Set<(int, int)>,
    sx: int,
    sy: int,
    x: int,
    y: int,
) -> bool {
    if done.contains((x, y)) {
        &&& b0.in_bounds(x, y)
        &&& b0.at(x, y).is_covered_safe()
        &&& b0.flood_reaches(sx, sy, x, y)
        &&& cur[b0.index(x, y)] == b0.reveal_value(x, y)
    } else {
        b0.in_bounds(x, y) ==> cur[b0.index(x, y)] == b0.at(x, y)
    }
}

/// A cell on the stack is one that the flood gets to; it is revealed
/// already, or it is the start, or it is covered and unmarked.
pub open spec fn entry_ok(b0: Board, done: Set<(int, int)>, sx: int, sy: int, p: (i16, i16)) -> bool {
    &&& b0.in_bounds(p.0 as int, p.1 as int)
    &&& b0.flood_reaches(sx, sy, p.0 as int, p.1 as int)
    &&& (done.contains((p.0 as int, p.1 as int)) || (p.0 == sx && p.1 == sy) || b0.at(
        p.0 as int,
        p.1 as int,
    ) == CellState::Unknown(false))
}

/// What holds before and after each step of the flood from `(sx, sy)`.
pub open spec fn flood_inv(
    b0: Board,
    cur: Seq<CellState>,
    done: Set<(int, int)>,
    stack: Seq<(i16, i16)>,
    sx: int,
    sy: int,
) -> bool {
    &&& cur.len() == b0.cells.len()
    &&& forall|x: int, y: int| #[trigger] cell_settled(b0, cur, done, sx, sy, x, y)
    &&& forall|x: int, y: int| #[trigger] spread_done(b0, done, stack, x, y)
    &&& forall|k: int| 0 <= k < stack.len() ==> entry_ok(b0, done, sx, sy, #[trigger] stack[k])
    &&& forall|j: int| 0 <= j < stack.len() ==> #[trigger] spread_above(b0, done, stack, j)
    &&& (done.contains((sx, sy)) || (stack.len() > 0 && stack[0].0 == sx && stack[0].1 == sy))
}

/// `(x, y)` and `(ux, uy)` are different cells that touch, at a side or a corner.
pub open spec fn adjacent(x: int, y: int, ux: int, uy: int) -> bool {
    x - 1 <= ux <= x + 1 && y - 1 <= uy <= y + 1 && !(ux == x && uy == y)
}

/// `ext` is `base` with cells pushed on it that are covered and unmarked in
/// `cur` and touch `(x, y)`.
pub open spec fn extends(
    b0: Board,
    cur: Seq<CellState>,
    base: Seq<(i16, i16)>,
    ext: Seq<(i16, i16)>,
    x: int,
    y: int,
) -> bool {
    &&& base.len() <= ext.len()
    &&& forall|k: int| 0 <= k < base.len() ==> ext[k] == #[trigger] base[k]
    &&& forall|k: int|
        base.len() <= k < ext.len() ==> {
            let q = #[trigger] ext[k];
            b0.in_bounds(q.0 as int, q.1 as int) && cur[b0.index(q.0 as int, q.1 as int)]
                == CellState::Unknown(false) && adjacent(x, y, q.0 as int, q.1 as int)
        }
}

/// The cell `(ux, uy)`, where it is covered and unmarked in `cur`, waits on
/// the stack at the place `from` or above it.
pub open spec fn spread_to(
    b0: Board,
    cur: Seq<CellState>,
    stack: Seq<(i16, i16)>,
    from: int,
    ux: int,
    uy: int,
) -> bool {
    b0.in_bounds(ux, uy) && cur[b0.index(ux, uy)] == CellState::Unknown(false) ==> on_stack(
        stack,
        from,
        ux,
        uy,
    )
}

/// Every cell around `(x, y)` that is covered and unmarked in `cur` waits
/// on the stack at the place `from` or above it.
pub open spec fn spread_all(
    b0: Board,
    cur: Seq<CellState>,
    stack: Seq<(i16, i16)>,
    from: int,
    x: int,
    y: int,
) -> bool {
    &&& spread_to(b0, cur, stack, from, x - 1, y - 1)
    &&& spread_to(b0, cur, stack, from, x, y - 1)
    &&& spread_to(b0, cur, stack, from, x + 1, y - 1)
    &&& spread_to(b0, cur, stack, from, x - 1, y)
    &&& spread_to(b0, cur, stack, from, x + 1, y)
    &&& spread_to(b0, cur, stack, from, x - 1, y + 1)
    &&& spread_to(b0, cur, stack, from, x, y + 1)
    &&& spread_to(b0, cur, stack, from, x + 1, y + 1)
}

/// The place `(ux, uy)` is no cell of the board that is covered and
/// unmarked in `cur`.
pub open spec fn not_covered(b0: Board, cur: Seq<CellState>, ux: int, uy: int) -> bool {
    !(b0.in_bounds(ux, uy) && cur[b0.index(ux, uy)] == CellState::Unknown(false))
}

/// No cell around `(x, y)` is covered and unmarked in `cur`.
pub open spec fn none_covered(b0: Board, cur: Seq<CellState>, x: int, y: int) -> bool {
    &&& not_covered(b0, cur, x - 1, y - 1)
    &&& not_covered(b0, cur, x, y - 1)
    &&& not_covered(b0, cur, x + 1, y - 1)
    &&& not_covered(b0, cur, x - 1, y)
    &&& not_covered(b0, cur, x + 1, y)
    &&& not_covered(b0, cur, x - 1, y + 1)
    &&& not_covered(b0, cur, x, y + 1)
    &&& not_covered(b0, cur, x + 1, y + 1)
}

/// A cell that waits on a stack waits on every stack that begins with it.
pub proof fn lemma_on_stack_grows(
    a: Seq<(i16, i16)>,
    b: Seq<(i16, i16)>,
    from: int,
    ux: int,
    uy: int,
)
    requires
        0 <= from,
        on_stack(a, from, ux, uy),
        a.len() <= b.len(),
        forall|k: int| 0 <= k < a.len() ==> b[k] == #[trigger] a[k],
    ensures
        on_stack(b, from, ux, uy),
{
    let k = choose|k: int| from <= k < a.len() && (#[trigger] a[k]).0 == ux && a[k].1 == uy;
    assert(b[k] == a[k]);
}

/// The flood goes one step on from a cell that it gets to and that has no
/// mine near it.
pub proof fn lemma_flood_spreads(b: Board, sx: int, sy: int, x: int, y: int, ux: int, uy: int)
    requires
        b.in_bounds(x, y),
        b.flood_reaches(sx, sy, x, y),
        b.neighbor_count(x, y) == 0,
        adjacent(x, y, ux, uy),
        b.in_bounds(ux, uy),
        b.at(ux, uy) == CellState::Unknown(false),
    ensures
        b.flood_reaches(sx, sy, ux, uy),
{
    let n = choose|n: nat| #[trigger] b.reaches_within(sx, sy, x, y, n);
    assert(b.spreads_within(sx, sy, x, y, n));
    assert(b.reaches_within(sx, sy, ux, uy, n + 1));
}

/// Once the flood has revealed the start and every cell that it spreads to
/// from a revealed cell, it has revealed every cell that it gets to.
pub proof fn lemma_flood_complete(
    b0: Board,
    done: Set<(int, int)>,
    sx: int,
    sy: int,
    tx: int,
    ty: int,
    n: nat,
)
    requires
        done.contains((sx, sy)),
        forall|x: int, y: int| #[trigger] spread_done(b0, done, Seq::empty(), x, y),
        b0.reaches_within(sx, sy, tx, ty, n),
    ensures
        done.contains((tx, ty)),
    decreases n,
{
    if n > 0 {
        let m = (n - 1) as nat;
        if b0.reaches_within(sx, sy, tx, ty, m) {
            lemma_flood_complete(b0, done, sx, sy, tx, ty, m);
        } else {
            let (ux, uy) = if b0.spreads_within(sx, sy, tx - 1, ty - 1, m) {
                (tx - 1, ty - 1)
            } else if b0.spreads_within(sx, sy, tx, ty - 1, m) {
                (tx, ty - 1)
            } else if b0.spreads_within(sx, sy, tx + 1, ty - 1, m) {
                (tx + 1, ty - 1)
            } else if b0.spreads_within(sx, sy, tx - 1, ty, m) {
                (tx - 1, ty)
            } else if b0.spreads_within(sx, sy, tx + 1, ty, m) {
                (tx + 1, ty)
            } else if b0.spreads_within(sx, sy, tx - 1, ty + 1, m) {
                (tx - 1, ty + 1)
            } else if b0.spreads_within(sx, sy, tx, ty + 1, m) {
                (tx, ty + 1)
            } else {
                (tx + 1, ty + 1)
            };
            assert(b0.spreads_within(sx, sy, ux, uy, m));
            lemma_flood_complete(b0, done, sx, sy, ux, uy, m);
            assert(spread_done(b0, done, Seq::empty(), ux, uy));
            assert(pending_above(b0, done, Seq::empty(), -1, tx, ty));
        }
    }
}

/// The flood changes no cell into or out of a hidden mine, so the number
/// of mines near a cell stays what it was.
pub proof fn lemma_count_unchanged(
    b0: Board,
    cur: Seq<CellState>,
    done: Set<(int, int)>,
    sx: int,
    sy: int,
    x: int,
    y: int,
)
    requires
        forall|x: int, y: int| #[trigger] cell_settled(b0, cur, done, sx, sy, x, y),
    ensures
        (Board { cells: cur, ..b0 }).neighbor_count(x, y) == b0.neighbor_count(x, y),
{
    assert(cell_settled(b0, cur, done, sx, sy, x - 1, y - 1));
    assert(cell_settled(b0, cur, done, sx, sy, x, y - 1));
    assert(cell_settled(b0, cur, done, sx, sy, x + 1, y - 1));
    assert(cell_settled(b0, cur, done, sx, sy, x - 1, y));
    assert(cell_settled(b0, cur, done, sx, sy, x + 1, y));
    assert(cell_settled(b0, cur, done, sx, sy, x - 1, y + 1));
    assert(cell_settled(b0, cur, done, sx, sy, x, y + 1));
    assert(cell_settled(b0, cur, done, sx, sy, x + 1, y + 1));
}

/// Before the first step only the start waits, and nothing is revealed.
pub proof fn lemma_flood_start(b0: Board, sx: i16, sy: i16)
    requires
        b0.wf(),
        b0.in_bounds(sx as int, sy as int),
    ensures
        flood_inv(b0, b0.cells, Set::empty(), seq![(sx, sy)], sx as int, sy as int),
{
    assert(b0.reaches_within(sx as int, sy as int, sx as int, sy as int, 0));
}

proof fn lemma_pending_moves(
    b0: Board,
    done: Set<(int, int)>,
    stack: Seq<(i16, i16)>,
    done2: Set<(int, int)>,
    stack2: Seq<(i16, i16)>,
    from: int,
    ux: int,
    uy: int,
)
    requires
        0 <= from,
        b0.in_bounds(ux, uy) && b0.at(ux, uy) == CellState::Unknown(false) ==> done.contains(
            (ux, uy),
        ) || on_stack(stack, from, ux, uy),
        forall|q: (int, int)| done.contains(q) ==> done2.contains(q),
        forall|k: int|
            0 <= k < stack.len() ==> (k < stack2.len() && stack2[k] == stack[k]) || done2.contains(
                ((#[trigger] stack[k]).0 as int, stack[k].1 as int),
            ),
    ensures
        b0.in_bounds(ux, uy) && b0.at(ux, uy) == CellState::Unknown(false) ==> done2.contains(
            (ux, uy),
        ) || on_stack(stack2, from, ux, uy),
{
    if b0.in_bounds(ux, uy) && b0.at(ux, uy) == CellState::Unknown(false) && !done2.contains(
        (ux, uy),
    ) {
        let k = choose|k: int|
            from <= k < stack.len() && (#[trigger] stack[k]).0 == ux && stack[k].1 == uy;
        assert(stack2[k] == stack[k]);
    }
}

proof fn lemma_spread_moves(
    b0: Board,
    done: Set<(int, int)>,
    stack: Seq<(i16, i16)>,
    done2: Set<(int, int)>,
    stack2: Seq<(i16, i16)>,
    x: int,
    y: int,
)
    requires
        spread_done(b0, done, stack, x, y),
        done.contains((x, y)),
        forall|q: (int, int)| done.contains(q) ==> done2.contains(q),
        forall|k: int|
            0 <= k < stack.len() ==> (k < stack2.len() && stack2[k] == stack[k]) || done2.contains(
                ((#[trigger] stack[k]).0 as int, stack[k].1 as int),
            ),
    ensures
        spread_done(b0, done2, stack2, x, y),
{
    if b0.neighbor_count(x, y) == 0 {
        lemma_pending_moves(b0, done, stack, done2, stack2, 0, x - 1, y - 1);
        lemma_pending_moves(b0, done, stack, done2, stack2, 0, x, y - 1);
        lemma_pending_moves(b0, done, stack, done2, stack2, 0, x + 1, y - 1);
        lemma_pending_moves(b0, done, stack, done2, stack2, 0, x - 1, y);
        lemma_pending_moves(b0, done, stack, done2, stack2, 0, x + 1, y);
        lemma_pending_moves(b0, done, stack, done2, stack2, 0, x - 1, y + 1);
        lemma_pending_moves(b0, done, stack, done2, stack2, 0, x, y + 1);
        lemma_pending_moves(b0, done, stack, done2, stack2, 0, x + 1, y + 1);
    }
}

proof fn lemma_above_moves(
    b0: Board,
    done: Set<(int, int)>,
    stack: Seq<(i16, i16)>,
    done2: Set<(int, int)>,
    stack2: Seq<(i16, i16)>,
    j: int,
)
    requires
        0 <= j < stack.len(),
        j < stack2.len(),
        stack2[j] == stack[j],
        spread_above(b0, done, stack, j),
        done.contains((stack[j].0 as int, stack[j].1 as int)),
        forall|q: (int, int)| done.contains(q) ==> done2.contains(q),
        forall|k: int|
            0 <= k < stack.len() ==> (k < stack2.len() && stack2[k] == stack[k]) || done2.contains(
                ((#[trigger] stack[k]).0 as int, stack[k].1 as int),
            ),
    ensures
        spread_above(b0, done2, stack2, j),
{
    let x = stack[j].0 as int;
    let y = stack[j].1 as int;
    if b0.neighbor_count(x, y) == 0 {
        lemma_pending_moves(b0, done, stack, done2, stack2, j + 1, x - 1, y - 1);
        lemma_pending_moves(b0, done, stack, done2, stack2, j + 1, x, y - 1);
        lemma_pending_moves(b0, done, stack, done2, stack2, j + 1, x + 1, y - 1);
        lemma_pending_moves(b0, done, stack, done2, stack2, j + 1, x - 1, y);
        lemma_pending_moves(b0, done, stack, done2, stack2, j + 1, x + 1, y);
        lemma_pending_moves(b0, done, stack, done2, stack2, j + 1, x - 1, y + 1);
        lemma_pending_moves(b0, done, stack, done2, stack2, j + 1, x, y + 1);
        lemma_pending_moves(b0, done, stack, done2, stack2, j + 1, x + 1, y + 1);
    }
}

/// A cell on top of the stack that is revealed already shows what it is to
/// show, and the flood has nothing left to spread to from it: taking it off
/// keeps the invariant.
pub proof fn lemma_flood_again(
    b0: Board,
    cur: Seq<CellState>,
    done: Set<(int, int)>,
    stack: Seq<(i16, i16)>,
    sx: int,
    sy: int,
)
    requires
        flood_inv(b0, cur, done, stack, sx, sy),
        stack.len() > 0,
        done.contains((stack.last().0 as int, stack.last().1 as int)),
    ensures
        flood_inv(b0, cur, done, stack.drop_last(), sx, sy),
        cur[b0.index(stack.last().0 as int, stack.last().1 as int)] == b0.reveal_value(
            stack.last().0 as int,
            stack.last().1 as int,
        ),
        b0.neighbor_count(stack.last().0 as int, stack.last().1 as int) == 0 ==> none_covered(
            b0,
            cur,
            stack.last().0 as int,
            stack.last().1 as int,
        ),
{
    let s2 = stack.drop_last();
    let top = stack.len() - 1;
    let px = stack[top].0 as int;
    let py = stack[top].1 as int;
    assert(cell_settled(b0, cur, done, sx, sy, px, py));
    assert forall|x: int, y: int| #[trigger] spread_done(b0, done, s2, x, y) by {
        assert(spread_done(b0, done, stack, x, y));
        if done.contains((x, y)) {
            lemma_spread_moves(b0, done, stack, done, s2, x, y);
        }
    }
    assert forall|k: int| 0 <= k < s2.len() implies entry_ok(b0, done, sx, sy, #[trigger] s2[k]) by {
        assert(s2[k] == stack[k]);
    }
    assert forall|j: int| 0 <= j < s2.len() implies #[trigger] spread_above(b0, done, s2, j) by {
        assert(spread_above(b0, done, stack, j));
        if done.contains((stack[j].0 as int, stack[j].1 as int)) {
            lemma_above_moves(b0, done, stack, done, s2, j);
        }
    }
    if b0.neighbor_count(px, py) == 0 {
        assert(spread_above(b0, done, stack, top));
        assert(cell_settled(b0, cur, done, sx, sy, px - 1, py - 1));
        assert(cell_settled(b0, cur, done, sx, sy, px, py - 1));
        assert(cell_settled(b0, cur, done, sx, sy, px + 1, py - 1));
        assert(cell_settled(b0, cur, done, sx, sy, px - 1, py));
        assert(cell_settled(b0, cur, done, sx, sy, px + 1, py));
        assert(cell_settled(b0, cur, done, sx, sy, px - 1, py + 1));
        assert(cell_settled(b0, cur, done, sx, sy, px, py + 1));
        assert(cell_settled(b0, cur, done, sx, sy, px + 1, py + 1));
    }
}

proof fn lemma_pending_from_spread(
    b0: Board,
    cur2: Seq<CellState>,
    done2: Set<(int, int)>,
    stack2: Seq<(i16, i16)>,
    sx: int,
    sy: int,
    from: int,
    ux: int,
    uy: int,
)
    requires
        cell_settled(b0, cur2, done2, sx, sy, ux, uy),
        spread_to(b0, cur2, stack2, from, ux, uy),
    ensures
        b0.in_bounds(ux, uy) && b0.at(ux, uy) == CellState::Unknown(false) ==> done2.contains(
            (ux, uy),
        ) || on_stack(stack2, from, ux, uy),
{
}

proof fn lemma_pending_around(
    b0: Board,
    cur2: Seq<CellState>,
    done2: Set<(int, int)>,
    stack2: Seq<(i16, i16)>,
    sx: int,
    sy: int,
    from: int,
    x: int,
    y: int,
)
    requires
        forall|x: int, y: int| #[trigger] cell_settled(b0, cur2, done2, sx, sy, x, y),
        spread_all(b0, cur2, stack2, from, x, y),
        0 <= from,
    ensures
        pending_above(b0, done2, stack2, from - 1, x - 1, y - 1),
        pending_above(b0, done2, stack2, from - 1, x, y - 1),
        pending_above(b0, done2, stack2, from - 1, x + 1, y - 1),
        pending_above(b0, done2, stack2, from - 1, x - 1, y),
        pending_above(b0, done2, stack2, from - 1, x + 1, y),
        pending_above(b0, done2, stack2, from - 1, x - 1, y + 1),
        pending_above(b0, done2, stack2, from - 1, x, y + 1),
        pending_above(b0, done2, stack2, from - 1, x + 1, y + 1),
{
    assert(cell_settled(b0, cur2, done2, sx, sy, x - 1, y - 1));
    assert(cell_settled(b0, cur2, done2, sx, sy, x, y - 1));
    assert(cell_settled(b0, cur2, done2, sx, sy, x + 1, y - 1));
    assert(cell_settled(b0, cur2, done2, sx, sy, x - 1, y));
    assert(cell_settled(b0, cur2, done2, sx, sy, x + 1, y));
    assert(cell_settled(b0, cur2, done2, sx, sy, x - 1, y + 1));
    assert(cell_settled(b0, cur2, done2, sx, sy, x, y + 1));
    assert(cell_settled(b0, cur2, done2, sx, sy, x + 1, y + 1));
    lemma_pending_from_spread(b0, cur2, done2, stack2, sx, sy, from, x - 1, y - 1);
    lemma_pending_from_spread(b0, cur2, done2, stack2, sx, sy, from, x, y - 1);
    lemma_pending_from_spread(b0, cur2, done2, stack2, sx, sy, from, x + 1, y - 1);
    lemma_pending_from_spread(b0, cur2, done2, stack2, sx, sy, from, x - 1, y);
    lemma_pending_from_spread(b0, cur2, done2, stack2, sx, sy, from, x + 1, y);
    lemma_pending_from_spread(b0, cur2, done2, stack2, sx, sy, from, x - 1, y + 1);
    lemma_pending_from_spread(b0, cur2, done2, stack2, sx, sy, from, x, y + 1);
    lemma_pending_from_spread(b0, cur2, done2, stack2, sx, sy, from, x + 1, y + 1);
}

/// Revealing the cell on top of the stack, and pushing the cells that the
/// flood spreads to from it, keeps the invariant.
pub proof fn lemma_flood_reveal(
    b0: Board,
    cur: Seq<CellState>,
    done: Set<(int, int)>,
    stack: Seq<(i16, i16)>,
    cur2: Seq<CellState>,
    stack2: Seq<(i16, i16)>,
    sx: int,
    sy: int,
)
    requires
        b0.wf(),
        b0.in_bounds(sx, sy),
        b0.at(sx, sy).is_covered_safe(),
        flood_inv(b0, cur, done, stack, sx, sy),
        stack.len() > 0,
        !done.contains((stack.last().0 as int, stack.last().1 as int)),
        cur2 == cur.update(
            b0.index(stack.last().0 as int, stack.last().1 as int),
            b0.reveal_value(stack.last().0 as int, stack.last().1 as int),
        ),
        extends(b0, cur2, stack.drop_last(), stack2, stack.last().0 as int, stack.last().1 as int),
        b0.neighbor_count(stack.last().0 as int, stack.last().1 as int) == 0 ==> spread_all(
            b0,
            cur2,
            stack2,
            stack.len() - 1,
            stack.last().0 as int,
            stack.last().1 as int,
        ),
        b0.neighbor_count(stack.last().0 as int, stack.last().1 as int) != 0 ==> stack2.len()
            == stack.len() - 1,
    ensures
        flood_inv(
            b0,
            cur2,
            done.insert((stack.last().0 as int, stack.last().1 as int)),
            stack2,
            sx,
            sy,
        ),
        cur[b0.index(stack.last().0 as int, stack.last().1 as int)].is_covered_safe(),
{
    let px = stack.last().0 as int;
    let py = stack.last().1 as int;
    let done2 = done.insert((px, py));
    let base = stack.drop_last();
    let w = b0.width;
    let h = b0.height;
    assert(entry_ok(b0, done, sx, sy, stack[stack.len() - 1]));
    lemma_index_in_range(w, h, px, py);
    assert(cell_settled(b0, cur, done, sx, sy, px, py));
    assert forall|x: int, y: int| #[trigger] cell_settled(b0, cur2, done2, sx, sy, x, y) by {
        assert(cell_settled(b0, cur, done, sx, sy, x, y));
        if b0.in_bounds(x, y) && !(x == px && y == py) {
            lemma_index_in_range(w, h, x, y);
            if b0.index(x, y) == b0.index(px, py) {
                lemma_index_injective(w, x, y, px, py);
            }
        }
    }
    assert forall|k: int| 0 <= k < stack2.len() implies entry_ok(
        b0,
        done2,
        sx,
        sy,
        #[trigger] stack2[k],
    ) by {
        if k < base.len() {
            assert(base[k] == stack[k]);
            assert(stack2[k] == base[k]);
            assert(entry_ok(b0, done, sx, sy, stack[k]));
        } else {
            let q = stack2[k];
            let qx = q.0 as int;
            let qy = q.1 as int;
            assert(cell_settled(b0, cur2, done2, sx, sy, qx, qy));
            assert(b0.neighbor_count(px, py) == 0);
            lemma_flood_spreads(b0, sx, sy, px, py, qx, qy);
        }
    }
    assert forall|k: int| 0 <= k < stack.len() implies (k < stack2.len() && stack2[k] == stack[k])
        || done2.contains(((#[trigger] stack[k]).0 as int, stack[k].1 as int)) by {
        if k < base.len() {
            assert(stack2[k] == base[k]);
        }
    }
    if b0.neighbor_count(px, py) == 0 {
        lemma_pending_around(b0, cur2, done2, stack2, sx, sy, base.len() as int, px, py);
    }
    assert forall|x: int, y: int| #[trigger] spread_done(b0, done2, stack2, x, y) by {
        if x == px && y == py {
            if b0.neighbor_count(px, py) == 0 {
                lemma_above_grows(b0, done2, stack2, -1, base.len() - 1, x - 1, y - 1);
                lemma_above_grows(b0, done2, stack2, -1, base.len() - 1, x, y - 1);
                lemma_above_grows(b0, done2, stack2, -1, base.len() - 1, x + 1, y - 1);
                lemma_above_grows(b0, done2, stack2, -1, base.len() - 1, x - 1, y);
                lemma_above_grows(b0, done2, stack2, -1, base.len() - 1, x + 1, y);
                lemma_above_grows(b0, done2, stack2, -1, base.len() - 1, x - 1, y + 1);
                lemma_above_grows(b0, done2, stack2, -1, base.len() - 1, x, y + 1);
                lemma_above_grows(b0, done2, stack2, -1, base.len() - 1, x + 1, y + 1);
            }
        } else if done.contains((x, y)) {
            assert(spread_done(b0, done, stack, x, y));
            lemma_spread_moves(b0, done, stack, done2, stack2, x, y);
        }
    }
    assert forall|j: int| 0 <= j < stack2.len() implies #[trigger] spread_above(
        b0,
        done2,
        stack2,
        j,
    ) by {
        let cx = stack2[j].0 as int;
        let cy = stack2[j].1 as int;
        if j < base.len() {
            assert(stack2[j] == base[j]);
            assert(base[j] == stack[j]);
            if cx == px && cy == py {
                if b0.neighbor_count(px, py) == 0 {
                    lemma_above_grows(b0, done2, stack2, j, base.len() - 1, px - 1, py - 1);
                    lemma_above_grows(b0, done2, stack2, j, base.len() - 1, px, py - 1);
                    lemma_above_grows(b0, done2, stack2, j, base.len() - 1, px + 1, py - 1);
                    lemma_above_grows(b0, done2, stack2, j, base.len() - 1, px - 1, py);
                    lemma_above_grows(b0, done2, stack2, j, base.len() - 1, px + 1, py);
                    lemma_above_grows(b0, done2, stack2, j, base.len() - 1, px - 1, py + 1);
                    lemma_above_grows(b0, done2, stack2, j, base.len() - 1, px, py + 1);
                    lemma_above_grows(b0, done2, stack2, j, base.len() - 1, px + 1, py + 1);
                }
            } else if done.contains((cx, cy)) {
                assert(spread_above(b0, done, stack, j));
                lemma_above_moves(b0, done, stack, done2, stack2, j);
            }
        } else {
            assert(cell_settled(b0, cur2, done2, sx, sy, cx, cy));
        }
    }
    if !done2.contains((sx, sy)) {
        assert(stack[0].0 == sx && stack[0].1 == sy);
        assert(base.len() > 0);
        assert(stack2[0] == base[0]);
    }
}

/// A cell that waits above a place waits above every place below it.
proof fn lemma_above_grows(
    b0: Board,
    done: Set<(int, int)>,
    stack: Seq<(i16, i16)>,
    j: int,
    i: int,
    ux: int,
    uy: int,
)
    requires
        j <= i,
        pending_above(b0, done, stack, i, ux, uy),
    ensures
        pending_above(b0, done, stack, j, ux, uy),
{
    if on_stack(stack, i + 1, ux, uy) {
        let k = choose|k: int|
            i + 1 <= k < stack.len() && (#[trigger] stack[k]).0 == ux && stack[k].1 == uy;
        assert(on_stack(stack, j + 1, ux, uy));
    }
}

/// When the stack is empty, the cells are those that the flood is to leave.
pub proof fn lemma_flood_finish(
    b0: Board,
    cur: Seq<CellState>,
    done: Set<(int, int)>,
    sx: int,
    sy: int,
)
    requires
        b0.wf(),
        flood_inv(b0, cur, done, Seq::empty(), sx, sy),
    ensures
        cur == b0.flooded(sx, sy),
{
    let goal = b0.flooded(sx, sy);
    assert forall|i: int| 0 <= i < cur.len() implies cur[i] == goal[i] by {
        lemma_index_coords(b0.width, b0.height, i);
        let x = i % b0.width;
        let y = i / b0.width;
        assert(cell_settled(b0, cur, done, sx, sy, x, y));
        if b0.flood_reaches(sx, sy, x, y) {
            let n = choose|n: nat| #[trigger] b0.reaches_within(sx, sy, x, y, n);
            lemma_flood_complete(b0, done, sx, sy, x, y, n);
        }
    }
    assert(cur =~= goal);
}

} // verus!
