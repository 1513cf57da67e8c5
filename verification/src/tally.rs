//! Counting the cells of a sequence that satisfy a predicate.

use vstd::prelude::*;
use crate::cell::CellState;

verus! {

/// 1 where `b` holds, else 0.
pub open spec fn one_if(b: bool) -> nat {
    if b {
        1
    } else {
        0
    }
}

/// The number of cells of `s` that satisfy `f`.
pub open spec fn tally(s: Seq<CellState>, f: spec_fn(CellState) -> bool) -> nat
    decreases s.len(),
{
    if s.len() == 0 {
        0
    } else {
        tally(s.drop_last(), f) + one_if(f(s.last()))
    }
}

/// The cell holds a mine.
pub open spec fn mine_pred() -> spec_fn(CellState) -> bool {
    |c: CellState| c.is_mine()
}

/// The cell carries a flag.
pub open spec fn flag_pred() -> spec_fn(CellState) -> bool {
    |c: CellState| c.is_flagged()
}

/// The cell is covered and holds no mine.
pub open spec fn covered_safe_pred() -> spec_fn(CellState) -> bool {
    |c: CellState| c.is_covered_safe()
}

/// The number of cells that hold a mine, shown or not.
pub open spec fn mine_total(s: Seq<CellState>) -> nat {
    tally(s, mine_pred())
}

/// The number of flagged cells.
pub open spec fn flag_total(s: Seq<CellState>) -> nat {
    tally(s, flag_pred())
}

/// The number of covered cells without a mine.
pub open spec fn covered_safe_total(s: Seq<CellState>) -> nat {
    tally(s, covered_safe_pred())
}

/// No more cells satisfy `f` than there are.
pub proof fn lemma_tally_bound(s: Seq<CellState>, f: spec_fn(CellState) -> bool)
    ensures
        tally(s, f) <= s.len(),
    decreases s.len(),
{
    if s.len() > 0 {
        lemma_tally_bound(s.drop_last(), f);
    }
}

/// Replacing one cell changes the tally by what the old and the new cell
/// contribute.
pub proof fn lemma_tally_update(
    s: Seq<CellState>,
    i: int,
    v: CellState,
    f: spec_fn(CellState) -> bool,
)
    requires
        0 <= i < s.len(),
    ensures
        tally(s.update(i, v), f) + one_if(f(s[i])) == tally(s, f) + one_if(f(v)),
    decreases s.len(),
{
    let t = s.update(i, v);
    if i == s.len() - 1 {
        assert(t.drop_last() =~= s.drop_last());
    } else {
        assert(t.drop_last() =~= s.drop_last().update(i, v));
        lemma_tally_update(s.drop_last(), i, v, f);
    }
}

/// Where no cell satisfies `f`, the tally is zero.
pub proof fn lemma_tally_none(s: Seq<CellState>, f: spec_fn(CellState) -> bool)
    requires
        forall|i: int| 0 <= i < s.len() ==> !f(#[trigger] s[i]),
    ensures
        tally(s, f) == 0,
    decreases s.len(),
{
    if s.len() > 0 {
        lemma_tally_none(s.drop_last(), f);
    }
}

/// Where every cell of `b` that satisfies `f` satisfies it in `a` too, `b`
/// has no more such cells than `a`.
pub proof fn lemma_tally_le(a: Seq<CellState>, b: Seq<CellState>, f: spec_fn(CellState) -> bool)
    requires
        a.len() == b.len(),
        forall|i: int| 0 <= i < b.len() && f(#[trigger] b[i]) ==> f(a[i]),
    ensures
        tally(b, f) <= tally(a, f),
    decreases a.len(),
{
    if a.len() > 0 {
        lemma_tally_le(a.drop_last(), b.drop_last(), f);
    }
}

/// Where the two sequences agree on `f` cell by cell, their tallies agree.
pub proof fn lemma_tally_same(a: Seq<CellState>, b: Seq<CellState>, f: spec_fn(CellState) -> bool)
    requires
        a.len() == b.len(),
        forall|i: int| 0 <= i < b.len() ==> f(#[trigger] b[i]) == f(a[i]),
    ensures
        tally(b, f) == tally(a, f),
    decreases a.len(),
{
    if a.len() > 0 {
        lemma_tally_same(a.drop_last(), b.drop_last(), f);
    }
}

/// The tally of a prefix grows by what the next cell contributes.
pub proof fn lemma_tally_step(s: Seq<CellState>, i: int, f: spec_fn(CellState) -> bool)
    requires
        0 <= i < s.len(),
    ensures
        tally(s.take(i + 1), f) == tally(s.take(i), f) + one_if(f(s[i])),
{
    assert(s.take(i + 1).drop_last() =~= s.take(i));
}

} // verus!
