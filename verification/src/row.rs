//! The horizontal places of a row of things that scroll to the left and come
//! back at the right end.
//!
//! A frame first moves every place to the left. The rightmost place is
//! tracked on the way, starting from a fixed floor. Every place that has left
//! the playfield is put one spacing to the right of the tracked maximum.

use vstd::prelude::*;
use vstd::arithmetic::div_mod::{
    lemma_mod_add_multiples_vanish, lemma_mod_sub_multiples_vanish, lemma_small_mod,
};
use crate::units::{MIN_SCREEN, TRACK_FLOOR};

verus! {

/// The larger of two numbers, the first on a tie.
pub open spec fn larger(a: int, b: int) -> int {
    if b > a {
        b
    } else {
        a
    }
}

/// The tracked maximum of a row: the largest of its places, and the floor
/// where no place lies above the floor.
pub open spec fn tracked_max(xs: Seq<int>) -> int
    decreases xs.len(),
{
    if xs.len() == 0 {
        TRACK_FLOOR as int
    } else {
        larger(tracked_max(xs.drop_last()), xs.last())
    }
}

/// The row moved to the left by `d`.
pub open spec fn shifted(xs: Seq<int>, d: int) -> Seq<int> {
    Seq::new(xs.len(), |i: int| xs[i] - d)
}

/// Whether a thing at `x` has left the playfield.
pub open spec fn is_out(x: int) -> bool {
    x < MIN_SCREEN
}

/// New place of a thing at `x`, in a row with the tracked maximum `max`.
pub open spec fn recycled_x(x: int, max: int, spacing: int) -> int {
    if is_out(x) {
        max + spacing
    } else {
        x
    }
}

/// The row after every place that has left the playfield has come back.
pub open spec fn recycled(xs: Seq<int>, spacing: int) -> Seq<int> {
    Seq::new(xs.len(), |i: int| recycled_x(xs[i], tracked_max(xs), spacing))
}

/// The row after a frame that moves it to the left by `d`.
pub open spec fn scrolled(xs: Seq<int>, d: int, spacing: int) -> Seq<int> {
    recycled(shifted(xs, d), spacing)
}

/// Whether the places of a row lie on one grid of the given spacing, no two
/// of them further apart than `spread`.
pub open spec fn aligned(xs: Seq<int>, spacing: int, spread: int) -> bool {
    forall|i: int, j: int|
        0 <= i < xs.len() && 0 <= j < xs.len() ==> {
            &&& (#[trigger] xs[i] - #[trigger] xs[j]) % spacing == 0
            &&& xs[i] - xs[j] <= spread
        }
}

/// Whether no place of a row lies right of place `i`.
pub open spec fn is_rightmost(xs: Seq<int>, i: int) -> bool {
    forall|k: int| 0 <= k < xs.len() ==> #[trigger] xs[k] <= xs[i]
}

/// Whether some place of a row lies one spacing right of place `i`.
pub open spec fn has_right_neighbour(xs: Seq<int>, i: int, spacing: int) -> bool {
    exists|j: int| 0 <= j < xs.len() && #[trigger] xs[j] == xs[i] + spacing
}

/// Whether a row has no hole: every place is the rightmost or has a place
/// one spacing to its right.
pub open spec fn chained(xs: Seq<int>, spacing: int) -> bool {
    forall|i: int|
        0 <= i < xs.len() ==> #[trigger] is_rightmost(xs, i) || has_right_neighbour(
            xs,
            i,
            spacing,
        )
}

/// Whether every place of a row lies between `low` and `high`.
pub open spec fn within(xs: Seq<int>, low: int, high: int) -> bool {
    forall|i: int| 0 <= i < xs.len() ==> low <= #[trigger] xs[i] <= high
}

/// Whether a spacing, a spread and a right bound go together: a thing that
/// comes back lands right of the left bound of the playfield, and left of
/// the right bound whatever the row looks like.
pub open spec fn fits(spacing: int, spread: int, high: int) -> bool {
    &&& 0 < spacing
    &&& 0 <= spread
    &&& TRACK_FLOOR + spacing <= MIN_SCREEN
    &&& MIN_SCREEN + spread + spacing <= high
}

/// What holds of every row between two frames: its places lie on one grid,
/// close together and without a hole, and between the lowest place at which
/// a thing can come back and the right bound.
pub open spec fn row_ok(xs: Seq<int>, spacing: int, spread: int, high: int) -> bool {
    &&& aligned(xs, spacing, spread)
    &&& chained(xs, spacing)
    &&& within(xs, TRACK_FLOOR + spacing, high)
}

/// The tracked maximum is at least the floor and at least every place, and it
/// is the floor or one of the places.
pub proof fn lemma_tracked_max(xs: Seq<int>)
    ensures
        tracked_max(xs) >= TRACK_FLOOR,
        forall|i: int| 0 <= i < xs.len() ==> #[trigger] xs[i] <= tracked_max(xs),
        tracked_max(xs) == TRACK_FLOOR || exists|i: int|
            0 <= i < xs.len() && #[trigger] xs[i] == tracked_max(xs),
    decreases xs.len(),
{
    if xs.len() > 0 {
        let rest: Seq<int> = xs.drop_last();
        lemma_tracked_max(rest);
        assert forall|i: int| 0 <= i < xs.len() implies #[trigger] xs[i] <= tracked_max(xs) by {
            if i < rest.len() {
                assert(rest[i] == xs[i]);
            }
        }
        if tracked_max(xs) != TRACK_FLOOR {
            if tracked_max(xs) == xs.last() {
                assert(xs[xs.len() - 1] == tracked_max(xs));
            } else {
                let k: int = choose|k: int| 0 <= k < rest.len() && rest[k] == tracked_max(rest);
                assert(xs[k] == tracked_max(xs));
            }
        }
    }
}

/// The tracked maximum of a row with one more place at its end.
pub proof fn lemma_tracked_max_push(xs: Seq<int>, x: int)
    ensures
        tracked_max(xs.push(x)) == larger(tracked_max(xs), x),
{
    assert(xs.push(x).drop_last() =~= xs);
}

/// A positive multiple of the spacing is at least the spacing.
proof fn lemma_grid_step(diff: int, spacing: int)
    requires
        0 < spacing,
        0 < diff,
        diff % spacing == 0,
    ensures
        diff >= spacing,
{
    if diff < spacing {
        lemma_small_mod(diff as nat, spacing as nat);
    }
}

/// Moving a row keeps it on one grid and as close together as it was.
pub proof fn lemma_shifted_aligned(xs: Seq<int>, d: int, spacing: int, spread: int)
    requires
        aligned(xs, spacing, spread),
    ensures
        aligned(shifted(xs, d), spacing, spread),
{
    let ys: Seq<int> = shifted(xs, d);
    assert forall|i: int, j: int| 0 <= i < ys.len() && 0 <= j < ys.len() implies {
        &&& (#[trigger] ys[i] - #[trigger] ys[j]) % spacing == 0
        &&& ys[i] - ys[j] <= spread
    } by {
        assert(ys[i] - ys[j] == xs[i] - xs[j]);
    }
}

/// Moving a row opens no hole in it.
pub proof fn lemma_shifted_chained(xs: Seq<int>, d: int, spacing: int)
    requires
        chained(xs, spacing),
    ensures
        chained(shifted(xs, d), spacing),
{
    let ys: Seq<int> = shifted(xs, d);
    assert forall|i: int| 0 <= i < ys.len() implies #[trigger] is_rightmost(ys, i)
        || has_right_neighbour(ys, i, spacing) by {
        assert(is_rightmost(xs, i) || has_right_neighbour(xs, i, spacing));
        if is_rightmost(xs, i) {
            assert forall|k: int| 0 <= k < ys.len() implies #[trigger] ys[k] <= ys[i] by {
                assert(xs[k] <= xs[i]);
            }
        } else {
            let j: int = choose|j: int| 0 <= j < xs.len() && #[trigger] xs[j] == xs[i] + spacing;
            assert(ys[j] == ys[i] + spacing);
        }
    }
}

/// Bringing back what has left the playfield opens no hole in a row.
pub proof fn lemma_recycled_chained(xs: Seq<int>, spacing: int)
    requires
        0 < spacing,
        chained(xs, spacing),
    ensures
        chained(recycled(xs, spacing), spacing),
{
    let m: int = tracked_max(xs);
    let ys: Seq<int> = recycled(xs, spacing);
    lemma_tracked_max(xs);
    assert forall|i: int| 0 <= i < ys.len() implies #[trigger] is_rightmost(ys, i)
        || has_right_neighbour(ys, i, spacing) by {
        if is_out(xs[i]) {
            assert forall|k: int| 0 <= k < ys.len() implies #[trigger] ys[k] <= ys[i] by {
                assert(xs[k] <= m);
            }
        } else {
            assert(is_rightmost(xs, i) || has_right_neighbour(xs, i, spacing));
            if has_right_neighbour(xs, i, spacing) {
                let j: int = choose|j: int|
                    0 <= j < xs.len() && #[trigger] xs[j] == xs[i] + spacing;
                assert(ys[j] == ys[i] + spacing);
            } else if exists|k: int| 0 <= k < xs.len() && is_out(#[trigger] xs[k]) {
                let k: int = choose|k: int| 0 <= k < xs.len() && is_out(#[trigger] xs[k]);
                assert(xs[i] <= m);
                let r: int = choose|r: int| 0 <= r < xs.len() && #[trigger] xs[r] == m;
                assert(xs[r] <= xs[i]);
                assert(ys[k] == ys[i] + spacing);
            } else {
                assert forall|k: int| 0 <= k < ys.len() implies #[trigger] ys[k] <= ys[i] by {
                    assert(!is_out(xs[k]));
                    assert(xs[k] <= xs[i]);
                }
            }
        }
    }
}

/// Bringing back what has left the playfield keeps a row on one grid, as
/// close together as it was and without a hole, and puts every place between
/// the bounds.
pub proof fn lemma_recycled_row_ok(xs: Seq<int>, spacing: int, spread: int, high: int)
    requires
        fits(spacing, spread, high),
        aligned(xs, spacing, spread),
        chained(xs, spacing),
        forall|i: int| 0 <= i < xs.len() ==> #[trigger] xs[i] <= high,
    ensures
        row_ok(recycled(xs, spacing), spacing, spread, high),
{
    let m: int = tracked_max(xs);
    let ys: Seq<int> = recycled(xs, spacing);
    lemma_tracked_max(xs);
    lemma_recycled_chained(xs, spacing);
    assert forall|i: int, j: int| 0 <= i < ys.len() && 0 <= j < ys.len() implies {
        &&& (#[trigger] ys[i] - #[trigger] ys[j]) % spacing == 0
        &&& ys[i] - ys[j] <= spread
    } by {
        lemma_recycled_pair(xs, spacing, spread, i, j);
    }
    assert forall|i: int| 0 <= i < ys.len() implies TRACK_FLOOR + spacing <= #[trigger] ys[i]
        <= high by {
        if is_out(xs[i]) {
            if m != TRACK_FLOOR {
                let k: int = choose|k: int| 0 <= k < xs.len() && xs[k] == m;
                assert(xs[k] - xs[i] <= spread);
            }
        }
    }
}

/// Two places of a row after what has left the playfield has come back.
proof fn lemma_recycled_pair(xs: Seq<int>, spacing: int, spread: int, i: int, j: int)
    requires
        0 < spacing,
        0 <= spread,
        aligned(xs, spacing, spread),
        0 <= i < xs.len(),
        0 <= j < xs.len(),
    ensures
        (recycled(xs, spacing)[i] - recycled(xs, spacing)[j]) % spacing == 0,
        recycled(xs, spacing)[i] - recycled(xs, spacing)[j] <= spread,
{
    let m: int = tracked_max(xs);
    let ys: Seq<int> = recycled(xs, spacing);
    lemma_tracked_max(xs);
    assert((xs[i] - xs[j]) % spacing == 0 && xs[i] - xs[j] <= spread);
    assert((xs[i] - xs[i]) % spacing == 0);
    if is_out(xs[i]) == is_out(xs[j]) {
        if is_out(xs[i]) {
            assert(ys[i] - ys[j] == xs[i] - xs[i]);
        }
    } else {
        // One of the two stays, so the tracked maximum is a place of the row.
        assert(m >= MIN_SCREEN);
        let k: int = choose|k: int| 0 <= k < xs.len() && xs[k] == m;
        if is_out(xs[i]) {
            assert((xs[k] - xs[j]) % spacing == 0);
            lemma_mod_add_multiples_vanish(m - xs[j], spacing);
            assert(ys[i] - ys[j] == spacing + (m - xs[j]));
            assert((xs[j] - xs[i]) % spacing == 0);
            lemma_grid_step(xs[j] - xs[i], spacing);
            assert(xs[k] - xs[i] <= spread);
        } else {
            assert((xs[i] - xs[k]) % spacing == 0);
            lemma_mod_sub_multiples_vanish(xs[i] - m, spacing);
            assert(ys[i] - ys[j] == -spacing + (xs[i] - m));
        }
    }
}

/// In a frame that moves a row by no more than one spacing, only things
/// that stood at one place leave the playfield together. So a row whose
/// places all lay in the playfield lies in the playfield after the frame, and
/// two things share a place after it just when they shared one before.
pub proof fn lemma_short_frame_keeps_apart(
    xs: Seq<int>,
    d: int,
    spacing: int,
    spread: int,
    high: int,
)
    requires
        fits(spacing, spread, high),
        row_ok(xs, spacing, spread, high),
        within(xs, MIN_SCREEN as int, high),
        0 <= d <= spacing,
    ensures
        within(scrolled(xs, d, spacing), MIN_SCREEN as int, high),
        forall|i: int, j: int|
            0 <= i < xs.len() && 0 <= j < xs.len() ==> (#[trigger] scrolled(xs, d, spacing)[i]
                == #[trigger] scrolled(xs, d, spacing)[j]) == (xs[i] == xs[j]),
{
    let zs: Seq<int> = shifted(xs, d);
    let ys: Seq<int> = scrolled(xs, d, spacing);
    let m: int = tracked_max(zs);
    lemma_tracked_max(zs);
    lemma_scrolled_row_ok(xs, d, spacing, spread, high);
    assert forall|i: int| 0 <= i < ys.len() implies MIN_SCREEN <= #[trigger] ys[i] <= high by {
        assert(xs[i] >= MIN_SCREEN);
        assert(zs[i] <= m);
    }
    assert forall|i: int, j: int| 0 <= i < xs.len() && 0 <= j < xs.len() implies (
    #[trigger] ys[i] == #[trigger] ys[j]) == (xs[i] == xs[j]) by {
        assert(xs[i] >= MIN_SCREEN && xs[j] >= MIN_SCREEN);
        assert((xs[i] - xs[j]) % spacing == 0);
        assert((xs[j] - xs[i]) % spacing == 0);
        assert(zs[i] <= m && zs[j] <= m);
        if is_out(zs[i]) && is_out(zs[j]) {
            if xs[i] < xs[j] {
                lemma_grid_step(xs[j] - xs[i], spacing);
            } else if xs[j] < xs[i] {
                lemma_grid_step(xs[i] - xs[j], spacing);
            }
        }
    }
}

/// A frame keeps a row in order, however long the frame.
pub proof fn lemma_scrolled_row_ok(xs: Seq<int>, d: int, spacing: int, spread: int, high: int)
    requires
        fits(spacing, spread, high),
        row_ok(xs, spacing, spread, high),
        0 <= d,
    ensures
        row_ok(scrolled(xs, d, spacing), spacing, spread, high),
{
    lemma_shifted_aligned(xs, d, spacing, spread);
    lemma_shifted_chained(xs, d, spacing);
    let moved: Seq<int> = shifted(xs, d);
    assert forall|i: int| 0 <= i < moved.len() implies #[trigger] moved[i] <= high by {
        assert(xs[i] <= high);
    }
    lemma_recycled_row_ok(moved, spacing, spread, high);
}

} // verus!
