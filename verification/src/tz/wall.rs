//! What a change of offset does to the wall clock.
//!
//! A zone's wall clock shows UTC plus the zone's offset. When the offset
//! grows at a transition, the wall clock jumps ahead and a stretch of
//! wall-clock times is skipped: a gap. When it shrinks, the wall clock is set
//! back and a stretch of wall-clock times is shown twice: a fold. All times
//! here are counts of seconds.
use crate::shared::TzifTransitionKind;
use vstd::prelude::*;

verus! {

/// What a transition from offset `prev` to offset `this` does to the wall
/// clock.
pub open spec fn kind_of(prev: int, this: int) -> TzifTransitionKind {
    if prev == this {
        TzifTransitionKind::Unambiguous
    } else if prev < this {
        TzifTransitionKind::Gap
    } else {
        TzifTransitionKind::Fold
    }
}

/// The first wall-clock time that a transition at instant `at` disturbs.
///
/// For a gap it is the first time skipped: what the clock would have shown
/// at the transition under the old offset. For a fold it is the first time
/// shown again: what the clock shows at the transition under the new offset.
/// Where the offset stays, it is what the clock shows at the transition.
pub open spec fn window_start(at: int, prev: int, this: int) -> int {
    if prev <= this {
        at + prev
    } else {
        at + this
    }
}

/// The first wall-clock time after those that a transition at instant `at`
/// disturbs.
pub open spec fn window_end(at: int, prev: int, this: int) -> int {
    if prev <= this {
        at + this
    } else {
        at + prev
    }
}

/// Whether wall-clock time `civil` is one that the transition disturbs.
pub open spec fn in_window(at: int, prev: int, this: int, civil: int) -> bool {
    window_start(at, prev, this) <= civil < window_end(at, prev, this)
}

/// What the wall clock shows at instant `t`, in a zone whose offset is `prev`
/// before instant `at` and `this` from then on.
pub open spec fn wall_clock(at: int, prev: int, this: int, t: int) -> int {
    if t < at {
        t + prev
    } else {
        t + this
    }
}

/// The kind of a transition from `prev_offset` to `this_offset`.
pub fn classify(prev_offset: i32, this_offset: i32) -> (kind: TzifTransitionKind)
    ensures
        kind == kind_of(prev_offset as int, this_offset as int),
{
    if prev_offset == this_offset {
        TzifTransitionKind::Unambiguous
    } else if prev_offset < this_offset {
        TzifTransitionKind::Gap
    } else {
        TzifTransitionKind::Fold
    }
}

/// The window of a transition is as long as the offset changes by, and
/// empty where the offset stays.
pub proof fn lemma_window_size(at: int, prev: int, this: int)
    ensures
        kind_of(prev, this) is Unambiguous ==> window_end(at, prev, this) == window_start(
            at,
            prev,
            this,
        ),
        kind_of(prev, this) is Gap ==> window_end(at, prev, this) - window_start(at, prev, this)
            == this - prev,
        kind_of(prev, this) is Fold ==> window_end(at, prev, this) - window_start(at, prev, this)
            == prev - this,
{
}

/// No instant shows a wall-clock time inside a gap.
pub proof fn lemma_gap_is_skipped(at: int, prev: int, this: int, t: int)
    requires
        kind_of(prev, this) is Gap,
    ensures
        !in_window(at, prev, this, wall_clock(at, prev, this, t)),
{
}

/// A wall-clock time inside a fold is shown at two instants: once before the
/// transition, under the old offset, and once after it, under the new one.
/// No other instant shows it.
pub proof fn lemma_fold_is_repeated(at: int, prev: int, this: int, civil: int)
    requires
        kind_of(prev, this) is Fold,
        in_window(at, prev, this, civil),
    ensures
        civil - prev < at <= civil - this,
        wall_clock(at, prev, this, civil - prev) == civil,
        wall_clock(at, prev, this, civil - this) == civil,
        forall|t: int|
            wall_clock(at, prev, this, t) == civil ==> t == civil - prev || t == civil - this,
{
}

/// A wall-clock time outside the window is shown at one instant only: under
/// the old offset if it lies before the window, under the new one if not.
pub proof fn lemma_outside_window_is_shown_once(at: int, prev: int, this: int, civil: int)
    requires
        !in_window(at, prev, this, civil),
    ensures
        civil < window_start(at, prev, this) ==> forall|t: int|
            wall_clock(at, prev, this, t) == civil <==> t == civil - prev,
        civil >= window_start(at, prev, this) ==> forall|t: int|
            wall_clock(at, prev, this, t) == civil <==> t == civil - this,
{
}

} // verus!
