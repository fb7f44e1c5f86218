//! What the answers of a rule set mean.
//!
//! A rule set answers two questions: which offset holds at an instant, and
//! which offsets a wall-clock time may stand for. The second answer is right
//! if it agrees with the first: an offset belongs to a wall-clock time
//! exactly if, at the instant that the two make up, the rule set says that
//! this offset holds.
//!
//! This is proved here for rule sets that answer from their transitions
//! alone, and whose transitions lie so far apart that the wall-clock times
//! that one disturbs are over before those of the next begin.
use crate::access::{Table, Text};
use crate::tz::offset::AmbiguousView;
use crate::tz::search::{
    key_of, keys_of, latest_at_or_before, lemma_latest_in_order, lemma_latest_is_greatest, ordered,
    Clock,
};
use crate::tz::tzif::{
    offset_from, row_view, transition_ok, type_before, LocalTimeType, Transition, Tzif,
};
use crate::tz::wall::{kind_of, window_end, window_start};
use vstd::prelude::*;

verus! {

/// The first wall-clock time after those that the transition disturbs, in
/// seconds; its wall-clock start where it disturbs none.
pub open spec fn wall_end(t: Transition) -> int {
    if t.info.kind is Unambiguous {
        t.civil_start.spec_seconds()
    } else {
        t.civil_end.spec_seconds()
    }
}

/// Whether the wall-clock times that transition `i` disturbs are over before
/// those of the next transition begin.
pub open spec fn apart_at(rows: Seq<Transition>, i: int) -> bool {
    wall_end(rows[i]) <= key_of(rows[i + 1], Clock::Wall)
}

/// Whether the wall-clock times that each transition disturbs are over
/// before those of the next begin.
pub open spec fn windows_apart(rows: Seq<Transition>) -> bool {
    forall|i: int| 0 <= i < rows.len() - 1 ==> #[trigger] apart_at(rows, i)
}

/// Whether every transition is classified against the one before it.
pub open spec fn all_ok(types: Seq<LocalTimeType>, rows: Seq<Transition>) -> bool {
    forall|i: int| 0 <= i < rows.len() ==> #[trigger] transition_ok(types, rows, i)
}

/// The offset that holds until transition `i`.
pub open spec fn offset_before(types: Seq<LocalTimeType>, rows: Seq<Transition>, i: int) -> int {
    type_before(types, rows, i).offset as int
}

/// What a classified transition says of its window, in terms of its instant
/// and the offsets around it.
proof fn lemma_window_of(types: Seq<LocalTimeType>, rows: Seq<Transition>, i: int)
    requires
        all_ok(types, rows),
        0 <= i < rows.len(),
    ensures
        key_of(rows[i], Clock::Wall) == window_start(
            rows[i].timestamp as int,
            offset_before(types, rows, i),
            offset_from(types, rows, i),
        ),
        wall_end(rows[i]) == window_end(
            rows[i].timestamp as int,
            offset_before(types, rows, i),
            offset_from(types, rows, i),
        ),
        key_of(rows[i], Clock::Wall) <= wall_end(rows[i]),
        rows[i].info.kind == kind_of(offset_before(types, rows, i), offset_from(types, rows, i)),
        i + 1 < rows.len() ==> offset_before(types, rows, i + 1) == offset_from(types, rows, i),
{
    assert(transition_ok(types, rows, i));
}

/// With windows apart, wall-clock starts and ends are in order, and every
/// window is over before any later one begins.
proof fn lemma_windows_in_order(types: Seq<LocalTimeType>, rows: Seq<Transition>, a: int, b: int)
    requires
        all_ok(types, rows),
        windows_apart(rows),
        0 <= a <= b < rows.len(),
    ensures
        key_of(rows[a], Clock::Wall) <= key_of(rows[b], Clock::Wall),
        wall_end(rows[a]) <= wall_end(rows[b]),
        a < b ==> wall_end(rows[a]) <= key_of(rows[b], Clock::Wall),
    decreases b - a,
{
    lemma_window_of(types, rows, a);
    lemma_window_of(types, rows, b);
    if a < b {
        lemma_windows_in_order(types, rows, a, b - 1);
        lemma_window_of(types, rows, b - 1);
        assert(apart_at(rows, b - 1));
    }
}

/// With windows apart, the wall-clock starts are in order.
pub proof fn lemma_walls_ordered(types: Seq<LocalTimeType>, rows: Seq<Transition>)
    requires
        all_ok(types, rows),
        windows_apart(rows),
    ensures
        ordered(keys_of(rows, Clock::Wall)),
{
    let keys = keys_of(rows, Clock::Wall);
    assert forall|i: int, j: int| 0 <= i <= j < keys.len() implies keys[i] <= keys[j] by {
        lemma_windows_in_order(types, rows, i, j);
    }
}

/// The transition that governs an instant is at or before it, and the next
/// one is after it.
proof fn lemma_governing(rows: Seq<Transition>, t: int)
    requires
        forall|i: int, j: int| 0 <= i < j < rows.len() ==> rows[i].timestamp < rows[j].timestamp,
    ensures
        ({
            let j = latest_at_or_before(keys_of(rows, Clock::Universal), t);
            &&& -1 <= j < rows.len()
            &&& j >= 0 ==> rows[j].timestamp <= t
            &&& j + 1 < rows.len() ==> t < rows[j + 1].timestamp
        }),
{
    let keys = keys_of(rows, Clock::Universal);
    lemma_latest_is_greatest(keys, t);
    let j = latest_at_or_before(keys, t);
    if j + 1 < rows.len() && rows[j + 1].timestamp <= t {
        assert(keys[j + 1] <= t);
        if j >= 0 {
            assert(rows[j].timestamp < rows[j + 1].timestamp);
        }
    }
}

/// The transition whose wall-clock start governs a wall-clock time begins at
/// or before it, and the next one begins after it.
proof fn lemma_governing_wall(types: Seq<LocalTimeType>, rows: Seq<Transition>, civil: int)
    requires
        all_ok(types, rows),
        windows_apart(rows),
    ensures
        ({
            let i = latest_at_or_before(keys_of(rows, Clock::Wall), civil);
            &&& -1 <= i < rows.len()
            &&& i >= 0 ==> key_of(rows[i], Clock::Wall) <= civil
            &&& i + 1 < rows.len() ==> civil < key_of(rows[i + 1], Clock::Wall)
        }),
{
    let keys = keys_of(rows, Clock::Wall);
    lemma_latest_is_greatest(keys, civil);
    lemma_walls_ordered(types, rows);
    let i = latest_at_or_before(keys, civil);
    if i >= 0 {
        assert(keys[i] == key_of(rows[i], Clock::Wall));
    }
    if i + 1 < rows.len() && key_of(rows[i + 1], Clock::Wall) <= civil {
        assert(keys[i + 1] == key_of(rows[i + 1], Clock::Wall));
        assert(keys[i + 1] <= civil);
        if i >= 0 {
            assert(keys[i] <= keys[i + 1]);
        }
    }
}

/// Where an instant is governed by transition `j` (or by none, where `j` is
/// -1), what the wall clock shows at it lies between the windows of
/// transition `j` and the next: not before the window of `j` begins and,
/// unless it is shown under the offset that the next transition ends, not
/// after the window of the next has begun.
proof fn lemma_shown_between(types: Seq<LocalTimeType>, rows: Seq<Transition>, j: int, t: int)
    requires
        all_ok(types, rows),
        -1 <= j < rows.len(),
        j >= 0 ==> rows[j].timestamp <= t,
        j + 1 < rows.len() ==> t < rows[j + 1].timestamp,
    ensures
        ({
            let shown = t + offset_before(types, rows, j + 1);
            &&& j >= 0 ==> shown == t + offset_from(types, rows, j)
            &&& j >= 0 ==> key_of(rows[j], Clock::Wall) <= shown
            &&& j >= 0 && rows[j].info.kind is Gap ==> wall_end(rows[j]) <= shown
            &&& j >= 0 && t - rows[j].timestamp >= offset_before(types, rows, j) - offset_from(
                types,
                rows,
                j,
            ) ==> wall_end(rows[j]) <= shown
            &&& j + 1 < rows.len() ==> shown < wall_end(rows[j + 1])
            &&& j + 1 < rows.len() && !(rows[j + 1].info.kind is Fold) ==> shown < key_of(
                rows[j + 1],
                Clock::Wall,
            )
        }),
{
    if j >= 0 {
        lemma_window_of(types, rows, j);
    }
    if j + 1 < rows.len() {
        lemma_window_of(types, rows, j + 1);
    }
}

impl<STRING: Text, ABBREV: Text, TYPES: Table<LocalTimeType>, TRANS: Table<Transition>> Tzif<
    STRING,
    ABBREV,
    TYPES,
    TRANS,
> {
    /// What the wall clock shows at the instant `t`, in seconds.
    pub open spec fn spec_shown_at(&self, t: int) -> int {
        t + self.spec_to_offset(t).offset
    }

    /// Whether the rule set answers from its transitions alone, and its
    /// transitions lie so far apart that the wall-clock times that one
    /// disturbs are over before those of the next begin.
    pub open spec fn plain(&self) -> bool {
        &&& self.wf()
        &&& self.posix_tz is None
        &&& windows_apart(self.transitions.rows())
    }

    /// Every offset that a wall-clock time is said to stand for holds at the
    /// instant that the two make up, and that instant shows the wall-clock
    /// time. Of the two offsets of a fold, the one before the transition
    /// makes the earlier instant.
    pub proof fn lemma_offsets_of_wall_clock_time_hold(&self, civil: int, y: int)
        requires
            self.plain(),
        ensures
            match self.spec_to_ambiguous(civil, y) {
                AmbiguousView::Unambiguous { offset } => {
                    &&& self.spec_to_offset(civil - offset.offset) == offset
                    &&& self.spec_shown_at(civil - offset.offset) == civil
                },
                AmbiguousView::Gap => true,
                AmbiguousView::Fold { before, after } => {
                    &&& self.spec_to_offset(civil - before.offset) == before
                    &&& self.spec_to_offset(civil - after.offset) == after
                    &&& self.spec_shown_at(civil - before.offset) == civil
                    &&& self.spec_shown_at(civil - after.offset) == civil
                    &&& civil - before.offset < civil - after.offset
                },
            },
    {
        let types = self.types.rows();
        let rows = self.transitions.rows();
        let bytes = self.spec_designation_bytes();
        let utc = keys_of(rows, Clock::Universal);
        self.lemma_timestamps_ordered();
        lemma_governing_wall(types, rows, civil);
        let i = latest_at_or_before(keys_of(rows, Clock::Wall), civil);
        if i < 0 {
            let t = civil - types[0].offset;
            if rows.len() > 0 {
                lemma_window_of(types, rows, 0);
            }
            lemma_latest_in_order(utc, t, -1);
        } else {
            lemma_window_of(types, rows, i);
            if i + 1 < rows.len() {
                lemma_window_of(types, rows, i + 1);
                assert(apart_at(rows, i));
            }
            let this = offset_from(types, rows, i);
            let prev = offset_before(types, rows, i);
            if civil < wall_end(rows[i]) {
                if rows[i].info.kind is Fold {
                    lemma_latest_in_order(utc, civil - this, i);
                    if i > 0 {
                        lemma_window_of(types, rows, i - 1);
                        assert(apart_at(rows, i - 1));
                        assert(transition_ok(types, rows, i - 1));
                    }
                    lemma_latest_in_order(utc, civil - prev, i - 1);
                }
            } else {
                lemma_latest_in_order(utc, civil - this, i);
            }
        }
    }

    /// No instant shows a wall-clock time that is said to lie in a gap, and
    /// an instant that shows any other wall-clock time is one that an offset
    /// of the answer makes up with it.
    pub proof fn lemma_wall_clock_time_is_shown_only_there(&self, civil: int, y: int, t: int)
        requires
            self.plain(),
            self.spec_shown_at(t) == civil,
        ensures
            match self.spec_to_ambiguous(civil, y) {
                AmbiguousView::Unambiguous { offset } => t == civil - offset.offset,
                AmbiguousView::Gap => false,
                AmbiguousView::Fold { before, after } => t == civil - before.offset || t == civil
                    - after.offset,
            },
    {
        let types = self.types.rows();
        let rows = self.transitions.rows();
        self.lemma_timestamps_ordered();
        lemma_governing(rows, t);
        lemma_governing_wall(types, rows, civil);
        let j = latest_at_or_before(keys_of(rows, Clock::Universal), t);
        let i = latest_at_or_before(keys_of(rows, Clock::Wall), civil);
        lemma_shown_between(types, rows, j, t);
        if j >= 0 {
            assert(transition_ok(types, rows, j));
        }
        assert(civil == t + offset_before(types, rows, j + 1));
        if i >= 0 {
            lemma_window_of(types, rows, i);
        }
        if j > i {
            // The window of `j` begins after `civil`.
            lemma_windows_in_order(types, rows, i + 1, j);
        } else if j < i {
            // The window of `j + 1` is over before that of `i` begins,
            // unless `j + 1` is `i`.
            if j + 1 < i {
                lemma_windows_in_order(types, rows, j + 1, i);
            }
        }
    }
}

} // verus!
