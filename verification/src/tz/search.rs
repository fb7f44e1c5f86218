//! Finding the transition that governs a time.
//!
//! A time is governed by the latest transition at or before it. The search
//! is stated once, as a scan of the keys from first to last, and carried out
//! twice: by that scan, and by bisection where the keys are in order.
use crate::access::Table;
use crate::tz::tzif::Transition;
use vstd::prelude::*;

verus! {

/// The clock that a time is read on.
#[derive(Clone, Copy, Debug, PartialEq, Eq, Structural)]
pub enum Clock {
    /// Seconds since 1970-01-01T00:00:00Z.
    Universal,
    /// Seconds on the wall clock since 1970-01-01T00:00:00.
    Wall,
}

/// The index of the latest of `keys` that is at or before `q`, or -1 where
/// there is none. Among equal keys the last one counts.
///
/// This is a scan from the first key to the last.
pub open spec fn latest_at_or_before(keys: Seq<int>, q: int) -> int
    decreases keys.len(),
{
    if keys.len() == 0 {
        -1
    } else {
        let last = keys.len() - 1;
        let before = latest_at_or_before(keys.drop_last(), q);
        if keys[last] <= q && (before < 0 || keys[before] <= keys[last]) {
            last
        } else {
            before
        }
    }
}

/// Whether the keys never go down.
pub open spec fn ordered(keys: Seq<int>) -> bool {
    forall|i: int, j: int| 0 <= i <= j < keys.len() ==> keys[i] <= keys[j]
}

/// When a transition takes effect, on the given clock.
pub open spec fn key_of(t: Transition, clock: Clock) -> int {
    match clock {
        Clock::Universal => t.timestamp as int,
        Clock::Wall => t.civil_start.spec_seconds(),
    }
}

/// When each transition takes effect, on the given clock.
pub open spec fn keys_of(rows: Seq<Transition>, clock: Clock) -> Seq<int> {
    Seq::new(rows.len(), |i: int| key_of(rows[i], clock))
}

/// Whether every transition has a wall-clock start that can be read.
pub open spec fn readable(rows: Seq<Transition>) -> bool {
    forall|i: int| 0 <= i < rows.len() ==> (#[trigger] rows[i]).civil_start.wf()
}

/// The index that a search result stands for: -1 for none.
pub open spec fn index_of(found: Option<usize>) -> int {
    match found {
        Some(i) => i as int,
        None => -1,
    }
}

/// What the scan finds is the greatest key at or before `q`, and the last of
/// its equals.
pub proof fn lemma_latest_is_greatest(keys: Seq<int>, q: int)
    ensures
        -1 <= latest_at_or_before(keys, q) < keys.len(),
        latest_at_or_before(keys, q) >= 0 ==> keys[latest_at_or_before(keys, q)] <= q,
        forall|j: int|
            0 <= j < keys.len() && keys[j] <= q ==> {
                let r = latest_at_or_before(keys, q);
                &&& r >= 0
                &&& keys[j] <= keys[r]
                &&& keys[j] == keys[r] ==> j <= r
            },
    decreases keys.len(),
{
    if keys.len() > 0 {
        let rest = keys.drop_last();
        lemma_latest_is_greatest(rest, q);
        let before = latest_at_or_before(rest, q);
        assert forall|j: int| 0 <= j < keys.len() && keys[j] <= q implies {
            let r = latest_at_or_before(keys, q);
            &&& r >= 0
            &&& keys[j] <= keys[r]
            &&& keys[j] == keys[r] ==> j <= r
        } by {
            if j < keys.len() - 1 {
                assert(rest[j] == keys[j]);
            }
        }
    }
}

/// Where the keys are in order, the scan finds the last key at or before
/// `q`: the index `i` with every key up to it at or before `q` and every key
/// after it later than `q`.
pub proof fn lemma_latest_in_order(keys: Seq<int>, q: int, i: int)
    requires
        ordered(keys),
        -1 <= i < keys.len(),
        i >= 0 ==> keys[i] <= q,
        i + 1 < keys.len() ==> keys[i + 1] > q,
    ensures
        latest_at_or_before(keys, q) == i,
    decreases keys.len(),
{
    if keys.len() > 0 {
        let last = keys.len() - 1;
        let rest = keys.drop_last();
        lemma_latest_is_greatest(rest, q);
        if keys[last] <= q {
            if i < last {
                assert(keys[i + 1] <= keys[last]);
            }
            let before = latest_at_or_before(rest, q);
            if before >= 0 {
                assert(rest[before] == keys[before]);
            }
        } else {
            assert(ordered(rest)) by {
                assert forall|a: int, b: int| 0 <= a <= b < rest.len() implies rest[a]
                    <= rest[b] by {
                    assert(rest[a] == keys[a] && rest[b] == keys[b]);
                }
            }
            if i >= 0 {
                assert(rest[i] == keys[i]);
            }
            if i + 1 < rest.len() {
                assert(rest[i + 1] == keys[i + 1]);
            }
            lemma_latest_in_order(rest, q, i);
        }
    }
}

/// The keys of an array, as integers.
pub open spec fn ints_of(keys: Seq<i128>) -> Seq<int> {
    Seq::new(keys.len(), |i: int| keys[i] as int)
}

/// Finds the latest of a handful of keys that is at or before `q`.
pub fn find_in_keys<const N: usize>(keys: &[i128; N], q: i128) -> (found: Option<usize>)
    ensures
        index_of(found) == latest_at_or_before(ints_of(keys@), q as int),
        found is Some ==> found->0 < N,
{
    let ghost all = ints_of(keys@);
    let mut found: Option<usize> = None;
    let mut best: i128 = 0;
    let mut i: usize = 0;
    while i < N
        invariant
            i <= N == keys@.len(),
            all == ints_of(keys@),
            index_of(found) == latest_at_or_before(all.take(i as int), q as int),
            found is Some ==> found->0 < i && best == all[found->0 as int],
        decreases N - i,
    {
        let k = keys[i];
        proof {
            assert(all.take(i + 1).drop_last() =~= all.take(i as int));
            assert(all.take(i + 1)[i as int] == k);
            if found is Some {
                assert(all.take(i as int)[found->0 as int] == best);
            }
        }
        let take = match found {
            Some(_) => best <= k,
            None => true,
        };
        if k <= q && take {
            found = Some(i);
            best = k;
        }
        i += 1;
    }
    proof {
        assert(all.take(N as int) =~= all);
    }
    found
}

/// When the transition takes effect, on the given clock.
pub fn key_at(t: &Transition, clock: Clock) -> (k: i128)
    requires
        clock is Wall ==> t.civil_start.wf(),
    ensures
        k == key_of(*t, clock),
{
    match clock {
        Clock::Universal => t.timestamp as i128,
        Clock::Wall => t.civil_start.to_seconds(),
    }
}

/// Finds the latest transition at or before `q` by looking at every
/// transition in turn.
pub fn find_by_scan<TRANS: Table<Transition>>(table: &TRANS, clock: Clock, q: i128) -> (found:
    Option<usize>)
    requires
        clock is Wall ==> readable(table.rows()),
    ensures
        index_of(found) == latest_at_or_before(keys_of(table.rows(), clock), q as int),
{
    let n = table.len();
    let ghost keys = keys_of(table.rows(), clock);
    let mut found: Option<usize> = None;
    let mut best: i128 = 0;
    let mut i: usize = 0;
    while i < n
        invariant
            i <= n == table.rows().len(),
            keys == keys_of(table.rows(), clock),
            clock is Wall ==> readable(table.rows()),
            index_of(found) == latest_at_or_before(keys.take(i as int), q as int),
            found is Some ==> found->0 < i && best == keys[found->0 as int],
        decreases n - i,
    {
        let row = table.get(i);
        let k = key_at(&row, clock);
        proof {
            assert(keys.take(i + 1).drop_last() =~= keys.take(i as int));
            assert(keys.take(i + 1)[i as int] == k);
            if found is Some {
                assert(keys.take(i as int)[found->0 as int] == best);
            }
        }
        let take = match found {
            Some(_) => best <= k,
            None => true,
        };
        if k <= q && take {
            found = Some(i);
            best = k;
        }
        i += 1;
    }
    proof {
        assert(keys.take(n as int) =~= keys);
    }
    found
}

/// Finds the latest transition at or before `q` by bisection, in a table
/// whose keys are in order.
pub fn find_by_bisection<TRANS: Table<Transition>>(table: &TRANS, clock: Clock, q: i128) -> (found:
    Option<usize>)
    requires
        clock is Wall ==> readable(table.rows()),
        ordered(keys_of(table.rows(), clock)),
    ensures
        index_of(found) == latest_at_or_before(keys_of(table.rows(), clock), q as int),
{
    let ghost keys = keys_of(table.rows(), clock);
    let mut lo: usize = 0;
    let mut hi: usize = table.len();
    while lo < hi
        invariant
            lo <= hi <= table.rows().len(),
            keys == keys_of(table.rows(), clock),
            clock is Wall ==> readable(table.rows()),
            ordered(keys),
            lo > 0 ==> keys[lo - 1] <= q,
            hi < keys.len() ==> keys[hi as int] > q,
        decreases hi - lo,
    {
        let mid = lo + (hi - lo) / 2;
        let row = table.get(mid);
        if key_at(&row, clock) <= q {
            lo = mid + 1;
        } else {
            hi = mid;
        }
    }
    proof {
        lemma_latest_in_order(keys, q as int, lo - 1);
    }
    if lo == 0 {
        None
    } else {
        Some(lo - 1)
    }
}

/// The scan and the bisection find the same transition.
pub proof fn lemma_bisection_agrees_with_scan(
    rows: Seq<Transition>,
    clock: Clock,
    q: int,
    by_scan: Option<usize>,
    by_bisection: Option<usize>,
)
    requires
        index_of(by_scan) == latest_at_or_before(keys_of(rows, clock), q),
        index_of(by_bisection) == latest_at_or_before(keys_of(rows, clock), q),
    ensures
        by_scan == by_bisection,
{
}

} // verus!
