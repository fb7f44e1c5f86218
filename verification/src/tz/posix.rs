//! Zones described by a recurring yearly rule.
//!
//! A POSIX zone has a standard time and, where it observes daylight saving
//! time, a rule that names the day and the time of day at which it begins
//! and ends, year after year. The time of day at which it begins is read on
//! the standard clock, the time at which it ends on the daylight saving
//! clock: each on the clock that is showing when the change comes.
use crate::access::Text;
use crate::civil::{
    days_before_month, days_before_year_wide, in_year, is_leap, is_leap_year_wide,
    lemma_days_before_month_step, lemma_year_start_step, lemma_year_unique, month_len,
    month_length, month_offset, weekday_of, weekday_of_day, year_len, year_of, year_start,
    CivilDate, CivilDateTime, YEAR_LIMIT,
};
use crate::shared::{PosixDay, PosixDayTime, PosixRule};
use crate::tz::offset::{AmbiguousOffset, AmbiguousView, OffsetInfo, OffsetView};
use crate::tz::search::{find_in_keys, ints_of, latest_at_or_before, Clock};
use crate::tz::wall::{wall_clock, window_end, window_start};
use vstd::arithmetic::div_mod::{
    lemma_fundamental_div_mod, lemma_fundamental_div_mod_converse,
};
use vstd::prelude::*;

verus! {

/// A POSIX zone, with its offsets in seconds ahead of UTC.
#[derive(Clone, Debug, PartialEq, Eq)]
pub struct PosixTimeZone<ABBREV> {
    pub std_abbrev: ABBREV,
    /// The offset of standard time, in seconds ahead of UTC.
    pub std_offset: i64,
    pub dst: Option<PosixDst<ABBREV>>,
}

/// The daylight saving time of a POSIX zone.
#[derive(Clone, Debug, PartialEq, Eq)]
pub struct PosixDst<ABBREV> {
    pub abbrev: ABBREV,
    /// The offset of daylight saving time, in seconds ahead of UTC.
    pub offset: i64,
    pub rule: PosixRule,
}

/// Whether the instant `ts` falls, in UTC, in month `m` of year `y`.
pub open spec fn in_month(ts: int, y: int, m: int) -> bool {
    year_start(y) + days_before_month(y, m) <= ts / 86400 < year_start(y) + days_before_month(
        y,
        m + 1,
    )
}

/// The day of a month on which weekday `wd` falls for the `w`th time, or for
/// the last time where the month has no `w`th. The month begins on the day
/// with number `first` and has `len` days.
pub open spec fn pick_weekday(first: int, len: int, w: int, wd: int) -> int {
    let start = 1 + (wd - weekday_of(first)) % 7;
    if start + 7 * (w - 1) > len {
        start + 7 * (w - 1) - 7
    } else {
        start + 7 * (w - 1)
    }
}

/// The day of month `m` of year `y` on which weekday `wd` falls for the
/// `w`th time, or for the last time where the month has no `w`th.
pub open spec fn nth_weekday_in_month(y: int, m: int, w: int, wd: int) -> int {
    pick_weekday(year_start(y) + days_before_month(y, m), month_len(y, m), w, wd)
}

/// Going on from a day by the right number of days, fewer than seven, lands
/// on the weekday asked for, and so does going on by whole weeks after that.
proof fn lemma_weekday_reached(first: int, wd: int, weeks: int)
    requires
        0 <= wd <= 6,
    ensures
        0 <= (wd - weekday_of(first)) % 7 <= 6,
        weekday_of(first + (wd - weekday_of(first)) % 7 + 7 * weeks) == wd,
{
    reveal(weekday_of);
    let a = first + 4;
    let r = a % 7;
    let e = (wd - r) % 7;
    lemma_fundamental_div_mod(a, 7);
    lemma_fundamental_div_mod(wd - r, 7);
    lemma_fundamental_div_mod_converse(a + e + 7 * weeks, 7, a / 7 - (wd - r) / 7 + weeks, wd);
}

/// Two days on the same weekday, fewer than seven days apart, are one day.
proof fn lemma_weekday_once_a_week(x: int, y: int)
    requires
        weekday_of(x) == weekday_of(y),
        -7 < x - y < 7,
    ensures
        x == y,
{
    reveal(weekday_of);
    lemma_fundamental_div_mod(x + 4, 7);
    lemma_fundamental_div_mod(y + 4, 7);
}

/// Picking a weekday in a run of days: `first` is the day number of the first
/// day of the run and `len` the length of the run.
proof fn lemma_pick_weekday(first: int, len: int, w: int, wd: int, other: int)
    requires
        28 <= len <= 31,
        1 <= w <= 5,
        0 <= wd <= 6,
    ensures
        ({
            let d = pick_weekday(first, len, w, wd);
            &&& 1 <= d <= len
            &&& weekday_of(first + d - 1) == wd
            &&& w < 5 ==> 7 * (w - 1) < d <= 7 * w
            &&& w == 5 ==> len - 7 < d
            &&& ({
                &&& 1 <= other <= len
                &&& weekday_of(first + other - 1) == wd
                &&& w < 5 ==> 7 * (w - 1) < other <= 7 * w
                &&& w == 5 ==> len - 7 < other
            }) ==> other == d
        }),
{
    let e = (wd - weekday_of(first)) % 7;
    let d = pick_weekday(first, len, w, wd);
    lemma_weekday_reached(first, wd, w - 1);
    lemma_weekday_reached(first, wd, w - 2);
    assert(d == 1 + e + 7 * (w - 1) || d == 1 + e + 7 * (w - 2));
    assert(weekday_of(first + d - 1) == wd);
    if 1 <= other <= len && weekday_of(first + other - 1) == wd && (w < 5 ==> 7 * (w - 1) < other
        <= 7 * w) && (w == 5 ==> len - 7 < other) {
        lemma_weekday_once_a_week(first + other - 1, first + d - 1);
    }
}

/// The `w`th occurrence of a weekday in a month is a day of that month, it
/// falls on that weekday, and it lies in the `w`th run of seven days of the
/// month; the fifth, if the month has but four, is the fourth, and so lies in
/// the last seven days of the month either way. No other day of the month is
/// all that.
pub proof fn lemma_nth_weekday_in_month(y: int, m: int, w: int, wd: int, other: int)
    requires
        1 <= m <= 12,
        1 <= w <= 5,
        0 <= wd <= 6,
    ensures
        ({
            let d = nth_weekday_in_month(y, m, w, wd);
            &&& 1 <= d <= month_len(y, m)
            &&& weekday_of(year_start(y) + days_before_month(y, m) + d - 1) == wd
            &&& w < 5 ==> 7 * (w - 1) < d <= 7 * w
            &&& w == 5 ==> month_len(y, m) - 7 < d
            &&& ({
                &&& 1 <= other <= month_len(y, m)
                &&& weekday_of(year_start(y) + days_before_month(y, m) + other - 1) == wd
                &&& w < 5 ==> 7 * (w - 1) < other <= 7 * w
                &&& w == 5 ==> month_len(y, m) - 7 < other
            }) ==> other == d
        }),
{
    lemma_pick_weekday(year_start(y) + days_before_month(y, m), month_len(y, m), w, wd, other);
}

/// The day of a month on which `weekday` falls for the `week`th time, or for
/// the last time where the month has no `week`th. The month begins on the
/// day with number `first` and has `len` days.
pub fn nth_weekday(first: i128, len: u8, week: i8, weekday: i8) -> (d: u8)
    requires
        -crate::civil::DAY_NUMBER_LIMIT <= first <= crate::civil::DAY_NUMBER_LIMIT,
        28 <= len <= 31,
        1 <= week <= 5,
        0 <= weekday <= 6,
    ensures
        d == pick_weekday(first as int, len as int, week as int, weekday as int),
        1 <= d <= len,
{
    let on_first: i128 = weekday_of_day(first) as i128;
    let start: i128 = 1 + (weekday as i128 + 7 - on_first) % 7;
    let day: i128 = start + 7 * (week as i128 - 1);
    proof {
        let ahead = (weekday - weekday_of(first as int)) % 7;
        assert((weekday + 7 - on_first) % 7 == ahead) by {
            lemma_fundamental_div_mod(weekday - on_first, 7);
            lemma_fundamental_div_mod_converse(
                weekday + 7 - on_first,
                7,
                (weekday - on_first) / 7 + 1,
                ahead,
            );
        }
        lemma_pick_weekday(first as int, len as int, week as int, weekday as int, 0);
    }
    if day > len as i128 {
        (day - 7) as u8
    } else {
        day as u8
    }
}

impl PosixDay {
    /// Whether the numbers are within what each way of naming a day allows.
    pub open spec fn wf(self) -> bool {
        match self {
            PosixDay::JulianOne(n) => 1 <= n <= 365,
            PosixDay::JulianZero(n) => 0 <= n <= 365,
            PosixDay::WeekdayOfMonth { month, week, weekday } => {
                &&& 1 <= month <= 12
                &&& 1 <= week <= 5
                &&& 0 <= weekday <= 6
            },
        }
    }

    /// How many days of year `y` lie before the day that this names.
    ///
    /// A day counted from one skips the 29th of February. A day counted from
    /// zero does not, and where it counts past the end of a year of 365
    /// days it names that year's last day.
    pub open spec fn spec_year_offset(self, y: int) -> int {
        match self {
            PosixDay::JulianOne(n) => if n >= 60 && is_leap(y) {
                n as int
            } else {
                n - 1
            },
            PosixDay::JulianZero(n) => if n >= year_len(y) {
                year_len(y) - 1
            } else {
                n as int
            },
            PosixDay::WeekdayOfMonth { month, week, weekday } => days_before_month(
                y,
                month as int,
            ) + nth_weekday_in_month(y, month as int, week as int, weekday as int) - 1,
        }
    }

    /// The day number of the day that this names in year `y`.
    pub open spec fn spec_day_number(self, y: int) -> int {
        year_start(y) + self.spec_year_offset(y)
    }

    /// Whether the numbers are within what each way of naming a day allows.
    pub fn is_valid(&self) -> (r: bool)
        ensures
            r == self.wf(),
    {
        match *self {
            PosixDay::JulianOne(n) => 1 <= n && n <= 365,
            PosixDay::JulianZero(n) => 0 <= n && n <= 365,
            PosixDay::WeekdayOfMonth { month, week, weekday } => 1 <= month && month <= 12 && 1
                <= week && week <= 5 && 0 <= weekday && weekday <= 6,
        }
    }

    /// How many days of `year` lie before the day that this names.
    pub fn year_offset(&self, year: i128) -> (r: u16)
        requires
            self.wf(),
            -YEAR_LIMIT < year < YEAR_LIMIT,
        ensures
            r == self.spec_year_offset(year as int),
            r < year_len(year as int),
    {
        let leap = is_leap_year_wide(year);
        match *self {
            PosixDay::JulianOne(n) => {
                if n >= 60 && leap {
                    n as u16
                } else {
                    (n - 1) as u16
                }
            },
            PosixDay::JulianZero(n) => {
                if n >= 365 && !leap {
                    364
                } else {
                    n as u16
                }
            },
            PosixDay::WeekdayOfMonth { month, week, weekday } => {
                let before: i128 = month_offset(leap, month as u8);
                let first: i128 = days_before_year_wide(year) + before;
                let len = month_length(leap, month as u8);
                let day = nth_weekday(first, len, week, weekday);
                proof {
                    lemma_days_before_month_step(year as int, month as int);
                }
                (before + day as i128 - 1) as u16
            },
        }
    }

    /// The day number of the day that this names in `year`.
    pub fn to_day_number(&self, year: i128) -> (n: i128)
        requires
            self.wf(),
            -YEAR_LIMIT < year < YEAR_LIMIT,
        ensures
            n == self.spec_day_number(year as int),
            -crate::civil::DAY_NUMBER_LIMIT < n < crate::civil::DAY_NUMBER_LIMIT,
    {
        days_before_year_wide(year) + self.year_offset(year) as i128
    }

    /// The date that this names in `year`.
    pub fn to_date(&self, year: i64) -> (date: CivilDate)
        requires
            self.wf(),
        ensures
            date.wf(),
            date.year == year,
            date.spec_day_number() == self.spec_day_number(year as int),
    {
        let offset = self.year_offset(year as i128);
        CivilDate::from_year_and_offset(year, offset)
    }
}

impl PosixDayTime {
    /// The wall-clock time that this names in year `y`, in seconds.
    pub open spec fn spec_civil_seconds(self, y: int) -> int {
        self.date.spec_day_number(y) * 86400 + self.time.second
    }

    /// The wall-clock time that this names in `year`, in seconds.
    pub fn to_civil_seconds(&self, year: i128) -> (s: i128)
        requires
            self.date.wf(),
            -YEAR_LIMIT < year < YEAR_LIMIT,
        ensures
            s == self.spec_civil_seconds(year as int),
            -crate::civil::DAY_NUMBER_LIMIT * 100000 < s < crate::civil::DAY_NUMBER_LIMIT * 100000,
    {
        self.date.to_day_number(year) * 86400 + self.time.second as i128
    }
}

impl<ABBREV: Text> PosixTimeZone<ABBREV> {
    /// The zone `sh`, with its offsets turned from seconds west of UTC, as a
    /// POSIX descriptor writes them, into seconds ahead of UTC.
    pub open spec fn spec_from_shared(sh: crate::shared::PosixTimeZone<ABBREV>) -> PosixTimeZone<
        ABBREV,
    > {
        PosixTimeZone {
            std_abbrev: sh.std_abbrev,
            std_offset: (-sh.std_offset.second) as i64,
            dst: match sh.dst {
                None => None,
                Some(dst) => Some(
                    PosixDst {
                        abbrev: dst.abbrev,
                        offset: (-dst.offset.second) as i64,
                        rule: dst.rule,
                    },
                ),
            },
        }
    }

    /// The zone `sh`, with its offsets turned from seconds west of UTC, as a
    /// POSIX descriptor writes them, into seconds ahead of UTC.
    pub fn from_shared(sh: crate::shared::PosixTimeZone<ABBREV>) -> (r: PosixTimeZone<ABBREV>)
        ensures
            r == Self::spec_from_shared(sh),
            r.std_offset == -sh.std_offset.second,
            r.dst is Some ==> r.dst->0.offset == -sh.dst->0.offset.second,
    {
        let dst = match sh.dst {
            None => None,
            Some(dst) => Some(
                PosixDst { abbrev: dst.abbrev, offset: -(dst.offset.second as i64), rule: dst.rule },
            ),
        };
        PosixTimeZone { std_abbrev: sh.std_abbrev, std_offset: -(sh.std_offset.second as i64), dst }
    }

    /// Whether the days of the rule are within what each way of naming a day
    /// allows.
    pub open spec fn wf(&self) -> bool {
        self.dst is Some ==> self.dst->0.rule.start.date.wf() && self.dst->0.rule.end.date.wf()
    }

    /// Whether the days of the rule are within what each way of naming a day
    /// allows.
    pub fn is_valid(&self) -> (r: bool)
        ensures
            r == self.wf(),
    {
        match &self.dst {
            None => true,
            Some(dst) => dst.rule.start.date.is_valid() && dst.rule.end.date.is_valid(),
        }
    }

    /// The offset, in seconds ahead of UTC, of daylight saving time if `dst`
    /// says so, of standard time if not.
    pub open spec fn spec_offset(&self, dst: bool) -> int {
        if dst {
            self.dst->0.offset as int
        } else {
            self.std_offset as int
        }
    }

    /// What the zone says of daylight saving time if `dst` says so, of
    /// standard time if not.
    pub open spec fn spec_info(&self, dst: bool) -> OffsetView {
        if dst {
            OffsetView {
                offset: self.dst->0.offset as int,
                is_dst: true,
                abbreviation: self.dst->0.abbrev.text(),
            }
        } else {
            OffsetView {
                offset: self.std_offset as int,
                is_dst: false,
                abbreviation: self.std_abbrev.text(),
            }
        }
    }

    /// The instant in year `y` at which daylight saving time begins (where
    /// `to_dst` holds) or ends (where it does not), in seconds since
    /// 1970-01-01T00:00:00Z.
    ///
    /// The rule names a wall-clock time. It is read on the clock that shows
    /// until the change: the standard clock where daylight saving time
    /// begins, the daylight saving clock where it ends.
    pub open spec fn spec_at(&self, y: int, to_dst: bool) -> int {
        if to_dst {
            self.dst->0.rule.start.spec_civil_seconds(y) - self.std_offset
        } else {
            self.dst->0.rule.end.spec_civil_seconds(y) - self.dst->0.offset
        }
    }

    /// When the change in year `y` takes effect, on the given clock. On the
    /// wall clock that is the first time that the change disturbs.
    pub open spec fn spec_key(&self, y: int, to_dst: bool, clock: Clock) -> int {
        match clock {
            Clock::Universal => self.spec_at(y, to_dst),
            Clock::Wall => window_start(
                self.spec_at(y, to_dst),
                self.spec_offset(!to_dst),
                self.spec_offset(to_dst),
            ),
        }
    }

    /// When the six changes of year `y`, the year before and the year after
    /// take effect: for each year the beginning of daylight saving time,
    /// then its end.
    pub open spec fn spec_near_keys(&self, y: int, clock: Clock) -> Seq<int> {
        Seq::new(6, |i: int| self.spec_key(y - 1 + i / 2, i % 2 == 0, clock))
    }

    /// What the zone says of the instant `ts`.
    ///
    /// Without daylight saving time, standard time holds. With it, the latest
    /// change at or before `ts` decides, among those of the year in which
    /// `ts` falls in UTC, the year before and the year after: daylight
    /// saving time holds if that change is a beginning. Between two changes
    /// it is their order in time that counts, not which of them the rule
    /// calls the beginning.
    pub open spec fn spec_to_offset(&self, ts: int) -> OffsetView {
        if self.dst is None {
            self.spec_info(false)
        } else {
            let i = latest_at_or_before(
                self.spec_near_keys(year_of(ts / 86400), Clock::Universal),
                ts,
            );
            self.spec_info(i >= 0 && i % 2 == 0)
        }
    }

    /// The offsets that the wall-clock time `civil`, which lies in year `y`,
    /// may stand for.
    ///
    /// The latest change whose first disturbed wall-clock time is at or
    /// before `civil` decides, among those of year `y`, the year before and
    /// the year after. If `civil` is one of the times that it disturbs,
    /// `civil` is in a gap or in a fold. If not, `civil` occurs once, under
    /// the offset that the change brings.
    pub open spec fn spec_to_ambiguous(&self, civil: int, y: int) -> AmbiguousView {
        if self.dst is None {
            AmbiguousView::Unambiguous { offset: self.spec_info(false) }
        } else {
            let i = latest_at_or_before(self.spec_near_keys(y, Clock::Wall), civil);
            if i < 0 {
                AmbiguousView::Unambiguous { offset: self.spec_info(false) }
            } else {
                let to_dst = i % 2 == 0;
                let before = self.spec_offset(!to_dst);
                let after = self.spec_offset(to_dst);
                let at = self.spec_at(y - 1 + i / 2, to_dst);
                if civil < window_end(at, before, after) {
                    if before < after {
                        AmbiguousView::Gap
                    } else {
                        AmbiguousView::Fold {
                            before: self.spec_info(!to_dst),
                            after: self.spec_info(to_dst),
                        }
                    }
                } else {
                    AmbiguousView::Unambiguous { offset: self.spec_info(to_dst) }
                }
            }
        }
    }

    /// It is the order of the changes in time that decides, not which of
    /// them the rule calls the beginning: where change `k` of the six is at or
    /// before `ts`, and every other of the six is after `ts` or before change
    /// `k` (or at the same instant and earlier in the list), daylight saving
    /// time holds at `ts` exactly if change `k` is a beginning.
    pub proof fn lemma_latest_change_decides(&self, ts: int, k: int)
        requires
            self.dst is Some,
            0 <= k < 6,
            ({
                let keys = self.spec_near_keys(year_of(ts / 86400), Clock::Universal);
                &&& keys[k] <= ts
                &&& forall|j: int|
                    0 <= j < 6 && j != k ==> keys[j] > ts || keys[j] < keys[k] || (keys[j]
                        == keys[k] && j < k)
            }),
        ensures
            self.spec_to_offset(ts) == self.spec_info(k % 2 == 0),
    {
        let keys = self.spec_near_keys(year_of(ts / 86400), Clock::Universal);
        crate::tz::search::lemma_latest_is_greatest(keys, ts);
        let found = latest_at_or_before(keys, ts);
        assert(keys[k] <= keys[found]);
        if found != k {
            assert(keys[found] > ts || keys[found] < keys[k] || (keys[found] == keys[k] && found
                < k));
        }
    }

    /// The answer for a wall-clock time fits the change that decides it.
    ///
    /// Take the zone to have that one change only: the offset before it
    /// until the change, the offset after it from then on. Then a
    /// wall-clock time said to occur once is shown at one instant, the one
    /// that it makes up with the offset given; a wall-clock time said to lie
    /// in a fold is shown at two, before the change under the first offset
    /// given and after it under the second; and a wall-clock time said to
    /// lie in a gap is shown at none.
    pub proof fn lemma_answer_fits_the_change(&self, civil: int, y: int)
        requires
            self.dst is Some,
            latest_at_or_before(self.spec_near_keys(y, Clock::Wall), civil) >= 0,
        ensures
            ({
                let i = latest_at_or_before(self.spec_near_keys(y, Clock::Wall), civil);
                let to_dst = i % 2 == 0;
                let at = self.spec_at(y - 1 + i / 2, to_dst);
                let old = self.spec_offset(!to_dst);
                let new = self.spec_offset(to_dst);
                match self.spec_to_ambiguous(civil, y) {
                    AmbiguousView::Unambiguous { offset } => {
                        &&& offset == self.spec_info(to_dst)
                        &&& forall|t: int|
                            wall_clock(at, old, new, t) == civil <==> t == civil - offset.offset
                    },
                    AmbiguousView::Gap => forall|t: int| wall_clock(at, old, new, t) != civil,
                    AmbiguousView::Fold { before, after } => {
                        &&& before == self.spec_info(!to_dst)
                        &&& after == self.spec_info(to_dst)
                        &&& civil - before.offset < at <= civil - after.offset
                        &&& forall|t: int|
                            wall_clock(at, old, new, t) == civil <==> t == civil - before.offset
                                || t == civil - after.offset
                    },
                }
            }),
    {
        let keys = self.spec_near_keys(y, Clock::Wall);
        crate::tz::search::lemma_latest_is_greatest(keys, civil);
        let i = latest_at_or_before(keys, civil);
        assert(keys[i] == self.spec_key(y - 1 + i / 2, i % 2 == 0, Clock::Wall));
    }

    /// Whether the rule is one of the southern half of the world: daylight
    /// saving time begins on a weekday of October and ends on a weekday of
    /// April, and neither change is more than ten days from midnight UTC of
    /// the day that the rule names.
    pub open spec fn southern(&self) -> bool {
        &&& self.wf()
        &&& self.dst is Some
        &&& self.dst->0.rule.start.date matches PosixDay::WeekdayOfMonth { month, .. } && month
            == 10
        &&& self.dst->0.rule.end.date matches PosixDay::WeekdayOfMonth { month, .. } && month == 4
        &&& -864000 <= self.dst->0.rule.start.time.second - self.std_offset <= 864000
        &&& -864000 <= self.dst->0.rule.end.time.second - self.dst->0.offset <= 864000
    }

    /// Under a rule of the southern half of the world, daylight saving time
    /// holds at every instant of January and standard time at every instant
    /// of July: the summer that begins in October of one year reaches into
    /// the next.
    pub proof fn lemma_southern_summer_spans_the_new_year(&self, ts: int, y: int)
        requires
            self.southern(),
        ensures
            in_month(ts, y, 1) ==> self.spec_to_offset(ts) == self.spec_info(true),
            in_month(ts, y, 7) ==> self.spec_to_offset(ts) == self.spec_info(false),
    {
        let day = ts / 86400;
        if in_month(ts, y, 1) || in_month(ts, y, 7) {
            lemma_year_start_step(y - 2);
            lemma_year_start_step(y - 1);
            lemma_year_start_step(y);
            lemma_year_start_step(y + 1);
            assert(in_year(day, y));
            lemma_year_unique(day, y, year_of(day));
            let keys = self.spec_near_keys(y, Clock::Universal);
            let start = self.dst->0.rule.start.date;
            let end = self.dst->0.rule.end.date;
            assert forall|z: int| y - 1 <= z <= y + 1 implies {
                &&& year_start(z) + 273 <= #[trigger] start.spec_day_number(z) <= year_start(z)
                    + 304
                &&& year_start(z) + 90 <= #[trigger] end.spec_day_number(z) <= year_start(z) + 120
            } by {
                lemma_nth_weekday_in_month(
                    z,
                    10,
                    start->WeekdayOfMonth_week as int,
                    start->WeekdayOfMonth_weekday as int,
                    0,
                );
                lemma_nth_weekday_in_month(
                    z,
                    4,
                    end->WeekdayOfMonth_week as int,
                    end->WeekdayOfMonth_weekday as int,
                    0,
                );
            }
            assert(keys[0] == self.spec_at(y - 1, true));
            assert(keys[1] == self.spec_at(y - 1, false));
            assert(keys[2] == self.spec_at(y, true));
            assert(keys[3] == self.spec_at(y, false));
            assert(keys[4] == self.spec_at(y + 1, true));
            assert(keys[5] == self.spec_at(y + 1, false));
            assert(86400 * day <= ts < 86400 * day + 86400);
            if in_month(ts, y, 1) {
                self.lemma_latest_change_decides(ts, 0);
            } else {
                self.lemma_latest_change_decides(ts, 3);
            }
        }
    }

    /// What the zone says of daylight saving time if `dst` says so, of
    /// standard time if not.
    pub fn info<'a>(&'a self, dst: bool) -> (r: OffsetInfo<'a>)
        requires
            dst ==> self.dst is Some,
        ensures
            r@ == self.spec_info(dst),
    {
        match &self.dst {
            Some(d) if dst => OffsetInfo {
                offset: d.offset,
                is_dst: true,
                abbreviation: d.abbrev.as_text(),
            },
            _ => OffsetInfo {
                offset: self.std_offset,
                is_dst: false,
                abbreviation: self.std_abbrev.as_text(),
            },
        }
    }

    /// The instant in `year` at which daylight saving time begins (where
    /// `to_dst` holds) or ends (where it does not).
    pub fn transition_at(&self, year: i128, to_dst: bool) -> (at: i128)
        requires
            self.wf(),
            self.dst is Some,
            -YEAR_LIMIT < year < YEAR_LIMIT,
        ensures
            at == self.spec_at(year as int, to_dst),
            -crate::civil::DAY_NUMBER_LIMIT * 200000 < at < crate::civil::DAY_NUMBER_LIMIT
                * 200000,
    {
        match &self.dst {
            Some(dst) => {
                if to_dst {
                    dst.rule.start.to_civil_seconds(year) - self.std_offset as i128
                } else {
                    dst.rule.end.to_civil_seconds(year) - dst.offset as i128
                }
            },
            None => 0,
        }
    }

    /// When the six changes of `year`, the year before and the year after
    /// take effect, on the given clock.
    pub fn near_keys(&self, year: i128, clock: Clock) -> (keys: [i128; 6])
        requires
            self.wf(),
            self.dst is Some,
            -YEAR_LIMIT + 1 < year < YEAR_LIMIT - 1,
        ensures
            ints_of(keys@) == self.spec_near_keys(year as int, clock),
    {
        let mut keys: [i128; 6] = [0; 6];
        let mut i: usize = 0;
        while i < 6
            invariant
                i <= 6,
                self.wf(),
                self.dst is Some,
                -YEAR_LIMIT + 1 < year < YEAR_LIMIT - 1,
                forall|j: int|
                    0 <= j < i ==> keys@[j] == self.spec_key(year - 1 + j / 2, j % 2 == 0, clock),
            decreases 6 - i,
        {
            let y: i128 = year - 1 + (i / 2) as i128;
            let to_dst = i % 2 == 0;
            let at = self.transition_at(y, to_dst);
            let key = match clock {
                Clock::Universal => at,
                Clock::Wall => {
                    let (std, dst) = match &self.dst {
                        Some(d) => (self.std_offset as i128, d.offset as i128),
                        None => (0, 0),
                    };
                    if std <= dst {
                        at + std
                    } else {
                        at + dst
                    }
                },
            };
            keys[i] = key;
            i += 1;
        }
        proof {
            assert(ints_of(keys@) =~= self.spec_near_keys(year as int, clock));
        }
        keys
    }

    /// What the zone says of the instant `timestamp`, in seconds since
    /// 1970-01-01T00:00:00Z.
    pub fn to_offset<'a>(&'a self, timestamp: i64) -> (r: OffsetInfo<'a>)
        requires
            self.wf(),
        ensures
            r@ == self.spec_to_offset(timestamp as int),
    {
        if self.dst.is_none() {
            return self.info(false);
        }
        let lifted: i128 = timestamp as i128 + 86400 * 200_000_000_000_000;
        let day: i128 = lifted / 86400 - 200_000_000_000_000;
        let (year, _) = crate::civil::year_and_offset_of_day(day as i64);
        let keys = self.near_keys(year as i128, Clock::Universal);
        match find_in_keys(&keys, timestamp as i128) {
            Some(i) => self.info(i % 2 == 0),
            None => self.info(false),
        }
    }

    /// The offsets that the wall-clock time of `civil` seconds, which lies
    /// in `year`, may stand for.
    pub fn to_ambiguous_at<'a>(&'a self, civil: i128, year: i64) -> (r: AmbiguousOffset<'a>)
        requires
            self.wf(),
            -crate::civil::DAY_NUMBER_LIMIT * 100000 < civil < crate::civil::DAY_NUMBER_LIMIT
                * 100000,
        ensures
            r@ == self.spec_to_ambiguous(civil as int, year as int),
    {
        if self.dst.is_none() {
            return AmbiguousOffset::Unambiguous { offset: self.info(false) };
        }
        let keys = self.near_keys(year as i128, Clock::Wall);
        match find_in_keys(&keys, civil) {
            None => AmbiguousOffset::Unambiguous { offset: self.info(false) },
            Some(i) => {
                let to_dst = i % 2 == 0;
                let at = self.transition_at(year as i128 - 1 + (i / 2) as i128, to_dst);
                let before = self.info(!to_dst);
                let after = self.info(to_dst);
                let end = if before.offset <= after.offset {
                    at + after.offset as i128
                } else {
                    at + before.offset as i128
                };
                if civil < end {
                    if before.offset < after.offset {
                        AmbiguousOffset::Gap
                    } else {
                        AmbiguousOffset::Fold { before, after }
                    }
                } else {
                    AmbiguousOffset::Unambiguous { offset: after }
                }
            },
        }
    }

    /// The offsets that the wall-clock time `dt` may stand for.
    pub fn to_ambiguous_kind<'a>(&'a self, dt: CivilDateTime) -> (r: AmbiguousOffset<'a>)
        requires
            self.wf(),
            dt.wf(),
        ensures
            r@ == self.spec_to_ambiguous(dt.spec_seconds(), dt.year as int),
    {
        self.to_ambiguous_at(dt.to_seconds(), dt.year)
    }
}

} // verus!
