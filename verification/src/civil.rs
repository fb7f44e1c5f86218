//! Calendar arithmetic on the proleptic Gregorian calendar.
//!
//! Days are counted from 1970-01-01, which is day 0. Every function here is
//! total on the integers it accepts: years before 1 and after 9999 are
//! ordinary years.
use vstd::arithmetic::div_mod::*;
use vstd::prelude::*;

verus! {

/// The number of seconds in a civil day.
pub const SECONDS_PER_DAY: i128 = 86400;

/// Day numbers up to this size, either side of zero, are accepted wherever a
/// day number is taken as a 128-bit integer. Every date with a 64-bit year
/// lies well within it.
pub const DAY_NUMBER_LIMIT: i128 = 10_000_000_000_000_000_000_000;

/// Years up to this size, either side of zero, are accepted wherever a year
/// is taken as a 128-bit integer. Every 64-bit year lies within it, and so
/// does the year before and the year after. It is a multiple of 400.
pub const YEAR_LIMIT: i128 = 10_000_000_000_000_000_000;

/// The days in `YEAR_LIMIT` years.
const YEAR_LIFT_DAYS: i128 = 3_652_425_000_000_000_000_000;

/// A multiple of 400-year cycles, in days, that lifts every 64-bit day number
/// above zero.
const DAY_LIFT: i128 = 14_609_700_000_000_000_000;

/// The years in `DAY_LIFT` days.
const DAY_LIFT_YEARS: i128 = 40_000_000_000_000_000;

/// The days from 0001-01-01 to 1970-01-01.
const EPOCH_SHIFT: i128 = 719162;

/// Whether year `y` has a 29th of February.
#[verifier::opaque]
pub open spec fn is_leap(y: int) -> bool {
    y % 4 == 0 && (y % 100 != 0 || y % 400 == 0)
}

/// The number of days in year `y`.
pub open spec fn year_len(y: int) -> int {
    if is_leap(y) {
        366
    } else {
        365
    }
}

/// The number of days in month `m` (1 to 12) of a year that is a leap year or
/// not, as `leap` says.
pub open spec fn month_len_in(leap: bool, m: int) -> int {
    if m == 2 {
        if leap {
            29
        } else {
            28
        }
    } else if m == 4 || m == 6 || m == 9 || m == 11 {
        30
    } else {
        31
    }
}

/// The number of days in month `m` (1 to 12) of year `y`.
pub open spec fn month_len(y: int, m: int) -> int {
    month_len_in(is_leap(y), m)
}

/// The number of days that lie before the first of month `m` in a year that
/// is a leap year or not, as `leap` says. Month 13 stands for the January
/// after: its value is the year's length.
pub open spec fn days_before_month_in(leap: bool, m: int) -> int {
    let base: int = if m <= 1 {
        0
    } else if m == 2 {
        31
    } else if m == 3 {
        59
    } else if m == 4 {
        90
    } else if m == 5 {
        120
    } else if m == 6 {
        151
    } else if m == 7 {
        181
    } else if m == 8 {
        212
    } else if m == 9 {
        243
    } else if m == 10 {
        273
    } else if m == 11 {
        304
    } else if m == 12 {
        334
    } else {
        365
    };
    if m > 2 && leap {
        base + 1
    } else {
        base
    }
}

/// The number of days of year `y` that lie before the first of month `m`.
pub open spec fn days_before_month(y: int, m: int) -> int {
    days_before_month_in(is_leap(y), m)
}

/// The day number of the first of January of year `y`.
#[verifier::opaque]
pub open spec fn year_start(y: int) -> int {
    365 * (y - 1970) + (y - 1) / 4 - (y - 1) / 100 + (y - 1) / 400 - 477
}

/// The day number of the given date.
pub open spec fn day_number(y: int, m: int, d: int) -> int {
    year_start(y) + days_before_month(y, m) + d - 1
}

/// The day of the week of a day number: 0 is Sunday, 6 is Saturday.
#[verifier::opaque]
pub open spec fn weekday_of(n: int) -> int {
    (n + 4) % 7
}

/// Whether day `n` falls in year `y`.
pub open spec fn in_year(n: int, y: int) -> bool {
    year_start(y) <= n < year_start(y + 1)
}

/// The year in which day `n` falls.
pub open spec fn year_of(n: int) -> int {
    choose|y: int| in_year(n, y)
}

/// The years follow one another without a gap, each as long as the leap rule
/// says, and 1970 begins on day 0.
pub proof fn lemma_year_start_step(y: int)
    ensures
        year_start(y + 1) == year_start(y) + year_len(y),
        year_start(1970) == 0,
{
    reveal(year_start);
    reveal(is_leap);
    lemma_div_step(y, 4);
    lemma_div_step(y, 100);
    lemma_div_step(y, 400);
    assert(y % 400 == 0 ==> y % 100 == 0) by {
        if y % 400 == 0 {
            lemma_fundamental_div_mod(y, 400);
            lemma_fundamental_div_mod_converse(y, 100, 4 * (y / 400), 0);
        }
    }
    assert(y % 100 == 0 ==> y % 4 == 0) by {
        if y % 100 == 0 {
            lemma_fundamental_div_mod(y, 100);
            lemma_fundamental_div_mod_converse(y, 4, 25 * (y / 100), 0);
        }
    }
}

/// A quotient goes up by one exactly at the multiples of the divisor.
proof fn lemma_div_step(y: int, d: int)
    requires
        d > 1,
    ensures
        y / d - (y - 1) / d == if y % d == 0 {
            1int
        } else {
            0int
        },
{
    let q = (y - 1) / d;
    let r = (y - 1) % d;
    lemma_fundamental_div_mod(y - 1, d);
    assert(d * q == q * d) by (nonlinear_arith);
    if r == d - 1 {
        assert((q + 1) * d == q * d + d) by (nonlinear_arith);
        lemma_fundamental_div_mod_converse(y, d, q + 1, 0);
    } else {
        lemma_fundamental_div_mod_converse(y, d, q, r + 1);
    }
}

/// The months of a year follow one another without a gap, and together they
/// fill the year.
pub proof fn lemma_days_before_month_step(y: int, m: int)
    requires
        1 <= m <= 12,
    ensures
        days_before_month(y, m + 1) == days_before_month(y, m) + month_len(y, m),
        days_before_month(y, 1) == 0,
        days_before_month(y, 13) == year_len(y),
{
}

/// Later years begin later.
pub proof fn lemma_year_start_monotone(a: int, b: int)
    requires
        a <= b,
    ensures
        year_start(a) + 365 * (b - a) <= year_start(b),
    decreases b - a,
{
    if a < b {
        lemma_year_start_monotone(a, b - 1);
        lemma_year_start_step(b - 1);
    }
}

/// A day lies in one year only.
pub proof fn lemma_year_unique(n: int, a: int, b: int)
    requires
        year_start(a) <= n < year_start(a + 1),
        year_start(b) <= n < year_start(b + 1),
    ensures
        a == b,
{
    if a < b {
        lemma_year_start_monotone(a + 1, b);
    }
    if b < a {
        lemma_year_start_monotone(b + 1, a);
    }
}

/// The days in the first `n` years of the calendar, counted from year 1.
pub open spec fn days_in_years(n: int) -> int {
    365 * n + n / 4 - n / 100 + n / 400
}

/// The calendar repeats every 400 years, which hold 146097 days.
proof fn lemma_cycle_shift(n: int, k: int)
    ensures
        days_in_years(n + 400 * k) == days_in_years(n) + 146097 * k,
        is_leap(n + 400 * k) == is_leap(n),
        year_start(n) == days_in_years(n - 1) - 719162,
{
    reveal(year_start);
    reveal(is_leap);
    lemma_hoist_over_denominator(n, 100 * k, 4);
    lemma_hoist_over_denominator(n, 4 * k, 100);
    lemma_hoist_over_denominator(n, k, 400);
    lemma_mod_multiples_vanish(100 * k, n, 4);
    lemma_mod_multiples_vanish(4 * k, n, 100);
    lemma_mod_multiples_vanish(k, n, 400);
    assert(n + 400 * k == 4 * (100 * k) + n);
    assert(n + 400 * k == 100 * (4 * k) + n);
    assert(n + 400 * k == 400 * k + n);
}

/// The days in a span of years, split into 400-year cycles, centuries, groups
/// of four years and single years.
proof fn lemma_days_in_years_split(a: int, b: int, c: int, d: int)
    requires
        0 <= b <= 3,
        0 <= c <= 24,
        0 <= d <= 3,
    ensures
        days_in_years(400 * a + 100 * b + 4 * c + d) == 146097 * a + 36524 * b + 1461 * c + 365
            * d,
{
    let n = 400 * a + 100 * b + 4 * c + d;
    lemma_fundamental_div_mod_converse(n, 4, 100 * a + 25 * b + c, d);
    lemma_fundamental_div_mod_converse(n, 100, 4 * a + b, 4 * c + d);
    lemma_fundamental_div_mod_converse(n, 400, a, 100 * b + 4 * c + d);
}

/// A calendar date.
#[derive(Clone, Copy, Debug, PartialEq, Eq, Structural)]
pub struct CivilDate {
    pub year: i64,
    pub month: u8,
    pub day: u8,
}

/// A wall-clock date and time, not tied to any offset from UTC.
#[derive(Clone, Copy, Debug, PartialEq, Eq, Structural)]
pub struct CivilDateTime {
    pub year: i64,
    pub month: u8,
    pub day: u8,
    pub hour: u8,
    pub minute: u8,
    pub second: u8,
}

/// Whether `year` has a 29th of February.
pub fn is_leap_year(year: i64) -> (r: bool)
    ensures
        r == is_leap(year as int),
{
    is_leap_year_wide(year as i128)
}

/// Whether `year` has a 29th of February, for a year given as a 128-bit
/// integer.
pub fn is_leap_year_wide(year: i128) -> (r: bool)
    requires
        -YEAR_LIMIT < year < YEAR_LIMIT,
    ensures
        r == is_leap(year as int),
{
    let y: i128 = year + YEAR_LIMIT;
    proof {
        lemma_cycle_shift(year as int, 25_000_000_000_000_000);
        reveal(is_leap);
    }
    y % 4 == 0 && (y % 100 != 0 || y % 400 == 0)
}

/// The number of days in the given month.
pub fn days_in_month(year: i64, month: u8) -> (r: u8)
    requires
        1 <= month <= 12,
    ensures
        r == month_len(year as int, month as int),
{
    month_length(is_leap_year(year), month)
}

/// The number of days in the given month of a year that is a leap year or
/// not, as `leap` says.
pub fn month_length(leap: bool, month: u8) -> (r: u8)
    requires
        1 <= month <= 12,
    ensures
        r == month_len_in(leap, month as int),
        28 <= r <= 31,
{
    if month == 2 {
        if leap {
            29
        } else {
            28
        }
    } else if month == 4 || month == 6 || month == 9 || month == 11 {
        30
    } else {
        31
    }
}

/// The days of the year that lie before the first of the given month.
pub fn month_offset(leap: bool, month: u8) -> (r: i128)
    requires
        1 <= month <= 13,
    ensures
        r == days_before_month_in(leap, month as int),
        0 <= r <= 366,
{
    let base: i128 = if month == 1 {
        0
    } else if month == 2 {
        31
    } else if month == 3 {
        59
    } else if month == 4 {
        90
    } else if month == 5 {
        120
    } else if month == 6 {
        151
    } else if month == 7 {
        181
    } else if month == 8 {
        212
    } else if month == 9 {
        243
    } else if month == 10 {
        273
    } else if month == 11 {
        304
    } else if month == 12 {
        334
    } else {
        365
    };
    if month > 2 && leap {
        base + 1
    } else {
        base
    }
}

/// The day number of the first of January of `year`.
pub fn days_before_year(year: i64) -> (n: i128)
    ensures
        n == year_start(year as int),
        -DAY_NUMBER_LIMIT + 1000 < n < DAY_NUMBER_LIMIT - 1000,
{
    days_before_year_wide(year as i128)
}

/// The day number of the first of January of `year`, for a year given as a
/// 128-bit integer.
pub fn days_before_year_wide(year: i128) -> (n: i128)
    requires
        -YEAR_LIMIT < year < YEAR_LIMIT,
    ensures
        n == year_start(year as int),
        -DAY_NUMBER_LIMIT + 1000 < n < DAY_NUMBER_LIMIT - 1000,
{
    let y: i128 = year + YEAR_LIMIT - 1;
    let lifted: i128 = 365 * y + y / 4 - y / 100 + y / 400;
    proof {
        lemma_cycle_shift(year - 1, 25_000_000_000_000_000);
        lemma_cycle_shift(year as int, 0);
        assert(lifted == days_in_years(y as int));
    }
    lifted - YEAR_LIFT_DAYS - EPOCH_SHIFT
}

/// The day of the week of a day number: 0 is Sunday, 6 is Saturday.
pub fn weekday_of_day(n: i128) -> (w: u8)
    requires
        -DAY_NUMBER_LIMIT <= n <= DAY_NUMBER_LIMIT,
    ensures
        w == weekday_of(n as int),
        w <= 6,
{
    let lifted: i128 = n + 4 + 7 * DAY_NUMBER_LIMIT;
    proof {
        reveal(weekday_of);
        lemma_mod_multiples_vanish(DAY_NUMBER_LIMIT as int, n + 4, 7);
    }
    (lifted % 7) as u8
}

/// The year of a day number, and how many days of that year lie before it.
pub fn year_and_offset_of_day(n: i64) -> (r: (i64, u16))
    ensures
        year_start(r.0 as int) <= n < year_start(r.0 + 1),
        r.1 == n - year_start(r.0 as int),
        r.0 == year_of(n as int),
        -30_000_000_000_000_000 < r.0 < 30_000_000_000_000_000,
{
    let lifted: i128 = n as i128 + EPOCH_SHIFT + DAY_LIFT;
    let cycles: i128 = lifted / 146097;
    let in_cycle: i128 = lifted % 146097;
    let mut centuries: i128 = in_cycle / 36524;
    if centuries > 3 {
        centuries = 3;
    }
    let in_century: i128 = in_cycle - 36524 * centuries;
    let quads: i128 = in_century / 1461;
    let in_quad: i128 = in_century % 1461;
    let mut singles: i128 = in_quad / 365;
    if singles > 3 {
        singles = 3;
    }
    let offset: i128 = in_quad - 365 * singles;
    let elapsed: i128 = 400 * cycles + 100 * centuries + 4 * quads + singles;
    let year: i128 = elapsed + 1 - DAY_LIFT_YEARS;
    proof {
        assert(0 <= in_century <= 36524);
        assert(0 <= quads <= 24);
        assert(0 <= offset <= 365);
        lemma_days_in_years_split(cycles as int, centuries as int, quads as int, singles as int);
        assert(days_in_years(elapsed as int) == lifted - offset);
        lemma_cycle_shift(elapsed as int, -100_000_000_000_000);
        lemma_cycle_shift(year as int, 0);
        assert(year_start(year as int) == n - offset);
        lemma_year_start_step(year as int);
        if offset == 365 {
            assert(singles == 3 && in_quad == 1460);
            lemma_cycle_shift(elapsed + 1, -100_000_000_000_000);
            if quads == 24 {
                assert(centuries == 3);
                lemma_fundamental_div_mod_converse(elapsed + 1, 400, cycles + 1, 0);
                lemma_fundamental_div_mod_converse(elapsed + 1, 4, 100 * cycles + 100, 0);
            } else {
                lemma_fundamental_div_mod_converse(
                    elapsed + 1,
                    100,
                    4 * cycles + centuries,
                    4 * quads + 4,
                );
                lemma_fundamental_div_mod_converse(
                    elapsed + 1,
                    4,
                    100 * cycles + 25 * centuries + quads + 1,
                    0,
                );
            }
            assert(is_leap(elapsed + 1)) by {
                reveal(is_leap);
            }
        }
        assert(offset < year_len(year as int));
        assert(in_year(n as int, year as int));
        lemma_year_unique(n as int, year as int, year_of(n as int));
    }
    (year as i64, offset as u16)
}

impl CivilDate {
    /// Whether the fields name a day of the calendar.
    pub open spec fn wf(self) -> bool {
        &&& 1 <= self.month <= 12
        &&& 1 <= self.day <= month_len(self.year as int, self.month as int)
    }

    /// The day number of this date.
    pub open spec fn spec_day_number(self) -> int {
        day_number(self.year as int, self.month as int, self.day as int)
    }

    /// Whether the fields name a day of the calendar.
    pub fn is_valid(&self) -> (r: bool)
        ensures
            r == self.wf(),
    {
        1 <= self.month && self.month <= 12 && 1 <= self.day && self.day <= days_in_month(
            self.year,
            self.month,
        )
    }

    /// The day number of this date.
    pub fn to_day_number(&self) -> (n: i128)
        requires
            self.wf(),
        ensures
            n == self.spec_day_number(),
    {
        let leap = is_leap_year(self.year);
        days_before_year(self.year) + month_offset(leap, self.month) + (self.day as i128) - 1
    }

    /// The date in `year` that has `offset` days of the year before it.
    pub fn from_year_and_offset(year: i64, offset: u16) -> (r: CivilDate)
        requires
            offset < year_len(year as int),
        ensures
            r.wf(),
            r.year == year,
            days_before_month(year as int, r.month as int) + r.day - 1 == offset,
    {
        let leap = is_leap_year(year);
        let rest: i128 = offset as i128;
        let mut month: u8 = 12;
        while month > 1 && month_offset(leap, month) > rest
            invariant
                1 <= month <= 12,
                0 <= rest < 366,
                rest < days_before_month_in(leap, month + 1),
            decreases month,
        {
            month -= 1;
        }
        let before = month_offset(leap, month);
        CivilDate { year, month, day: (rest - before + 1) as u8 }
    }

    /// The date of a day number.
    pub fn from_day_number(n: i64) -> (r: CivilDate)
        ensures
            r.wf(),
            r.spec_day_number() == n,
    {
        let (year, offset) = year_and_offset_of_day(n);
        proof {
            lemma_year_start_step(year as int);
        }
        CivilDate::from_year_and_offset(year, offset)
    }

    /// The day of the week: 0 is Sunday, 6 is Saturday.
    pub fn weekday(&self) -> (w: u8)
        requires
            self.wf(),
        ensures
            w == weekday_of(self.spec_day_number()),
            w <= 6,
    {
        let n = self.to_day_number();
        proof {
            lemma_day_number_bounds(self.year as int, self.month as int, self.day as int);
        }
        weekday_of_day(n)
    }
}

/// A rough bound on the day number of a date with a 64-bit year.
pub proof fn lemma_day_number_bounds(y: int, m: int, d: int)
    requires
        i64::MIN <= y <= i64::MAX,
        1 <= m <= 13,
        0 <= d <= 255,
    ensures
        -3_400_000_000_000_000_000_000 < day_number(y, m, d) < 3_400_000_000_000_000_000_000,
{
    reveal(year_start);
}

/// Two dates with the same day number are the same date.
pub proof fn lemma_day_number_unique(a: CivilDate, b: CivilDate)
    requires
        a.wf(),
        b.wf(),
        a.spec_day_number() == b.spec_day_number(),
    ensures
        a == b,
{
    let n = a.spec_day_number();
    lemma_year_start_step(a.year as int);
    lemma_year_start_step(b.year as int);
    lemma_year_unique(n, a.year as int, b.year as int);
}

impl CivilDateTime {
    /// The value with every field zero. It names no instant: it fills a field
    /// that has nothing to say.
    pub open spec fn spec_zero() -> CivilDateTime {
        CivilDateTime { year: 0, month: 0, day: 0, hour: 0, minute: 0, second: 0 }
    }

    /// Whether the fields name a second of the calendar.
    pub open spec fn wf(self) -> bool {
        &&& self.date().wf()
        &&& self.hour < 24
        &&& self.minute < 60
        &&& self.second < 60
    }

    /// The date part.
    pub open spec fn date(self) -> CivilDate {
        CivilDate { year: self.year, month: self.month, day: self.day }
    }

    /// The seconds on the wall clock from 1970-01-01T00:00:00 to this value.
    pub open spec fn spec_seconds(self) -> int {
        self.date().spec_day_number() * 86400 + self.hour * 3600 + self.minute * 60 + self.second
    }

    /// The value with every field zero.
    pub fn zero() -> (r: CivilDateTime)
        ensures
            r == Self::spec_zero(),
    {
        CivilDateTime { year: 0, month: 0, day: 0, hour: 0, minute: 0, second: 0 }
    }

    /// Whether the fields name a second of the calendar.
    pub fn is_valid(&self) -> (r: bool)
        ensures
            r == self.wf(),
    {
        let date = CivilDate { year: self.year, month: self.month, day: self.day };
        date.is_valid() && self.hour < 24 && self.minute < 60 && self.second < 60
    }

    /// The seconds on the wall clock from 1970-01-01T00:00:00 to this value.
    pub fn to_seconds(&self) -> (s: i128)
        requires
            self.wf(),
        ensures
            s == self.spec_seconds(),
            -300_000_000_000_000_000_000_000_000 < s < 300_000_000_000_000_000_000_000_000,
    {
        let date = CivilDate { year: self.year, month: self.month, day: self.day };
        let n = date.to_day_number();
        proof {
            lemma_day_number_bounds(self.year as int, self.month as int, self.day as int);
        }
        n * SECONDS_PER_DAY + (self.hour as i128) * 3600 + (self.minute as i128) * 60 + (
        self.second as i128)
    }

    /// What the wall clock shows at the instant `timestamp` (seconds since
    /// 1970-01-01T00:00:00Z) where local time is `offset` seconds ahead of UTC.
    pub fn from_timestamp(timestamp: i64, offset: i64) -> (r: CivilDateTime)
        ensures
            r.wf(),
            r.spec_seconds() == timestamp + offset,
    {
        let local: i128 = timestamp as i128 + offset as i128;
        let lift: i128 = 86400 * 300_000_000_000_000;
        let lifted: i128 = local + lift;
        let day: i128 = lifted / 86400 - 300_000_000_000_000;
        let rest: i128 = lifted % 86400;
        let date = CivilDate::from_day_number(day as i64);
        let hour: i128 = rest / 3600;
        let minute: i128 = (rest % 3600) / 60;
        let second: i128 = rest % 60;
        CivilDateTime {
            year: date.year,
            month: date.month,
            day: date.day,
            hour: hour as u8,
            minute: minute as u8,
            second: second as u8,
        }
    }
}

/// Two wall-clock values with the same count of seconds are the same value.
pub proof fn lemma_seconds_unique(a: CivilDateTime, b: CivilDateTime)
    requires
        a.wf(),
        b.wf(),
        a.spec_seconds() == b.spec_seconds(),
    ensures
        a == b,
{
    let ta = a.hour * 3600 + a.minute * 60 + a.second;
    let tb = b.hour * 3600 + b.minute * 60 + b.second;
    assert(0 <= ta < 86400 && 0 <= tb < 86400);
    assert(a.date().spec_day_number() == b.date().spec_day_number());
    lemma_day_number_unique(a.date(), b.date());
}

} // verus!
