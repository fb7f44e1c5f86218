use jiff_tz::civil::{CivilDate, CivilDateTime};
use jiff_tz::shared::{
    PosixDay, PosixDayTime, PosixDst, PosixOffset, PosixRule, PosixTime, PosixTimeZone,
};
use jiff_tz::tz::offset::{AmbiguousOffset, OffsetInfo};
use jiff_tz::tz::posix;
use jiff_tz::tz::search::Clock;

fn date(year: i64, month: u8, day: u8) -> CivilDate {
    CivilDate { year, month, day }
}

fn datetime(year: i64, month: u8, day: u8, hour: u8, minute: u8, second: u8) -> CivilDateTime {
    CivilDateTime { year, month, day, hour, minute, second }
}

fn weekday_of_month(month: i8, week: i8, weekday: i8, second: i32) -> PosixDayTime {
    PosixDayTime {
        date: PosixDay::WeekdayOfMonth { month, week, weekday },
        time: PosixTime { second },
    }
}

fn zone(
    std: (&'static str, i32),
    dst: Option<(&'static str, i32, PosixDayTime, PosixDayTime)>,
) -> posix::PosixTimeZone<&'static str> {
    PosixTimeZone {
        std_abbrev: std.0,
        std_offset: PosixOffset { second: std.1 },
        dst: dst.map(|(abbrev, second, start, end)| PosixDst {
            abbrev,
            offset: PosixOffset { second },
            rule: PosixRule { start, end },
        }),
    }
    .into_jiff()
}

/// EST5EDT,M3.2.0,M11.1.0
fn new_york() -> posix::PosixTimeZone<&'static str> {
    zone(
        ("EST", 18000),
        Some(("EDT", 14400, weekday_of_month(3, 2, 0, 7200), weekday_of_month(11, 1, 0, 7200))),
    )
}

/// AEST-10AEDT,M10.1.0,M4.1.0/3
fn sydney() -> posix::PosixTimeZone<&'static str> {
    zone(
        ("AEST", -36000),
        Some(("AEDT", -39600, weekday_of_month(10, 1, 0, 7200), weekday_of_month(4, 1, 0, 10800))),
    )
}

/// IST-1GMT0,M10.5.0,M3.5.0/1
fn dublin() -> posix::PosixTimeZone<&'static str> {
    zone(
        ("IST", -3600),
        Some(("GMT", 0, weekday_of_month(10, 5, 0, 7200), weekday_of_month(3, 5, 0, 3600))),
    )
}

const EST: OffsetInfo<'static> = OffsetInfo { offset: -18000, is_dst: false, abbreviation: "EST" };
const EDT: OffsetInfo<'static> = OffsetInfo { offset: -14400, is_dst: true, abbreviation: "EDT" };
const AEST: OffsetInfo<'static> = OffsetInfo { offset: 36000, is_dst: false, abbreviation: "AEST" };
const AEDT: OffsetInfo<'static> = OffsetInfo { offset: 39600, is_dst: true, abbreviation: "AEDT" };
const IST: OffsetInfo<'static> = OffsetInfo { offset: 3600, is_dst: false, abbreviation: "IST" };
const GMT: OffsetInfo<'static> = OffsetInfo { offset: 0, is_dst: true, abbreviation: "GMT" };

fn once(offset: OffsetInfo<'static>) -> AmbiguousOffset<'static> {
    AmbiguousOffset::Unambiguous { offset }
}

#[test]
fn offsets_are_turned_to_seconds_ahead_of_utc() {
    let tz = new_york();
    assert_eq!(tz.std_abbrev, "EST");
    assert_eq!(tz.std_offset, -18000);
    let dst = tz.dst.unwrap();
    assert_eq!(dst.abbrev, "EDT");
    assert_eq!(dst.offset, -14400);
    assert_eq!(dst.rule.start, weekday_of_month(3, 2, 0, 7200));
    assert_eq!(dst.rule.end, weekday_of_month(11, 1, 0, 7200));
}

#[test]
fn the_most_western_offset_is_turned_too() {
    let tz = zone(("X", i32::MIN), None);
    assert_eq!(tz.std_offset, 2147483648);
    let tz = zone(("X", i32::MAX), None);
    assert_eq!(tz.std_offset, -2147483647);
}

#[test]
fn the_last_sunday_of_march_is_the_fourth_where_there_are_four() {
    let day = PosixDay::WeekdayOfMonth { month: 3, week: 5, weekday: 0 };
    assert_eq!(day.to_date(2017), date(2017, 3, 26));
    let fourth = PosixDay::WeekdayOfMonth { month: 3, week: 4, weekday: 0 };
    assert_eq!(fourth.to_date(2017), date(2017, 3, 26));
}

#[test]
fn the_last_sunday_of_march_is_the_fifth_where_there_are_five() {
    let day = PosixDay::WeekdayOfMonth { month: 3, week: 5, weekday: 0 };
    assert_eq!(day.to_date(2019), date(2019, 3, 31));
    assert_eq!(day.to_date(2015), date(2015, 3, 29));
    let fourth = PosixDay::WeekdayOfMonth { month: 3, week: 4, weekday: 0 };
    assert_eq!(fourth.to_date(2019), date(2019, 3, 24));
}

#[test]
fn weekdays_of_a_month_are_counted_from_its_first_day() {
    // March 2015 begins on a Sunday.
    let first_sunday = PosixDay::WeekdayOfMonth { month: 3, week: 1, weekday: 0 };
    assert_eq!(first_sunday.to_date(2015), date(2015, 3, 1));
    let first_saturday = PosixDay::WeekdayOfMonth { month: 3, week: 1, weekday: 6 };
    assert_eq!(first_saturday.to_date(2015), date(2015, 3, 7));
    let second_sunday = PosixDay::WeekdayOfMonth { month: 3, week: 2, weekday: 0 };
    assert_eq!(second_sunday.to_date(2015), date(2015, 3, 8));
    let last_monday_of_february = PosixDay::WeekdayOfMonth { month: 2, week: 5, weekday: 1 };
    assert_eq!(last_monday_of_february.to_date(2016), date(2016, 2, 29));
    assert_eq!(last_monday_of_february.to_date(2015), date(2015, 2, 23));
}

#[test]
fn every_weekday_rule_names_a_day_of_its_month_on_its_weekday() {
    for year in [1899i64, 1900, 2000, 2015, 2016, 2023, 2024] {
        for month in 1..=12i8 {
            for week in 1..=5i8 {
                for weekday in 0..=6i8 {
                    let d = PosixDay::WeekdayOfMonth { month, week, weekday }.to_date(year);
                    assert!(d.is_valid());
                    assert_eq!((d.year, d.month), (year, month as u8));
                    assert_eq!(d.weekday(), weekday as u8);
                    if week < 5 {
                        assert!(7 * (week as u8 - 1) < d.day && d.day <= 7 * week as u8);
                    } else {
                        let next = CivilDate::from_day_number(d.to_day_number() as i64 + 7);
                        assert_ne!(next.month, d.month);
                    }
                }
            }
        }
    }
}

#[test]
fn days_counted_from_one_skip_the_leap_day() {
    assert_eq!(PosixDay::JulianOne(1).to_date(2016), date(2016, 1, 1));
    assert_eq!(PosixDay::JulianOne(59).to_date(2016), date(2016, 2, 28));
    assert_eq!(PosixDay::JulianOne(60).to_date(2016), date(2016, 3, 1));
    assert_eq!(PosixDay::JulianOne(60).to_date(2015), date(2015, 3, 1));
    assert_eq!(PosixDay::JulianOne(365).to_date(2016), date(2016, 12, 31));
    assert_eq!(PosixDay::JulianOne(365).to_date(2015), date(2015, 12, 31));
}

#[test]
fn days_counted_from_zero_count_the_leap_day() {
    assert_eq!(PosixDay::JulianZero(0).to_date(2016), date(2016, 1, 1));
    assert_eq!(PosixDay::JulianZero(59).to_date(2016), date(2016, 2, 29));
    assert_eq!(PosixDay::JulianZero(59).to_date(2015), date(2015, 3, 1));
    assert_eq!(PosixDay::JulianZero(60).to_date(2016), date(2016, 3, 1));
    assert_eq!(PosixDay::JulianZero(365).to_date(2016), date(2016, 12, 31));
    assert_eq!(PosixDay::JulianZero(364).to_date(2015), date(2015, 12, 31));
}

#[test]
fn day_365_from_zero_is_the_last_day_of_a_short_year() {
    assert_eq!(PosixDay::JulianZero(365).to_date(2015), date(2015, 12, 31));
    assert_eq!(PosixDay::JulianZero(365).year_offset(2015), 364);
}

#[test]
fn rule_days_are_checked() {
    assert!(PosixDay::JulianOne(1).is_valid());
    assert!(PosixDay::JulianOne(365).is_valid());
    assert!(!PosixDay::JulianOne(0).is_valid());
    assert!(!PosixDay::JulianOne(366).is_valid());
    assert!(PosixDay::JulianZero(0).is_valid());
    assert!(PosixDay::JulianZero(365).is_valid());
    assert!(!PosixDay::JulianZero(-1).is_valid());
    assert!(!PosixDay::JulianZero(366).is_valid());
    assert!(PosixDay::WeekdayOfMonth { month: 12, week: 5, weekday: 6 }.is_valid());
    assert!(!PosixDay::WeekdayOfMonth { month: 13, week: 5, weekday: 6 }.is_valid());
    assert!(!PosixDay::WeekdayOfMonth { month: 0, week: 5, weekday: 6 }.is_valid());
    assert!(!PosixDay::WeekdayOfMonth { month: 1, week: 6, weekday: 6 }.is_valid());
    assert!(!PosixDay::WeekdayOfMonth { month: 1, week: 0, weekday: 6 }.is_valid());
    assert!(!PosixDay::WeekdayOfMonth { month: 1, week: 1, weekday: 7 }.is_valid());
    assert!(!PosixDay::WeekdayOfMonth { month: 1, week: 1, weekday: -1 }.is_valid());
    assert!(new_york().is_valid());
    let bad = zone(
        ("A", 0),
        Some(("B", -3600, weekday_of_month(3, 2, 0, 0), weekday_of_month(11, 1, 9, 0))),
    );
    assert!(!bad.is_valid());
}

#[test]
fn rule_times_may_be_negative_or_reach_past_the_day() {
    let before_midnight = PosixDayTime { date: PosixDay::JulianZero(0), time: PosixTime { second: -3600 } };
    assert_eq!(before_midnight.to_civil_seconds(1970), -3600);
    let next_day = PosixDayTime { date: PosixDay::JulianOne(1), time: PosixTime { second: 90000 } };
    assert_eq!(next_day.to_civil_seconds(1970), 90000);
    assert_eq!(next_day.to_civil_seconds(1971), 365 * 86400 + 90000);
}

#[test]
fn the_changes_of_a_year_are_at_known_instants() {
    let tz = new_york();
    assert_eq!(tz.transition_at(2015, true), 1425798000);
    assert_eq!(tz.transition_at(2015, false), 1446357600);
    assert_eq!(tz.transition_at(2016, true), 1457852400);
    assert_eq!(tz.transition_at(2016, false), 1478412000);
    assert_eq!(
        tz.near_keys(2015, Clock::Universal),
        [1394348400, 1414908000, 1425798000, 1446357600, 1457852400, 1478412000]
    );
    assert_eq!(tz.near_keys(2015, Clock::Wall)[2], 1425798000 - 18000);
    assert_eq!(tz.near_keys(2015, Clock::Wall)[3], 1446357600 - 18000);
}

#[test]
fn new_york_changes_offset_at_the_instant_of_the_change() {
    let tz = new_york();
    assert_eq!(tz.to_offset(1425798000 - 1), EST);
    assert_eq!(tz.to_offset(1425798000), EDT);
    assert_eq!(tz.to_offset(1446357600 - 1), EDT);
    assert_eq!(tz.to_offset(1446357600), EST);
    assert_eq!(tz.to_offset(1435708800), EDT);
}

#[test]
fn instants_near_the_turn_of_the_year_are_resolved() {
    let tz = new_york();
    assert_eq!(tz.to_offset(1451606399), EST);
    assert_eq!(tz.to_offset(1451606400), EST);
    assert_eq!(tz.to_offset(1420070400), EST);
    let tz = sydney();
    assert_eq!(tz.to_offset(1451606399), AEDT);
    assert_eq!(tz.to_offset(1451606400), AEDT);
}

#[test]
fn a_zone_without_daylight_saving_time_keeps_its_offset() {
    let tz = zone(("UTC", 0), None);
    let utc = OffsetInfo { offset: 0, is_dst: false, abbreviation: "UTC" };
    for ts in [i64::MIN, -1, 0, 1425798000, 1446357600, i64::MAX] {
        assert_eq!(tz.to_offset(ts), utc);
    }
    assert_eq!(tz.to_ambiguous_kind(datetime(2015, 3, 8, 2, 30, 0)), once(utc));
    assert_eq!(tz.to_ambiguous_kind(datetime(i64::MAX, 12, 31, 23, 59, 59)), once(utc));
}

#[test]
fn january_is_inside_daylight_saving_time_in_the_south() {
    let tz = sydney();
    assert_eq!(tz.to_offset(1610668800), AEDT);
    assert_eq!(tz.to_ambiguous_kind(datetime(2021, 1, 15, 12, 0, 0)), once(AEDT));
}

#[test]
fn july_is_outside_daylight_saving_time_in_the_south() {
    let tz = sydney();
    assert_eq!(tz.to_offset(1626307200), AEST);
    assert_eq!(tz.to_ambiguous_kind(datetime(2021, 7, 15, 12, 0, 0)), once(AEST));
}

#[test]
fn sydney_changes_offset_at_the_instant_of_the_change() {
    let tz = sydney();
    assert_eq!(tz.to_offset(1617465600 - 1), AEDT);
    assert_eq!(tz.to_offset(1617465600), AEST);
    assert_eq!(tz.to_offset(1633190400 - 1), AEST);
    assert_eq!(tz.to_offset(1633190400), AEDT);
}

#[test]
fn the_wall_clock_of_new_york_skips_an_hour_in_spring() {
    let tz = new_york();
    assert_eq!(tz.to_ambiguous_kind(datetime(2015, 3, 8, 1, 59, 59)), once(EST));
    assert_eq!(tz.to_ambiguous_kind(datetime(2015, 3, 8, 2, 0, 0)), AmbiguousOffset::Gap);
    assert_eq!(tz.to_ambiguous_kind(datetime(2015, 3, 8, 2, 30, 0)), AmbiguousOffset::Gap);
    assert_eq!(tz.to_ambiguous_kind(datetime(2015, 3, 8, 2, 59, 59)), AmbiguousOffset::Gap);
    assert_eq!(tz.to_ambiguous_kind(datetime(2015, 3, 8, 3, 0, 0)), once(EDT));
    assert_eq!(tz.to_ambiguous_kind(datetime(2015, 3, 8, 2, 30, 0)).count(), 0);
}

#[test]
fn the_wall_clock_of_new_york_shows_an_hour_twice_in_autumn() {
    let tz = new_york();
    let twice = AmbiguousOffset::Fold { before: EDT, after: EST };
    assert_eq!(tz.to_ambiguous_kind(datetime(2015, 11, 1, 0, 59, 59)), once(EDT));
    assert_eq!(tz.to_ambiguous_kind(datetime(2015, 11, 1, 1, 0, 0)), twice);
    assert_eq!(tz.to_ambiguous_kind(datetime(2015, 11, 1, 1, 30, 0)), twice);
    assert_eq!(tz.to_ambiguous_kind(datetime(2015, 11, 1, 1, 59, 59)), twice);
    assert_eq!(tz.to_ambiguous_kind(datetime(2015, 11, 1, 2, 0, 0)), once(EST));
    assert_eq!(twice.count(), 2);
    assert_eq!(once(EST).count(), 1);
}

#[test]
fn daylight_saving_time_that_sets_the_clock_back_folds_where_it_begins() {
    let tz = dublin();
    assert_eq!(tz.to_offset(1610668800), GMT);
    assert_eq!(tz.to_offset(1626307200), IST);
    assert_eq!(tz.to_offset(1616893200 - 1), GMT);
    assert_eq!(tz.to_offset(1616893200), IST);
    assert_eq!(tz.to_offset(1635642000 - 1), IST);
    assert_eq!(tz.to_offset(1635642000), GMT);
    assert_eq!(tz.to_ambiguous_kind(datetime(2021, 3, 28, 0, 59, 59)), once(GMT));
    assert_eq!(tz.to_ambiguous_kind(datetime(2021, 3, 28, 1, 30, 0)), AmbiguousOffset::Gap);
    assert_eq!(tz.to_ambiguous_kind(datetime(2021, 3, 28, 2, 0, 0)), once(IST));
    assert_eq!(tz.to_ambiguous_kind(datetime(2021, 10, 31, 0, 59, 59)), once(IST));
    assert_eq!(
        tz.to_ambiguous_kind(datetime(2021, 10, 31, 1, 30, 0)),
        AmbiguousOffset::Fold { before: IST, after: GMT }
    );
    assert_eq!(tz.to_ambiguous_kind(datetime(2021, 10, 31, 2, 0, 0)), once(GMT));
}

#[test]
fn daylight_saving_time_with_the_offset_of_standard_time_disturbs_nothing() {
    let tz = zone(
        ("AAA", -3600),
        Some(("BBB", -3600, weekday_of_month(3, 2, 0, 7200), weekday_of_month(11, 1, 0, 7200))),
    );
    let std = OffsetInfo { offset: 3600, is_dst: false, abbreviation: "AAA" };
    let dst = OffsetInfo { offset: 3600, is_dst: true, abbreviation: "BBB" };
    assert_eq!(tz.to_ambiguous_kind(datetime(2015, 3, 8, 1, 59, 59)), once(std));
    assert_eq!(tz.to_ambiguous_kind(datetime(2015, 3, 8, 2, 0, 0)), once(dst));
    assert_eq!(tz.to_ambiguous_kind(datetime(2015, 11, 1, 1, 59, 59)), once(dst));
    assert_eq!(tz.to_ambiguous_kind(datetime(2015, 11, 1, 2, 0, 0)), once(std));
}

#[test]
fn every_instant_of_a_year_goes_back_and_forth_through_the_wall_clock() {
    for tz in [new_york(), sydney(), dublin()] {
        let mut ts: i64 = 1420070400;
        while ts < 1451606400 {
            let info = tz.to_offset(ts);
            let wall = CivilDateTime::from_timestamp(ts, info.offset);
            match tz.to_ambiguous_kind(wall) {
                AmbiguousOffset::Unambiguous { offset } => assert_eq!(offset, info),
                AmbiguousOffset::Fold { before, after } => assert!(info == before || info == after),
                AmbiguousOffset::Gap => panic!("{} shows a time that never occurs", ts),
            }
            ts += 1789;
        }
    }
}

#[test]
fn the_farthest_instants_are_resolved() {
    let tz = new_york();
    for ts in [i64::MIN, i64::MIN + 1, i64::MAX - 1, i64::MAX] {
        let info = tz.to_offset(ts);
        assert!(info == EST || info == EDT);
    }
    for year in [i64::MIN, i64::MAX] {
        let r = tz.to_ambiguous_kind(datetime(year, 7, 1, 12, 0, 0));
        assert_eq!(r, once(EDT));
        let r = tz.to_ambiguous_kind(datetime(year, 1, 1, 0, 0, 0));
        assert_eq!(r, once(EST));
        let r = tz.to_ambiguous_kind(datetime(year, 12, 31, 23, 59, 59));
        assert_eq!(r, once(EST));
    }
}

/// <-03>3<-02>,M3.5.0/-2,M10.5.0/-1
fn nuuk() -> posix::PosixTimeZone<&'static str> {
    zone(
        ("-03", 10800),
        Some(("-02", 7200, weekday_of_month(3, 5, 0, -7200), weekday_of_month(10, 5, 0, -3600))),
    )
}

#[test]
fn a_change_before_midnight_falls_on_the_day_before() {
    let tz = nuuk();
    let std = OffsetInfo { offset: -10800, is_dst: false, abbreviation: "-03" };
    let dst = OffsetInfo { offset: -7200, is_dst: true, abbreviation: "-02" };
    assert_eq!(tz.transition_at(2021, true), 1616893200);
    assert_eq!(tz.transition_at(2021, false), 1635642000);
    assert_eq!(tz.to_offset(1616893200 - 1), std);
    assert_eq!(tz.to_offset(1616893200), dst);
    assert_eq!(tz.to_offset(1635642000 - 1), dst);
    assert_eq!(tz.to_offset(1635642000), std);
    assert_eq!(tz.to_ambiguous_kind(datetime(2021, 3, 27, 21, 59, 59)), once(std));
    assert_eq!(tz.to_ambiguous_kind(datetime(2021, 3, 27, 22, 30, 0)), AmbiguousOffset::Gap);
    assert_eq!(tz.to_ambiguous_kind(datetime(2021, 3, 27, 23, 0, 0)), once(dst));
    assert_eq!(
        tz.to_ambiguous_kind(datetime(2021, 10, 30, 22, 30, 0)),
        AmbiguousOffset::Fold { before: dst, after: std }
    );
    assert_eq!(tz.to_ambiguous_kind(datetime(2021, 10, 30, 23, 0, 0)), once(std));
}

#[test]
fn rules_by_day_of_the_year_are_resolved() {
    let by_day = |date: PosixDay, second: i32| PosixDayTime { date, time: PosixTime { second } };
    let std = OffsetInfo { offset: 3600, is_dst: false, abbreviation: "AAA" };
    let dst = OffsetInfo { offset: 7200, is_dst: true, abbreviation: "BBB" };
    // Counted from one: the first of March and the first of November in
    // every year.
    let tz = zone(
        ("AAA", -3600),
        Some(("BBB", -7200, by_day(PosixDay::JulianOne(60), 7200), by_day(PosixDay::JulianOne(305), 10800))),
    );
    for (start, end) in [(1425171600, 1446339600), (1456794000, 1477962000)] {
        assert_eq!(tz.to_offset(start - 1), std);
        assert_eq!(tz.to_offset(start), dst);
        assert_eq!(tz.to_offset(end - 1), dst);
        assert_eq!(tz.to_offset(end), std);
    }
    assert_eq!(tz.to_ambiguous_kind(datetime(2016, 3, 1, 2, 30, 0)), AmbiguousOffset::Gap);
    assert_eq!(tz.to_ambiguous_kind(datetime(2016, 2, 29, 2, 30, 0)), once(std));
    // Counted from zero: the sixtieth day, which is the 29th of February
    // where there is one.
    let tz = zone(
        ("AAA", -3600),
        Some(("BBB", -7200, by_day(PosixDay::JulianZero(59), 7200), by_day(PosixDay::JulianZero(304), 10800))),
    );
    assert_eq!(tz.transition_at(2015, true), 1425171600);
    assert_eq!(tz.transition_at(2016, true), 1456707600);
    assert_eq!(tz.to_offset(1456707600 - 1), std);
    assert_eq!(tz.to_offset(1456707600), dst);
    assert_eq!(tz.to_ambiguous_kind(datetime(2016, 2, 29, 2, 30, 0)), AmbiguousOffset::Gap);
    assert_eq!(tz.to_ambiguous_kind(datetime(2015, 3, 1, 2, 30, 0)), AmbiguousOffset::Gap);
}

#[test]
fn a_change_late_on_the_last_day_of_the_year_is_seen_from_the_next_year() {
    let by_day = |date: PosixDay, second: i32| PosixDayTime { date, time: PosixTime { second } };
    let std = OffsetInfo { offset: 0, is_dst: false, abbreviation: "AAA" };
    let dst = OffsetInfo { offset: 3600, is_dst: true, abbreviation: "BBB" };
    // Daylight saving time from the first of July until 26 hours after the
    // midnight that begins the last day of the year: 01:00 on the first of
    // January, by the daylight saving clock, which is midnight UTC.
    let tz = zone(
        ("AAA", 0),
        Some(("BBB", -3600, by_day(PosixDay::JulianOne(182), 0), by_day(PosixDay::JulianOne(365), 90000))),
    );
    assert_eq!(tz.transition_at(2015, false), 1451606400 - 3600 + 3600);
    assert_eq!(tz.to_offset(1451606399), dst);
    assert_eq!(tz.to_offset(1451606400), std);
    assert_eq!(tz.to_offset(1451606400 + 86400), std);
    assert_eq!(
        tz.to_ambiguous_kind(datetime(2016, 1, 1, 0, 30, 0)),
        AmbiguousOffset::Fold { before: dst, after: std }
    );
    assert_eq!(tz.to_ambiguous_kind(datetime(2016, 1, 1, 1, 0, 0)), once(std));
    assert_eq!(tz.to_ambiguous_kind(datetime(2015, 12, 31, 23, 59, 59)), once(dst));
}
