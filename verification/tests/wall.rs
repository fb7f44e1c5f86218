use jiff_tz::civil::CivilDateTime;
use jiff_tz::shared::{TzifTransition, TzifTransitionKind};
use jiff_tz::tz::wall::classify;

fn datetime(year: i64, month: u8, day: u8, hour: u8, minute: u8, second: u8) -> CivilDateTime {
    CivilDateTime { year, month, day, hour, minute, second }
}

#[test]
fn equal_offsets_are_unambiguous() {
    assert_eq!(classify(3600, 3600), TzifTransitionKind::Unambiguous);
    assert_eq!(classify(0, 0), TzifTransitionKind::Unambiguous);
    assert_eq!(classify(i32::MIN, i32::MIN), TzifTransitionKind::Unambiguous);
}

#[test]
fn a_growing_offset_is_a_gap() {
    assert_eq!(classify(-18000, -14400), TzifTransitionKind::Gap);
    assert_eq!(classify(i32::MIN, i32::MAX), TzifTransitionKind::Gap);
    assert_eq!(classify(0, 1), TzifTransitionKind::Gap);
}

#[test]
fn a_shrinking_offset_is_a_fold() {
    assert_eq!(classify(-14400, -18000), TzifTransitionKind::Fold);
    assert_eq!(classify(i32::MAX, i32::MIN), TzifTransitionKind::Fold);
    assert_eq!(classify(1, 0), TzifTransitionKind::Fold);
}

#[test]
fn spring_forward_in_new_york_2015_is_a_gap_from_two_to_three() {
    let t = TzifTransition { timestamp: 1425798000, type_index: 1 }.into_jiff(-18000, -14400);
    assert_eq!(t.timestamp, 1425798000);
    assert_eq!(t.info.type_index, 1);
    assert_eq!(t.info.kind, TzifTransitionKind::Gap);
    assert_eq!(t.civil_start, datetime(2015, 3, 8, 2, 0, 0));
    assert_eq!(t.civil_end, datetime(2015, 3, 8, 3, 0, 0));
    assert_eq!(t.civil_end.to_seconds() - t.civil_start.to_seconds(), 3600);
}

#[test]
fn fall_back_in_new_york_2015_is_a_fold_from_one_to_two() {
    let t = TzifTransition { timestamp: 1446357600, type_index: 0 }.into_jiff(-14400, -18000);
    assert_eq!(t.timestamp, 1446357600);
    assert_eq!(t.info.type_index, 0);
    assert_eq!(t.info.kind, TzifTransitionKind::Fold);
    assert_eq!(t.civil_start, datetime(2015, 11, 1, 1, 0, 0));
    assert_eq!(t.civil_end, datetime(2015, 11, 1, 2, 0, 0));
    assert_eq!(t.civil_end.to_seconds() - t.civil_start.to_seconds(), 3600);
}

#[test]
fn a_change_of_name_alone_has_no_window() {
    let t = TzifTransition { timestamp: 86400, type_index: 2 }.into_jiff(7200, 7200);
    assert_eq!(t.info.kind, TzifTransitionKind::Unambiguous);
    assert_eq!(t.civil_start, datetime(1970, 1, 2, 2, 0, 0));
    assert_eq!(t.civil_end, CivilDateTime::zero());
    assert_eq!(t.civil_end, datetime(0, 0, 0, 0, 0, 0));
}

#[test]
fn the_farthest_transitions_are_classified() {
    let t = TzifTransition { timestamp: i64::MAX, type_index: 0 }.into_jiff(i32::MIN, i32::MAX);
    assert_eq!(t.info.kind, TzifTransitionKind::Gap);
    assert_eq!(t.civil_start.to_seconds(), i64::MAX as i128 + i32::MIN as i128);
    assert_eq!(t.civil_end.to_seconds(), i64::MAX as i128 + i32::MAX as i128);
    let t = TzifTransition { timestamp: i64::MIN, type_index: 0 }.into_jiff(i32::MAX, i32::MIN);
    assert_eq!(t.info.kind, TzifTransitionKind::Fold);
    assert_eq!(t.civil_start.to_seconds(), i64::MIN as i128 + i32::MIN as i128);
    assert_eq!(t.civil_end.to_seconds(), i64::MIN as i128 + i32::MAX as i128);
}
