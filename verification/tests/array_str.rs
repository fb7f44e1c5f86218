use jiff_tz::access::Text;
use jiff_tz::util::array_str::{Abbreviation, ArrayStr, BoundedString};
use jiff_tz::util::order::{order_bytes, TextOrder};
use std::cmp::Ordering;

#[test]
fn new_keeps_text_that_fits() {
    let s = ArrayStr::<8>::new("EST").unwrap();
    assert_eq!(s.as_str(), "EST");
    assert_eq!(s.as_text(), "EST");
}

#[test]
fn new_accepts_text_of_exactly_the_capacity() {
    let s = ArrayStr::<4>::new("AEDT").unwrap();
    assert_eq!(s.as_str(), "AEDT");
}

#[test]
fn new_refuses_text_one_byte_too_long() {
    assert!(ArrayStr::<3>::new("AEDT").is_none());
}

#[test]
fn new_accepts_the_empty_text() {
    let s = ArrayStr::<0>::new("").unwrap();
    assert_eq!(s.as_str(), "");
    assert!(ArrayStr::<0>::new("a").is_none());
}

#[test]
fn new_counts_bytes_not_characters() {
    // Two characters, five bytes.
    let text = "\u{e9}\u{20ac}";
    assert_eq!(text.len(), 5);
    assert!(ArrayStr::<4>::new(text).is_none());
    let s = ArrayStr::<5>::new(text).unwrap();
    assert_eq!(s.as_str(), text);
}

#[test]
fn new_never_holds_more_than_255_bytes() {
    let long = "x".repeat(256);
    assert!(ArrayStr::<300>::new(&long).is_none());
    let fits = "x".repeat(255);
    let s = ArrayStr::<300>::new(&fits).unwrap();
    assert_eq!(s.as_str(), fits);
    let s = ArrayStr::<255>::new(&fits).unwrap();
    assert_eq!(s.as_str(), fits);
}

#[test]
fn abbreviation_holds_thirty_bytes() {
    let thirty = "abcdefghijklmnopqrstuvwxyzABCD";
    assert_eq!(thirty.len(), 30);
    assert!(Abbreviation::new(thirty).is_some());
    assert!(Abbreviation::new("abcdefghijklmnopqrstuvwxyzABCDE").is_none());
}

#[test]
fn equality_is_equality_of_text() {
    let a = ArrayStr::<8>::new("CET").unwrap();
    let b = ArrayStr::<8>::new("CET").unwrap();
    let c = ArrayStr::<8>::new("CEST").unwrap();
    assert!(a == b);
    assert!(a != c);
    assert!(a == *"CET");
    assert!(a != *"CE");
    assert!(a == "CET");
    assert!(a != "CEST");
    assert!(*"CET" == a);
    assert!(*"CEST" != a);
    assert!(a.eq_str("CET"));
    assert!(!a.eq_str("CETX"));
    assert!(!a.eq_str(""));
}

#[test]
fn a_copy_is_equal_to_what_it_was_copied_from() {
    let a = ArrayStr::<8>::new("WET").unwrap();
    let b = a;
    assert!(a == b);
    assert_eq!(b.as_str(), "WET");
}

#[test]
fn text_is_ordered_as_its_bytes_are() {
    let a = ArrayStr::<8>::new("CET").unwrap();
    assert_eq!(a.order_str("CET"), TextOrder::Same);
    assert_eq!(a.order_str("CEU"), TextOrder::Before);
    assert_eq!(a.order_str("CES"), TextOrder::After);
    assert_eq!(a.order_str("CE"), TextOrder::After);
    assert_eq!(a.order_str("CETA"), TextOrder::Before);
    assert_eq!(a.order_str(""), TextOrder::After);
    assert_eq!(a.order_str("\u{e9}"), TextOrder::Before);
    assert_eq!(order_bytes(b"", b""), TextOrder::Same);
    assert_eq!(order_bytes(b"", b"a"), TextOrder::Before);
    assert_eq!(order_bytes(&[0xff], &[0x00, 0x01]), TextOrder::After);
    assert_eq!(a.partial_cmp("CEU"), Some(Ordering::Less));
    assert_eq!(a.partial_cmp("CET"), Some(Ordering::Equal));
    assert_eq!(a.partial_cmp("C"), Some(Ordering::Greater));
    assert!(a < *"CEU");
    assert!(a >= *"CET");
    let b = ArrayStr::<8>::new("CEST").unwrap();
    assert!(b < a);
    assert!(a > b);
    assert_eq!(a.partial_cmp(&a), Some(Ordering::Equal));
    for (x, y) in [("", "a"), ("abc", "abd"), ("EST", "EDT"), ("z", "\u{20ac}"), ("same", "same")] {
        let left = ArrayStr::<8>::new(x).unwrap();
        assert_eq!(left.partial_cmp(y), Some(x.cmp(y)));
        assert_eq!(left.eq_str(y), x == y);
    }
}

#[test]
fn a_bounded_string_is_an_array_string() {
    let s: BoundedString<4> = BoundedString::new("NZDT").unwrap();
    assert_eq!(s.as_text(), "NZDT");
    assert!(BoundedString::<4>::new("NZDTX").is_none());
}
