use rut_lib::Range;

#[test]
fn format() {
    assert_eq!(Range::MIN.to_string(), "1.000.000");
    assert_eq!(Range::MAX.to_string(), "99.999.999")
}

#[test]
fn to_u32_of_each_bound() {
    assert_eq!(Range::MIN.to_u32(), 1_000_000);
    assert_eq!(Range::MAX.to_u32(), 99_999_999);
    assert_eq!(rut_lib::range::MIN, 1_000_000);
    assert_eq!(rut_lib::range::MAX, 99_999_999);
}

#[test]
fn contains_from_the_least_to_below_the_upper_bound() {
    assert!(!Range::contains(0));
    assert!(!Range::contains(999_999));
    assert!(Range::contains(1_000_000));
    assert!(Range::contains(17_951_585));
    assert!(Range::contains(99_999_998));
    assert!(!Range::contains(99_999_999));
    assert!(!Range::contains(100_000_000));
    assert!(!Range::contains(u32::MAX));
}
