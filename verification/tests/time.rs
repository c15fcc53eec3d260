use ipmb::time::TimeSpan;

#[test]
fn spans_are_told_in_seconds_and_nanoseconds() {
    let s = TimeSpan::new(3, 500).unwrap();
    assert_eq!(s.secs(), 3);
    assert_eq!(s.subsec_nanos(), 500);
    assert_eq!(s.as_nanos(), 3_000_000_500);
    assert!(!s.is_zero());
    assert!(TimeSpan::new(0, 999_999_999).is_some());
    assert!(TimeSpan::new(0, 1_000_000_000).is_none());
    assert!(TimeSpan::new(7, u32::MAX).is_none());
}

#[test]
fn zero_is_zero() {
    assert!(TimeSpan::zero().is_zero());
    assert_eq!(TimeSpan::zero().as_nanos(), 0);
    assert!(TimeSpan::from_secs(0).is_zero());
    assert!(!TimeSpan::new(0, 1).unwrap().is_zero());
    assert!(!TimeSpan::from_secs(1).is_zero());
}

#[test]
fn from_millis_splits() {
    let s = TimeSpan::from_millis(2_345);
    assert_eq!(s.secs(), 2);
    assert_eq!(s.subsec_nanos(), 345_000_000);
    assert_eq!(TimeSpan::from_millis(0), TimeSpan::zero());
    assert_eq!(TimeSpan::from_millis(u64::MAX).secs(), u64::MAX / 1000);
}

#[test]
fn from_nanos_is_the_inverse_of_as_nanos() {
    let s = TimeSpan::from_nanos(5_000_000_007).unwrap();
    assert_eq!(s, TimeSpan::new(5, 7).unwrap());
    let max = TimeSpan::new(u64::MAX, 999_999_999).unwrap();
    assert_eq!(TimeSpan::from_nanos(max.as_nanos()), Some(max));
    assert_eq!(TimeSpan::from_nanos(max.as_nanos() + 1), None);
    assert_eq!(TimeSpan::from_nanos(u128::MAX), None);
}
