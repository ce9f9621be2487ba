use raio::delay::{delay_fits, millis_fit, period};
use std::time::Duration;

#[test]
fn two_seconds_are_two_thousand_milliseconds() {
    assert_eq!(period(2, 0), 2000);
}

#[test]
fn parts_of_a_millisecond_are_dropped() {
    assert_eq!(period(0, 999_999), 0);
    assert_eq!(period(0, 1_000_000), 1);
    assert_eq!(period(1, 1_999_999), 1001);
    assert_eq!(period(3, 999_999_999), 3999);
}

#[test]
fn a_period_beyond_the_data_field_is_cut() {
    // 2^64 - 616 milliseconds are -616 in 64 bits.
    assert_eq!(period(18_446_744_073_709_551, 0), -616);
}

#[test]
fn countable_delays_end_at_the_largest_millisecond_count() {
    assert!(millis_fit(18_446_744_073_709_551, 615_999_999));
    assert!(!millis_fit(18_446_744_073_709_551, 616_000_000));
    assert!(!millis_fit(18_446_744_073_709_552, 0));
    assert!(delay_fits(&Duration::new(2, 0)));
    assert!(delay_fits(&Duration::new(18_446_744_073_709_551, 615_000_000)));
    assert!(!delay_fits(&Duration::new(18_446_744_073_709_551, 616_000_000)));
    assert!(!delay_fits(&Duration::new(u64::MAX, 0)));
}
