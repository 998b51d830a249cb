use mission_control::time::{instant_of_reading, secs_between, Timestamp};

#[test]
fn clock_readings_before_the_epoch_give_negative_seconds() {
    assert_eq!(instant_of_reading(true, 7, 3), Timestamp { secs: 7, nanos: 3 });
    assert_eq!(instant_of_reading(false, 5, 0), Timestamp { secs: -5, nanos: 0 });
    assert_eq!(instant_of_reading(false, 5, 250_000_000), Timestamp { secs: -6, nanos: 750_000_000 });
    assert_eq!(instant_of_reading(true, u64::MAX, 1), Timestamp { secs: i64::MAX, nanos: 1 });
    assert_eq!(instant_of_reading(false, 1u64 << 63, 0), Timestamp { secs: i64::MIN, nanos: 0 });
}

#[test]
fn elapsed_seconds_count_across_the_epoch() {
    let before = instant_of_reading(false, 1, 500_000_000);
    let after = instant_of_reading(true, 2, 0);
    assert_eq!(secs_between(after, before), 3);
    assert_eq!(secs_between(before, after), 0);
}
