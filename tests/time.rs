use tracing_store::time::{day_number_for_timestamp, tin_for_timestamp, tin_for_timestamp_checked};
use tracing_store::{DailyTracingKey, Rpi, TracingKey};

#[test]
fn day_numbers() {
    assert_eq!(day_number_for_timestamp(0), 0);
    assert_eq!(day_number_for_timestamp(86399), 0);
    assert_eq!(day_number_for_timestamp(86400), 1);
    assert_eq!(day_number_for_timestamp(1_586_000_000), 18356);
}

#[test]
fn time_interval_numbers() {
    assert_eq!(tin_for_timestamp(0), 0);
    assert_eq!(tin_for_timestamp(599), 0);
    assert_eq!(tin_for_timestamp(600), 1);
    assert_eq!(tin_for_timestamp(86399), 143);
    assert_eq!(tin_for_timestamp(86400 + 1200), 2);
    assert_eq!(tin_for_timestamp_checked(86400, 0), None);
    assert_eq!(tin_for_timestamp_checked(-1, 0), None);
    assert_eq!(tin_for_timestamp_checked(86399, 0), Some(143));
}

#[test]
fn rpi_for_timestamp_composes() {
    let b: Vec<u8> = (0u8..32).collect();
    let tk = TracingKey::from_bytes(&b).unwrap();
    let ts = 18356 * 86400 + 3 * 600 + 17;
    let direct = DailyTracingKey::for_day(&tk, 18356).get_rpi_for_tin(3).unwrap();
    assert_eq!(DailyTracingKey::for_timestamp(&tk, ts).as_bytes(), DailyTracingKey::for_day(&tk, 18356).as_bytes());
    assert_eq!(Rpi::for_timestamp(&tk, ts).as_bytes(), direct.as_bytes());
}

#[test]
fn negative_timestamps_use_their_own_day() {
    assert_eq!(tin_for_timestamp(-1), 143);
    assert_eq!(tin_for_timestamp(-600), 143);
    assert_eq!(tin_for_timestamp(-601), 142);
    assert_eq!(tin_for_timestamp(-86400), 0);
    assert_eq!(tin_for_timestamp(i64::MIN), ((i64::MIN).rem_euclid(86400) / 600) as u8);
}
