use vstd::prelude::*;

use crate::keys::{rpi_of, DailyTracingKey, Rpi, TracingKey, dtk_of};

verus! {

/// Seconds in a day.
pub const SECS_PER_DAY: i64 = 86400;

/// Seconds in one time interval.
pub const SECS_PER_INTERVAL: i64 = 600;

/// The day number of a unix timestamp.
pub fn day_number_for_timestamp(ts: i64) -> (r: u32)
    requires
        0 <= ts,
        ts / 86400 <= u32::MAX,
    ensures
        r == ts / 86400,
{
    (ts / SECS_PER_DAY) as u32
}

/// The time interval number of `ts` within the day that starts at
/// `day_start`, or `None` when `ts` lies outside that day.
pub fn tin_for_timestamp_checked(ts: i64, day_start: i64) -> (r: Option<u8>)
    ensures
        r is Some <==> day_start <= ts < day_start + 86400,
        r matches Some(t) ==> t == (ts - day_start) / 600,
{
    let diff: i128 = ts as i128 - day_start as i128;
    if diff < 0 || diff >= SECS_PER_DAY as i128 {
        return None;
    }
    Some((diff / SECS_PER_INTERVAL as i128) as u8)
}

/// The time interval number of a unix timestamp within its own day.
pub fn tin_for_timestamp(ts: i64) -> (r: u8)
    ensures
        r == (ts % 86400) / 600,
        r <= 143,
{
    let secs: u64 = if ts >= 0 {
        (ts as u64) % 86400
    } else {
        let p: u64 = (0i128 - ts as i128) as u64;
        let m: u64 = p % 86400;
        assert(ts as int == -(p as int));
        assert((ts as int) % 86400 == if m == 0 { 0 } else { 86400 - m }) by (nonlinear_arith)
            requires
                ts as int == -(p as int),
                m == p % 86400,
        ;
        if m == 0 {
            0
        } else {
            86400 - m
        }
    };
    (secs / 600) as u8
}

impl DailyTracingKey {
    /// The daily tracing key of `tk` for the day of a non-negative unix timestamp.
    pub fn for_timestamp(tk: &TracingKey, ts: i64) -> (r: DailyTracingKey)
        requires
            0 <= ts,
            ts / 86400 <= u32::MAX,
        ensures
            r@ == dtk_of(tk@, (ts / 86400) as u32),
    {
        DailyTracingKey::for_day(tk, day_number_for_timestamp(ts))
    }
}

impl Rpi {
    /// The identifier that a tracing key broadcasts at a non-negative unix timestamp.
    pub fn for_timestamp(tk: &TracingKey, ts: i64) -> (r: Rpi)
        requires
            0 <= ts,
            ts / 86400 <= u32::MAX,
        ensures
            r@ == rpi_of(dtk_of(tk@, (ts / 86400) as u32), ((ts % 86400) / 600) as u8),
    {
        let dtk = DailyTracingKey::for_timestamp(tk, ts);
        dtk.get_rpi_for_tin(tin_for_timestamp(ts)).unwrap()
    }
}

} // verus!
