//! The wall clock, sampled as plain calendar fields.

use vstd::prelude::*;

use chrono::{Datelike, Timelike};

use crate::name::Timestamp;

verus! {

/// One reading of the wall clock: the epoch millisecond and the UTC
/// calendar fields of the same instant.
#[derive(Debug, Clone, Copy, PartialEq, Eq, Structural)]
pub struct ClockSample {
    pub millis: i64,
    pub year: i32,
    pub month: u32,
    pub day: u32,
    pub hour: u32,
    pub minute: u32,
    pub second: u32,
    pub subsec_millis: u32,
}

/// Relies on chrono: `Utc::now` reads the wall clock;
/// `Datelike::month`/`Datelike::day` are documented to range over 1..=12
/// and 1..=31, `Timelike::hour`/`minute`/`second` over 0..=23, 0..=59 and
/// 0..=59, and `DateTime::timestamp_subsec_millis` exceeds 999 only during
/// a leap second and stays below 2000. Nothing is assumed of the epoch
/// millisecond or the year: the clock may read anything.
#[verifier::external_body]
fn sample_clock() -> (r: ClockSample)
    ensures
        1 <= r.month <= 12,
        1 <= r.day <= 31,
        r.hour <= 23,
        r.minute <= 59,
        r.second <= 59,
        r.subsec_millis <= 1999,
{
    let u = chrono::Utc::now();
    ClockSample {
        millis: u.timestamp_millis(),
        year: u.year(),
        month: u.month(),
        day: u.day(),
        hour: u.hour(),
        minute: u.minute(),
        second: u.second(),
        subsec_millis: u.timestamp_subsec_millis(),
    }
}

/// Fixes what becomes of one clock reading: a sample whose epoch
/// millisecond equals `last_millis`, the previous rotation's, is refused —
/// rotated names stay unique even under a coarse clock. Any other sample
/// is accepted, carrying its epoch millisecond and its calendar fields
/// unchanged, except that the year and the millisecond are clamped into
/// the ranges a rotated name can carry (a year outside 1000..=2999, a
/// leap second's overflowing millisecond).
pub fn accept_sample(s: ClockSample, last_millis: i64) -> (r: Option<(i64, Timestamp)>)
    ensures
        r is None <==> s.millis == last_millis,
        r matches Some(p) ==> {
            &&& p.0 == s.millis
            &&& p.1.month == s.month
            &&& p.1.day == s.day
            &&& p.1.hour == s.hour
            &&& p.1.minute == s.minute
            &&& p.1.second == s.second
            &&& p.1.year == (if s.year < 1000 {
                1000u32
            } else if s.year > 2999 {
                2999u32
            } else {
                s.year as u32
            })
            &&& p.1.millisecond == (if s.subsec_millis > 999 {
                999u32
            } else {
                s.subsec_millis
            })
        },
{
    if s.millis == last_millis {
        return None;
    }
    let year: u32 = if s.year < 1000 {
        1000
    } else if s.year > 2999 {
        2999
    } else {
        s.year as u32
    };
    let millisecond: u32 = if s.subsec_millis > 999 {
        999
    } else {
        s.subsec_millis
    };
    Some(
        (
            s.millis,
            Timestamp {
                year,
                month: s.month,
                day: s.day,
                hour: s.hour,
                minute: s.minute,
                second: s.second,
                millisecond,
            },
        ),
    )
}

/// Samples the clock once for a rotation and accepts or refuses the sample
/// as `accept_sample` says; the caller waits briefly between refused
/// attempts. Whatever the clock read, an accepted timestamp is valid for
/// naming and its millisecond differs from the previous rotation's.
pub fn acquire_timestamp(last_millis: i64) -> (r: Option<(i64, Timestamp)>)
    ensures
        r matches Some(p) ==> p.1.valid() && p.0 != last_millis,
{
    let s = sample_clock();
    accept_sample(s, last_millis)
}

} // verus!
