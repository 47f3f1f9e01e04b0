//! The present moment.
use std::time::{SystemTime, UNIX_EPOCH};
use vstd::prelude::*;

verus! {

/// `SystemTime::now`, as the seconds since the Unix epoch and the nanoseconds within the second
/// (`Duration::as_secs` and `Duration::subsec_nanos`), of which there are less than a billion. Any
/// moment may come, and a moment before the epoch counts as the epoch.
#[verifier::external_body]
fn clock() -> (res: (u64, u32))
    ensures
        res.1 < 1_000_000_000,
{
    let since = SystemTime::now().duration_since(UNIX_EPOCH).unwrap_or_default();
    (since.as_secs(), since.subsec_nanos())
}

/// Moments are nanoseconds since the Unix epoch. No later one than this is told.
pub open spec fn latest_moment() -> nat {
    (u64::MAX * 1_000_000_000 + 999_999_999) as nat
}

/// The present moment.
pub fn now_nanos() -> (res: u128)
    ensures
        res <= latest_moment(),
{
    let (secs, nanos) = clock();
    secs as u128 * 1_000_000_000 + nanos as u128
}

/// Milliseconds since the Unix epoch, of a moment, or the largest number where they do not fit.
pub open spec fn moment_ms(moment: u128) -> i64 {
    if moment / 1_000_000 <= i64::MAX {
        (moment / 1_000_000) as i64
    } else {
        i64::MAX
    }
}

/// Milliseconds since the Unix epoch, of a moment.
pub fn timestamp_ms_of(moment: u128) -> (res: i64)
    ensures
        res == moment_ms(moment),
{
    let ms: u128 = moment / 1_000_000;
    if ms <= i64::MAX as u128 {
        ms as i64
    } else {
        i64::MAX
    }
}

/// The present moment in milliseconds since the Unix epoch.
pub fn now_unix_ms() -> (res: i64)
    ensures
        res >= 0,
{
    let now: u128 = now_nanos();
    timestamp_ms_of(now)
}

/// The present moment in milliseconds since the Unix epoch.
pub fn current_timestamp_ms() -> (res: i64)
    ensures
        res >= 0,
{
    now_unix_ms()
}

/// A moment in milliseconds is the last whole one, as far as the number reaches.
pub proof fn whole_milliseconds(moment: u128)
    ensures
        moment < 9_223_372_036_854_775_807 * 1_000_000 ==> moment_ms(moment) * 1_000_000 <= moment
            < (moment_ms(moment) + 1) * 1_000_000,
        moment >= 9_223_372_036_854_775_807 * 1_000_000 ==> moment_ms(moment)
            == 9_223_372_036_854_775_807,
{
}

} // verus!
