//! Points in time, as milliseconds since the Unix epoch.

use vstd::prelude::*;

verus! {

/// What `chrono::DateTime::parse_from_rfc3339` makes of a text, as milliseconds since the Unix
/// epoch; nothing where the text is no RFC 3339 timestamp.
pub uninterp spec fn rfc3339_millis(text: Seq<char>) -> Option<i64>;

/// The milliseconds of a point in time, those before the epoch cut to zero.
pub open spec fn clamped_millis(millis: Option<i64>) -> Option<u64> {
    match millis {
        Some(ms) => if ms < 0 {
            Some(0)
        } else {
            Some(ms as u64)
        },
        None => None,
    }
}

/// The low 64 bits of the milliseconds that have passed since the epoch; zero before it.
pub open spec fn low_millis(elapsed: Option<u128>) -> int {
    match elapsed {
        Some(ms) => ms as int % 0x1_0000_0000_0000_0000,
        None => 0,
    }
}

/// Calls `chrono::DateTime::parse_from_rfc3339`, and `timestamp_millis` on what it returns.
///
/// Claims that the result depends on the text alone: it is what [`rfc3339_millis`] names.
#[verifier::external_body]
fn timestamp_of(text: &str) -> (r: Option<i64>)
    ensures
        r == rfc3339_millis(text@),
{
    match chrono::DateTime::parse_from_rfc3339(text) {
        Ok(time) => Some(time.timestamp_millis()),
        Err(_) => None,
    }
}

/// A reading of the system clock.
#[verifier::external_type_specification]
#[verifier::external_body]
pub struct ExSystemTime(std::time::SystemTime);

/// Calls `std::time::SystemTime::now`. Claims nothing: the reading is up to the clock.
#[verifier::external_body]
fn read_clock() -> (r: std::time::SystemTime) {
    std::time::SystemTime::now()
}

/// Calls `std::time::SystemTime::duration_since` with the epoch; nothing where the reading lies
/// before it. Claims nothing: what a reading holds is not modelled.
#[verifier::external_body]
fn since_epoch(time: std::time::SystemTime) -> (r: Option<std::time::Duration>) {
    match time.duration_since(std::time::UNIX_EPOCH) {
        Ok(elapsed) => Some(elapsed),
        Err(_) => None,
    }
}

/// Calls `std::time::Duration::as_millis`. Claims nothing: what a span of time holds is not
/// modelled.
#[verifier::external_body]
fn whole_millis(span: std::time::Duration) -> (r: u128) {
    span.as_millis()
}

/// The milliseconds of a point in time, those before the epoch cut to zero.
pub fn clamp_millis(millis: Option<i64>) -> (r: Option<u64>)
    ensures
        r == clamped_millis(millis),
{
    match millis {
        Some(ms) => if ms < 0 {
            Some(0)
        } else {
            Some(ms as u64)
        },
        None => None,
    }
}

/// Parses an RFC 3339 timestamp into milliseconds since the epoch.
pub fn parse_iso_ms(s: &str) -> (r: Option<u64>)
    ensures
        r == clamped_millis(rfc3339_millis(s@)),
{
    clamp_millis(timestamp_of(s))
}

/// The milliseconds that have passed since the epoch, as far as 64 bits hold them; zero where the
/// clock stands before it.
pub fn epoch_ms(elapsed: Option<u128>) -> (r: u64)
    ensures
        r == low_millis(elapsed),
{
    match elapsed {
        Some(ms) => {
            let low: u128 = ms % 0x1_0000_0000_0000_0000;
            low as u64
        },
        None => 0,
    }
}

/// Whether the system clock can give `time`, that lie `span` after the epoch, and that be `ms`
/// milliseconds.
spec fn is_reading_after(
    time: std::time::SystemTime,
    span: std::time::Duration,
    ms: u128,
) -> bool {
    call_ensures(read_clock, (), time) && call_ensures(since_epoch, (time,), Some(span))
        && call_ensures(whole_millis, (span,), ms)
}

/// Whether the system clock can give `time`, and that lie before the epoch.
spec fn is_reading_before(time: std::time::SystemTime) -> bool {
    call_ensures(read_clock, (), time) && call_ensures(since_epoch, (time,), None)
}

/// Whether `now` is a time that the system clock can show: the milliseconds from the epoch to one
/// of its readings, as far as 64 bits hold them, or zero for a reading before the epoch.
pub closed spec fn is_clock_time(now: u64) -> bool {
    ||| exists|time: std::time::SystemTime, span: std::time::Duration, ms: u128| #[trigger]
        is_reading_after(time, span, ms) && now == low_millis(Some(ms))
    ||| exists|time: std::time::SystemTime| #[trigger]
        is_reading_before(time) && now == low_millis(None)
}

/// What `f` gives.
fn result_of<R, F: Fn() -> R>(f: F) -> (r: R)
    requires
        call_requires(f, ()),
    ensures
        call_ensures(f, (), r),
{
    f()
}

/// What `f` gives for `a`.
fn result_for<A, R, F: Fn(A) -> R>(f: F, a: A) -> (r: R)
    requires
        call_requires(f, (a,)),
    ensures
        call_ensures(f, (a,), r),
{
    f(a)
}

/// The current time: [`epoch_ms`] of what the system clock shows.
///
/// Which time that is, is up to the clock.
pub fn now_ms() -> (r: u64)
    ensures
        is_clock_time(r),
{
    let time = result_of(read_clock);
    let since = result_for(since_epoch, time);
    let elapsed: Option<u128> = match since {
        Some(span) => {
            let ms: u128 = result_for(whole_millis, span);
            assert(is_reading_after(time, span, ms));
            Some(ms)
        },
        None => {
            assert(is_reading_before(time));
            None
        },
    };
    epoch_ms(elapsed)
}

/// A point in time at or after the epoch keeps its milliseconds; an earlier one counts as the
/// epoch.
pub proof fn times_after_the_epoch_are_kept(ms: i64)
    ensures
        ms >= 0 ==> clamped_millis(Some(ms)) is Some && clamped_millis(Some(ms))->0 as int == ms,
        ms < 0 ==> clamped_millis(Some(ms)) == Some(0u64),
        clamped_millis(None) is None,
{
}

/// Elapsed milliseconds that 64 bits hold are kept; of others the multiples of 2^64 are dropped.
pub proof fn elapsed_times_are_kept(ms: u128)
    ensures
        ms <= u64::MAX ==> low_millis(Some(ms)) == ms,
        0 <= low_millis(Some(ms)) <= u64::MAX,
        exists|k: int| low_millis(Some(ms)) + #[trigger] (k * 0x1_0000_0000_0000_0000) == ms,
        low_millis(None) == 0,
{
    let k = ms as int / 0x1_0000_0000_0000_0000;
    assert(low_millis(Some(ms)) + k * 0x1_0000_0000_0000_0000 == ms);
}

/// A time that the clock can show is, to the millisecond, what has passed from the epoch to one of
/// its readings, with multiples of 2^64 dropped; for a reading before the epoch it is zero.
proof fn clock_times_are_kept_to_the_millisecond(now: u64)
    requires
        is_clock_time(now),
    ensures
        (exists|time: std::time::SystemTime, span: std::time::Duration, ms: u128|
            #![trigger is_reading_after(time, span, ms)]
            call_ensures(read_clock, (), time) && call_ensures(since_epoch, (time,), Some(span))
                && call_ensures(whole_millis, (span,), ms) && now == ms
                % 0x1_0000_0000_0000_0000u128) || (now == 0 && exists|time: std::time::SystemTime|
            #![trigger is_reading_before(time)]
            call_ensures(read_clock, (), time) && call_ensures(since_epoch, (time,), None)),
{
}

} // verus!
