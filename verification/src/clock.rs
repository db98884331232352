//! Wall-clock time as the catalog and the log record it.
use vstd::prelude::*;

verus! {

#[verifier::external_type_specification]
#[verifier::external_body]
pub struct ExSystemTime(std::time::SystemTime);

/// `SystemTime::now`.
///
/// Trusted for nothing: the result is the machine's clock.
#[verifier::external_body]
fn system_now() -> std::time::SystemTime {
    std::time::SystemTime::now()
}

/// `SystemTime::duration_since(UNIX_EPOCH)`: how long after the Unix epoch
/// `t` is, or `None` when it is before.
///
/// Trusted for nothing: the result depends on the clock reading.
#[verifier::external_body]
fn since_epoch(t: &std::time::SystemTime) -> Option<std::time::Duration> {
    t.duration_since(std::time::UNIX_EPOCH).ok()
}

/// `Duration::as_secs`: the whole seconds of a duration.
///
/// Trusted for nothing: a duration is opaque here.
#[verifier::external_body]
fn whole_secs(d: &std::time::Duration) -> u64 {
    d.as_secs()
}

/// `Duration::as_millis`: the whole milliseconds of a duration.
///
/// Trusted for nothing: a duration is opaque here.
#[verifier::external_body]
fn whole_millis(d: &std::time::Duration) -> u128 {
    d.as_millis()
}

/// A reading of whole seconds as a signed timestamp: the seconds taken as
/// an `i64` (wrapping past its range, as a cast does), 0 for no reading.
pub open spec fn stamp_of(secs: Option<u64>) -> i64 {
    match secs {
        Some(s) => if s <= i64::MAX {
            s as i64
        } else {
            (s - 0x1_0000_0000_0000_0000) as i64
        },
        None => 0,
    }
}

/// The timestamp recorded for a clock reading.
pub fn stamp(secs: Option<u64>) -> (t: i64)
    ensures
        t == stamp_of(secs),
{
    match secs {
        Some(s) => {
            if s <= 9223372036854775807u64 {
                s as i64
            } else {
                let low = (s - 9223372036854775808u64) as i64;
                low - 9223372036854775807i64 - 1
            }
        },
        None => 0,
    }
}

/// Seconds since the Unix epoch (0 when the clock is before it).
pub fn now() -> (t: i64) {
    let secs = match since_epoch(&system_now()) {
        Some(d) => Some(whole_secs(&d)),
        None => None,
    };
    stamp(secs)
}

/// Milliseconds since the Unix epoch (0 when the clock is before it).
pub fn now_ms() -> (t: u128) {
    match since_epoch(&system_now()) {
        Some(d) => whole_millis(&d),
        None => 0,
    }
}

} // verus!
