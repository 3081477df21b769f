//! The wall clock, in milliseconds since the Unix epoch.

use vstd::prelude::*;

verus! {

#[verifier::external_type_specification]
#[verifier::external_body]
pub struct ExSystemTime(std::time::SystemTime);

/// The current wall-clock time.
///
/// Calls `std::time::SystemTime::now`; what it returns depends on the
/// machine's clock, so nothing is stated of it.
#[verifier::external_body]
fn system_now() -> (t: std::time::SystemTime) {
    std::time::SystemTime::now()
}

/// The time from the Unix epoch to `t`, or `None` when `t` is earlier.
///
/// Calls `std::time::SystemTime::duration_since`. Nothing is stated of the
/// duration: `SystemTime` is opaque here.
#[verifier::external_body]
fn since_unix_epoch(t: &std::time::SystemTime) -> (d: Option<std::time::Duration>) {
    match t.duration_since(std::time::UNIX_EPOCH) {
        Ok(d) => Some(d),
        Err(_) => None,
    }
}

/// The whole milliseconds of `d`.
///
/// Calls `std::time::Duration::as_millis`. Nothing is stated of the value:
/// `Duration` is opaque here.
#[verifier::external_body]
fn whole_millis(d: &std::time::Duration) -> (ms: u128) {
    d.as_millis()
}

/// The clock value from a reading of the milliseconds since the Unix
/// epoch (`None`: the clock reads earlier than the epoch): the count taken
/// modulo 2^64, or `0`.
pub fn millis_or_zero(reading: Option<u128>) -> (r: u64)
    ensures
        r == match reading {
            Some(ms) => (ms % 0x1_0000_0000_0000_0000) as u64,
            None => 0u64,
        },
{
    match reading {
        Some(ms) => (ms % 0x1_0000_0000_0000_0000) as u64,
        None => 0,
    }
}

/// Milliseconds since the Unix epoch, by the machine's clock; `0` when the
/// clock reads earlier than the epoch. The count is taken modulo 2^64 (see
/// `millis_or_zero`); the reading itself depends on the clock, so nothing is
/// stated of it.
pub fn current_time_millis() -> u64 {
    let now = system_now();
    let reading = match since_unix_epoch(&now) {
        Some(d) => Some(whole_millis(&d)),
        None => None,
    };
    millis_or_zero(reading)
}

} // verus!
