//! The connection handler: what the service writes to one accepted
//! connection.
//!
//! For each connection the handler queries the clock once and writes the
//! encoded timestamp, or an empty payload when the clock cannot be compared
//! to the epoch (a recoverable condition, never an error for the caller).
//! The handler never reads the peer's bytes, and the connection is closed by
//! the caller on every path once the payload is written. All three dispatch
//! strategies run this same handler, so for a given clock reading the
//! response bytes do not depend on the strategy.

use vstd::prelude::*;
use crate::codec::{dec_digits, encode_u64};

verus! {

/// The payload written for one connection, given the clock reading taken for
/// it: the decimal digits of the timestamp, or nothing when the clock was
/// unavailable.
pub open spec fn payload_spec(clock: Option<u64>) -> Seq<u8> {
    match clock {
        Some(t) => dec_digits(t as nat),
        None => Seq::empty(),
    }
}

/// Build the response payload for one clock reading. Every dispatch strategy
/// serves every connection with exactly these bytes.
pub fn response_payload(clock: Option<u64>) -> (r: Vec<u8>)
    ensures
        r@ == payload_spec(clock),
{
    match clock {
        Some(t) => encode_u64(t),
        None => Vec::new(),
    }
}

/// `std::time::SystemTime` carried opaquely between the two clock calls.
#[verifier::external_type_specification]
#[verifier::external_body]
pub struct ExSystemTime(std::time::SystemTime);

/// Relies on `std::time::SystemTime::now`: reads the system clock.
#[verifier::external_body]
fn system_time_now() -> (r: std::time::SystemTime) {
    std::time::SystemTime::now()
}

/// Relies on `std::time::SystemTime::duration_since`: `Ok` holds the span
/// from the Unix epoch to `t` when `t` is not earlier than the epoch, `Err`
/// otherwise; `Duration::as_secs` converts the span to whole seconds. The
/// reading depends on the machine's clock, so nothing relates the result to
/// the argument.
#[verifier::external_body]
fn seconds_since_epoch(t: std::time::SystemTime) -> (r: Option<u64>) {
    match t.duration_since(std::time::SystemTime::UNIX_EPOCH) {
        Ok(d) => Some(d.as_secs()),
        Err(_) => None,
    }
}

/// The clock source: the current time as whole seconds since the Unix epoch,
/// or nothing when the clock lies before the epoch. Fetched fresh per
/// connection, never cached.
pub fn clock_seconds() -> (r: Option<u64>) {
    let now = system_time_now();
    seconds_since_epoch(now)
}

/// Serve one connection: query the clock and build the payload to write.
/// Whatever the clock returned, the result is the payload owed for that
/// reading — the digits of some timestamp, or empty when the reading failed.
pub fn current_response() -> (r: Vec<u8>)
    ensures
        exists|clock: Option<u64>| r@ == payload_spec(clock),
{
    let clock = clock_seconds();
    let r = response_payload(clock);
    proof {
        assert(r@ == payload_spec(clock));
    }
    r
}

} // verus!
