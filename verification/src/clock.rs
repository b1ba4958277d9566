//! The wall clock.

use vstd::prelude::*;

verus! {

/// `SystemTime::now` as whole seconds since the unix epoch, where the clock
/// stands after it. Nothing is claimed of the value: it is the machine's.
#[verifier::external_body]
fn seconds_since_epoch() -> (seconds: Option<u64>) {
    std::time::SystemTime::now()
        .duration_since(std::time::UNIX_EPOCH)
        .ok()
        .map(|elapsed| elapsed.as_secs())
}

/// A reading of the clock in unix seconds: a clock that stands before the
/// epoch reads as the epoch itself.
pub fn clamp_to_epoch(reading: Option<u64>) -> (now: u64)
    ensures
        now == (match reading {
            Some(seconds) => seconds,
            None => 0,
        }),
{
    match reading {
        Some(seconds) => seconds,
        None => 0,
    }
}

/// Unix seconds now.
pub fn unix_now_secs() -> (now: u64) {
    clamp_to_epoch(seconds_since_epoch())
}

/// A clock before the epoch reads as the epoch, and any other as it stands.
pub proof fn law_what_a_clock_reads_as(seconds: u64, after: u64, before: u64)
    requires
        call_ensures(clamp_to_epoch, (Some(seconds),), after),
        call_ensures(clamp_to_epoch, (None::<u64>,), before),
    ensures
        after == seconds,
        before == 0,
{
}

} // verus!
