//! Wall-clock readings as durations since the Unix epoch, for stamping
//! queued messages.

use vstd::prelude::*;

verus! {

/// A duration since the Unix epoch: whole seconds, and the nanoseconds
/// within the current second.
pub struct EpochDuration {
    pub secs: u64,
    pub nanos: u32,
}

/// A well-formed duration keeps its nanosecond part below one second.
pub open spec fn epoch_duration_wf(d: EpochDuration) -> bool {
    d.nanos < 1_000_000_000
}

/// Relies on std's SystemTime::now and SystemTime::duration_since: the
/// result is the clock's distance from the Unix epoch, whose subsecond
/// part is below one billion nanoseconds. Stops the program if the clock
/// reads before the epoch: such a clock cannot stamp messages.
#[verifier::external_body]
fn clock_now_since_epoch() -> (r: (u64, u32))
    ensures
        r.1 < 1_000_000_000,
{
    let d = std::time::SystemTime::now().duration_since(std::time::UNIX_EPOCH).expect(
        "Fatal error occurred: System time moved backwards! Are you a time traveler?",
    );
    (d.as_secs(), d.subsec_nanos())
}

/// The wall clock now, as a duration since the Unix epoch.
pub fn systime() -> (r: EpochDuration)
    ensures
        epoch_duration_wf(r),
{
    let (secs, nanos) = clock_now_since_epoch();
    EpochDuration { secs, nanos }
}

#[verifier::external_type_specification]
#[verifier::external_body]
pub struct ExSystemTime(std::time::SystemTime);

/// Relies on std's SystemTime::duration_since: the given instant's
/// distance from the Unix epoch, whose subsecond part is below one
/// billion nanoseconds. Stops the program if the instant lies before the
/// epoch: such a clock cannot stamp messages.
#[verifier::external_body]
pub fn to_epoch(time: std::time::SystemTime) -> (r: EpochDuration)
    ensures
        epoch_duration_wf(r),
{
    let d = time.duration_since(std::time::UNIX_EPOCH).expect(
        "Fatal error occurred: System time moved backwards! Are you a time traveler?",
    );
    EpochDuration { secs: d.as_secs(), nanos: d.subsec_nanos() }
}

} // verus!
