//! Events that the library has to tell of itself.

use vstd::prelude::*;

use crate::envelope::{record, EnvelopeView, ObsEnvelope};
use crate::types::{EnumValue, SamplingReason, Severity, Tier};

verus! {

/// A point in time as the system clock has it.
#[verifier::external_type_specification]
#[verifier::external_body]
pub struct ExSystemTime(std::time::SystemTime);

/// Why one point in time is not after another.
#[verifier::external_type_specification]
#[verifier::external_body]
pub struct ExSystemTimeError(std::time::SystemTimeError);

/// `SystemTime::now` reads the clock. Nothing is promised of what it says.
pub assume_specification[ std::time::SystemTime::now ]() -> (r: std::time::SystemTime)
;

/// `SystemTime::duration_since` is the time between two points, or an error
/// where the other is later.
pub assume_specification[ std::time::SystemTime::duration_since ](
    t: &std::time::SystemTime,
    earlier: std::time::SystemTime,
) -> (r: Result<std::time::Duration, std::time::SystemTimeError>)
;

/// `Duration::as_nanos` is a duration in nanoseconds.
pub assume_specification[ std::time::Duration::as_nanos ](d: &std::time::Duration) -> (n: u128)
;

/// `UNIX_EPOCH` is the beginning of 1970.
#[verifier::external_body]
fn unix_epoch() -> (r: std::time::SystemTime) {
    std::time::UNIX_EPOCH
}

/// A duration in nanoseconds as a timestamp: the largest number where it does
/// not fit, zero where there is none.
pub open spec fn saturated(nanos: Option<u128>) -> u64 {
    match nanos {
        Some(n) => if n > u64::MAX {
            u64::MAX
        } else {
            n as u64
        },
        None => 0,
    }
}

/// The lowest 64 bits of a duration in nanoseconds, zero where there is none.
pub open spec fn truncated(nanos: Option<u128>) -> u64 {
    match nanos {
        Some(n) => (n % 0x1_0000_0000_0000_0000) as u64,
        None => 0,
    }
}

/// A duration in nanoseconds as a timestamp: the largest number where it does
/// not fit, zero where there is none.
pub fn saturated_ns(nanos: Option<u128>) -> (r: u64)
    ensures
        r == saturated(nanos),
{
    match nanos {
        Some(n) => {
            if n > u64::MAX as u128 {
                u64::MAX
            } else {
                n as u64
            }
        },
        None => 0,
    }
}

/// The lowest 64 bits of a duration in nanoseconds, zero where there is none.
pub fn truncated_ns(nanos: Option<u128>) -> (r: u64)
    ensures
        r == truncated(nanos),
{
    match nanos {
        Some(n) => (n % 0x1_0000_0000_0000_0000) as u64,
        None => 0,
    }
}

/// The time in nanoseconds since 1970, unless the clock stands before that.
/// What it is depends on the clock alone.
fn clock_nanos() -> (r: Option<u128>)
    ensures
        exists|
            epoch: std::time::SystemTime,
            now: std::time::SystemTime,
            since: Result<std::time::Duration, std::time::SystemTimeError>,
        |
            {
                &&& call_ensures(unix_epoch, (), epoch)
                &&& call_ensures(std::time::SystemTime::now, (), now)
                &&& #[trigger] nanos_between(epoch, now, since, r)
            },
{
    let epoch = unix_epoch();
    let now = std::time::SystemTime::now();
    let since = now.duration_since(epoch);
    let ghost held = since;
    let r = match since {
        Ok(d) => Some(d.as_nanos()),
        Err(_) => None,
    };
    proof {
        assert(nanos_between(epoch, now, held, r));
    }
    r
}

/// Whether `nanos` is what a clock that reads `now` gives: the nanoseconds of
/// the time since `epoch`, and nothing where `now` stands before it.
spec fn nanos_between(
    epoch: std::time::SystemTime,
    now: std::time::SystemTime,
    since: Result<std::time::Duration, std::time::SystemTimeError>,
    nanos: Option<u128>,
) -> bool {
    &&& call_ensures(std::time::SystemTime::duration_since, (&now, epoch), since)
    &&& match (since, nanos) {
        (Ok(d), Some(n)) => call_ensures(std::time::Duration::as_nanos, (&d,), n),
        (Err(_), None) => true,
        _ => false,
    }
}

/// Whether a look at the clock can give so many nanoseconds since 1970, or
/// none where it stands before that.
pub closed spec fn clock_reads(nanos: Option<u128>) -> bool {
    call_ensures(clock_nanos, (), nanos)
}

/// Whether a timestamp is what the clock said, or the largest number where
/// that did not fit.
pub open spec fn is_clock_time(ts_ns: u64) -> bool {
    exists|n: Option<u128>| #[trigger] clock_reads(n) && ts_ns == saturated(n)
}

/// Whether a timestamp is the lowest 64 bits of what the clock said.
pub open spec fn is_wall_time(ts_ns: u64) -> bool {
    exists|n: Option<u128>| #[trigger] clock_reads(n) && ts_ns == truncated(n)
}

/// One look at the clock.
pub(crate) fn look_at_clock() -> (r: Option<u128>)
    ensures
        clock_reads(r),
{
    clock_nanos()
}

/// The time in nanoseconds since 1970. What the clock says is left to it.
#[must_use]
pub fn now_ns() -> (r: u64)
    ensures
        is_clock_time(r),
{
    saturated_ns(look_at_clock())
}

/// The lowest 64 bits of the time in nanoseconds since 1970. What the clock
/// says is left to it.
pub(crate) fn wall_ns() -> (r: u64)
    ensures
        is_wall_time(r),
{
    truncated_ns(look_at_clock())
}

/// An event of the library itself, at a given time.
pub open spec fn own_event(full_name: Seq<char>, tier: Tier, sev: Severity, ts_ns: u64) -> EnvelopeView {
    EnvelopeView {
        full_name,
        tier: EnumValue::Known(tier),
        sev: EnumValue::Known(sev),
        sampling_reason: EnumValue::Known(SamplingReason::Runtime),
        ts_ns,
        ..record::empty_envelope()
    }
}

/// An event of the library itself, at a given time.
#[must_use]
pub fn self_event_at(full_name: &str, tier: Tier, sev: Severity, ts_ns: u64) -> (r: ObsEnvelope)
    ensures
        r@ == own_event(full_name@, tier, sev, ts_ns),
{
    let mut env = ObsEnvelope::default();
    env.full_name = full_name.to_string();
    env.tier = EnumValue::Known(tier);
    env.sev = EnumValue::Known(sev);
    env.sampling_reason = EnumValue::Known(SamplingReason::Runtime);
    env.ts_ns = ts_ns;
    env
}

/// An event of the library itself, now.
#[must_use]
pub fn self_event(full_name: &str, tier: Tier, sev: Severity) -> (r: ObsEnvelope)
    ensures
        r@ == own_event(full_name@, tier, sev, r@.ts_ns),
        is_clock_time(r@.ts_ns),
{
    self_event_at(full_name, tier, sev, now_ns())
}

/// A duration that fits is the timestamp. A longer one is the largest number by
/// the one rule and what is left over by the other; without one it is zero.
pub proof fn law_a_duration_that_fits_is_the_timestamp(n: u128)
    ensures
        n <= u64::MAX ==> saturated(Some(n)) == n && truncated(Some(n)) == n,
        n > u64::MAX ==> saturated(Some(n)) == u64::MAX,
        exists|k: int|
            #![trigger (k * 0x1_0000_0000_0000_0000)]
            n == k * 0x1_0000_0000_0000_0000 + truncated(Some(n)),
        saturated(None) == 0,
        truncated(None) == 0,
{
    let k = n as int / 0x1_0000_0000_0000_0000;
    assert(n == k * 0x1_0000_0000_0000_0000 + truncated(Some(n)));
}

/// A later look at the clock gives no earlier timestamp.
pub proof fn law_timestamps_do_not_go_back(a: u128, b: u128)
    requires
        a <= b,
    ensures
        saturated(Some(a)) <= saturated(Some(b)),
{
}

/// An event of the library itself says so in its reason, and is otherwise what
/// it is asked to be, with nothing else in it.
pub proof fn law_own_events_say_so(full_name: Seq<char>, tier: Tier, sev: Severity, ts_ns: u64)
    ensures
        ({
            let env = own_event(full_name, tier, sev, ts_ns);
            &&& env.full_name == full_name
            &&& env.tier == EnumValue::Known(tier)
            &&& env.sev == EnumValue::Known(sev)
            &&& env.ts_ns == ts_ns
            &&& env.sampling_reason == EnumValue::Known(SamplingReason::Runtime)
            &&& env.labels == Map::<Seq<char>, Seq<char>>::empty()
            &&& env.payload.len() == 0
            &&& env.trace_id.len() == 0
            &&& env.span_id.len() == 0
        }),
{
}

} // verus!
