//! The exponential backoff that spaces out reconnection attempts to a failing peer.
//! The policy itself is the `backoff` crate's. This module keeps it in a type that
//! only this module can make, beside the parameters it was made with, and gives its
//! three calls a place in verified code.

use vstd::prelude::*;
use backoff::backoff::Backoff;
use backoff::exponential::{ExponentialBackoff, ExponentialBackoffBuilder};
use backoff::SystemClock;
use std::time::Duration;

verus! {

/// `backoff::exponential::ExponentialBackoff`, taken as it is: nothing is known of
/// a value of it but what the items below say.
#[verifier::external_type_specification]
#[verifier::external_body]
#[verifier::reject_recursive_types(C)]
pub struct ExExponentialBackoff<C>(ExponentialBackoff<C>);

/// `backoff::SystemClock`, the clock that a backoff reads, taken as it is.
#[verifier::external_type_specification]
#[verifier::external_body]
pub struct ExSystemClock(SystemClock);

/// The largest number of seconds, and the largest factor, that a backoff is made
/// with. Within it no sum of an elapsed time and a delay leaves the range of a
/// duration.
pub const BACKOFF_PARAMETER_LIMIT: u64 = 0xffff_ffff;

/// The parameters of a backoff.
#[derive(Debug, Clone, Copy, PartialEq, Eq)]
pub struct BackoffParameters {
    /// The delay that the first one is drawn around, in seconds.
    pub initial_interval_secs: u64,
    /// The factor by which the delay grows from one attempt to the next.
    pub multiplier: u32,
    /// The longest delay that a delay is drawn around, in seconds.
    pub max_interval_secs: u64,
    /// The time after which the backoff gives up, in seconds since it was made or
    /// last reset.
    pub max_elapsed_secs: u64,
}

impl BackoffParameters {
    /// Whether the three times are within [`BACKOFF_PARAMETER_LIMIT`].
    pub open spec fn bounded(&self) -> bool {
        &&& self.initial_interval_secs <= BACKOFF_PARAMETER_LIMIT
        &&& self.max_interval_secs <= BACKOFF_PARAMETER_LIMIT
        &&& self.max_elapsed_secs <= BACKOFF_PARAMETER_LIMIT
    }
}

/// The backoff of one peer: the outside crate's policy and the parameters it was
/// made with. Only [`new_backoff`] makes one.
#[derive(Debug)]
pub struct PeerBackoff {
    policy: ExponentialBackoff<SystemClock>,
    parameters: BackoffParameters,
}

/// The interval of a backoff at this moment, in nanoseconds: the delay that the
/// next one is drawn around.
pub uninterp spec fn backoff_interval_nanos(b: PeerBackoff) -> nat;

impl PeerBackoff {
    /// The parameters that the backoff was made with.
    pub closed spec fn parameters(&self) -> BackoffParameters {
        self.parameters
    }

    /// Whether the backoff is where it started: its interval is the initial one.
    pub open spec fn is_fresh(&self) -> bool {
        backoff_interval_nanos(*self) == self.parameters().initial_interval_secs * 1_000_000_000
    }

    /// The parameters that the backoff was made with.
    pub fn get_parameters(&self) -> (r: BackoffParameters)
        ensures
            r == self.parameters(),
    {
        self.parameters
    }
}

/// Calls `ExponentialBackoffBuilder::new`, the four `with_..` setters and `build`
/// of the `backoff` crate, and keeps the parameters beside what was built. The
/// backoff has these parameters, and its interval is the initial one.
#[verifier::external_body]
pub(crate) fn new_backoff(parameters: BackoffParameters) -> (b: PeerBackoff)
    requires
        parameters.bounded(),
    ensures
        b.parameters() == parameters,
        backoff_interval_nanos(b) == parameters.initial_interval_secs * 1_000_000_000,
{
    let policy = ExponentialBackoffBuilder::new()
        .with_initial_interval(Duration::from_secs(parameters.initial_interval_secs))
        .with_multiplier(parameters.multiplier.into())
        .with_max_interval(Duration::from_secs(parameters.max_interval_secs))
        .with_max_elapsed_time(Some(Duration::from_secs(parameters.max_elapsed_secs)))
        .build();
    PeerBackoff { policy, parameters }
}

/// Calls `Backoff::next_backoff` of the `backoff` crate: the delay before the next
/// attempt, or `None` once the backoff has given up. The delay is drawn at random
/// and depends on the clock, so nothing is claimed of it, nor of the interval
/// afterwards. The parameters stay.
///
/// The call adds the time since the backoff was made or reset and the delay it
/// drew. Every backoff comes from [`new_backoff`], so its interval is at most
/// [`BACKOFF_PARAMETER_LIMIT`] seconds and the delay at most one and a half times
/// that: the sum stays within the range of a duration.
#[verifier::external_body]
pub(crate) fn next_backoff(backoff: &mut PeerBackoff) -> (delay: Option<Duration>)
    ensures
        final(backoff).parameters() == old(backoff).parameters(),
{
    backoff.policy.next_backoff()
}

/// Calls `Backoff::reset` of the `backoff` crate: the backoff starts over. Its
/// interval is the initial one again and its parameters stay. From when it counts
/// the time until it gives up depends on the clock; nothing is claimed of that.
#[verifier::external_body]
pub(crate) fn reset_backoff(backoff: &mut PeerBackoff)
    ensures
        final(backoff).parameters() == old(backoff).parameters(),
        backoff_interval_nanos(*final(backoff)) == old(backoff).parameters().initial_interval_secs
            * 1_000_000_000,
{
    backoff.policy.reset()
}

} // verus!
