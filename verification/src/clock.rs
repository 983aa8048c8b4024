//! Readings of the clocks.

use std::time::{Instant, SystemTime};

use vstd::prelude::*;

verus! {

/// `std::time::Instant`, a point on the monotonic clock.
#[verifier::external_type_specification]
#[verifier::external_body]
pub struct ExInstant(Instant);

/// `Instant::now`: the current point on the monotonic clock.
#[verifier::external_body]
fn instant_now() -> Instant {
    Instant::now()
}

/// `Instant::elapsed`, in nanoseconds: the time since `origin` on the monotonic
/// clock, which is never less than nothing. How long it is is not said, because
/// the time decides.
#[verifier::external_body]
fn nanos_since(origin: &Instant) -> u128 {
    origin.elapsed().as_nanos()
}

/// `SystemTime::now`, in nanoseconds since the Unix epoch, or before it as an
/// error. Nothing is said of it, because the time decides.
#[verifier::external_body]
fn wall_nanos() -> Result<u128, u128> {
    match SystemTime::now().duration_since(SystemTime::UNIX_EPOCH) {
        Ok(after) => Ok(after.as_nanos()),
        Err(before) => Err(before.duration().as_nanos()),
    }
}

/// A span of time as a reading: the largest one where it is longer.
pub open spec fn shown(nanos: u128) -> i64 {
    if nanos <= i64::MAX {
        nanos as i64
    } else {
        i64::MAX
    }
}

/// A span of time as a reading.
fn show(nanos: u128) -> (n: i64)
    ensures
        n == shown(nanos),
        n >= 0,
{
    if nanos <= i64::MAX as u128 {
        nanos as i64
    } else {
        i64::MAX
    }
}

/// What the clocks show at one moment, in nanoseconds.
#[derive(Debug, Clone, Copy, PartialEq, Eq, Structural)]
pub struct Reading {
    /// The monotonic clock, counted from the moment the `Clock` was started.
    pub instant: i64,
    /// The wall clock, counted from the Unix epoch.
    pub wall: i64,
}

impl Reading {
    /// What is read when `elapsed` nanoseconds went by on the monotonic clock,
    /// and the wall clock is so far behind the epoch, or so far before it, which
    /// is the error.
    pub fn of(elapsed: u128, wall: Result<u128, u128>) -> (r: Self)
        ensures
            r.instant == shown(elapsed),
            r.instant >= 0,
            r.wall == match wall {
                Ok(after) => shown(after) as int,
                Err(before) => -shown(before),
            },
    {
        Reading {
            instant: show(elapsed),
            wall: match wall {
                Ok(after) => show(after),
                Err(before) => -show(before),
            },
        }
    }
}

/// The clocks, with the moment from which the monotonic one is counted.
#[derive(Debug, Clone, Copy)]
pub struct Clock {
    origin: Instant,
}

impl Clock {
    /// Starts counting.
    pub fn start() -> Clock {
        Clock { origin: instant_now() }
    }

    /// What the clocks show now. The monotonic one does not go behind the moment
    /// it was started.
    pub fn read(&self) -> (r: Reading)
        ensures
            r.instant >= 0,
    {
        Reading::of(nanos_since(&self.origin), wall_nanos())
    }

    /// What the monotonic clock shows now: it does not go behind the moment it
    /// was started.
    pub fn now(&self) -> (n: i64)
        ensures
            n >= 0,
    {
        show(nanos_since(&self.origin))
    }
}

/// Something made at `created` and good for `ttl` nanoseconds has expired at
/// `now`.
pub open spec fn expired(created: int, ttl: int, now: int) -> bool {
    now - created > ttl
}

/// Whether something made at `created` and good for `ttl` nanoseconds has
/// expired at `now`.
pub fn has_expired(created: i64, ttl: u64, now: i64) -> (r: bool)
    ensures
        r == expired(created as int, ttl as int, now as int),
{
    now as i128 - created as i128 > ttl as i128
}

/// What has not expired was made no longer ago than it is good for; what has
/// expired stays so as time goes by, and nothing has expired when it is made.
pub proof fn law_expiry(created: int, ttl: int, now: int, later: int)
    requires
        ttl >= 0,
        now <= later,
    ensures
        expired(created, ttl, now) <==> created + ttl < now,
        expired(created, ttl, now) ==> expired(created, ttl, later),
        !expired(created, ttl, created),
        !expired(created, ttl, created + ttl),
        expired(created, ttl, created + ttl + 1),
{
}

/// A span of time is shown as it is, as long as a reading can hold it, and a
/// longer one as no less than any other.
pub proof fn law_shown(nanos: u128, other: u128)
    ensures
        shown(nanos) >= 0,
        nanos <= i64::MAX ==> shown(nanos) == nanos,
        nanos > i64::MAX ==> shown(nanos) == 0x7fff_ffff_ffff_ffff,
        nanos <= other ==> shown(nanos) <= shown(other),
{
}

} // verus!
