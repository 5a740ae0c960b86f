//! Pruning deadlines and the clock they are measured against.
use vstd::prelude::*;
use crate::error::Error;

verus! {

#[verifier::external_type_specification]
#[verifier::external_body]
pub struct ExSystemTime(std::time::SystemTime);

/// Relies on `std::time::SystemTime::now`: the wall-clock time at the call.
#[verifier::external_body]
fn system_now() -> (r: std::time::SystemTime) {
    std::time::SystemTime::now()
}

/// Relies on `std::time::SystemTime::duration_since` with `UNIX_EPOCH`: the
/// time elapsed since the epoch, or `None` when `t` is before it.
#[verifier::external_body]
fn since_epoch(t: &std::time::SystemTime) -> (r: Option<std::time::Duration>) {
    t.duration_since(std::time::UNIX_EPOCH).ok()
}

/// Relies on `std::time::Duration::as_millis`: the whole milliseconds of `d`.
#[verifier::external_body]
fn whole_millis(d: &std::time::Duration) -> (r: u128) {
    d.as_millis()
}

/// A count of milliseconds as a `u64`; `Error::Time` when it does not fit.
pub fn millis_in_u64(ms: u128) -> (r: Result<u64, Error>)
    ensures
        ms <= u64::MAX ==> r == Ok::<u64, Error>(ms as u64),
        ms > u64::MAX ==> r == Err::<u64, Error>(Error::Time),
{
    if ms <= u64::MAX as u128 {
        Ok(ms as u64)
    } else {
        Err(Error::Time)
    }
}

/// The current time in milliseconds since the epoch: `Error::Time` when the
/// clock is before the epoch, otherwise the clock's whole milliseconds as
/// `millis_in_u64` converts them.
pub fn now_millis() -> (r: Result<u64, Error>)
    ensures
        r is Err ==> r == Err::<u64, Error>(Error::Time),
{
    let t = system_now();
    match since_epoch(&t) {
        Some(d) => millis_in_u64(whole_millis(&d)),
        None => Err(Error::Time),
    }
}

/// When a record is due for pruning: at a point in time, counted in
/// milliseconds since the UNIX epoch, or never while the record is in a state
/// that keeps it indefinitely.
#[derive(Clone, Copy, Debug, PartialEq, Eq, Structural)]
pub enum PruningDelay {
    /// Prune once the clock reaches this many milliseconds since the epoch.
    In(u64),
    /// No deadline: the data is kept until its state changes.
    Indefinite,
}

/// `now + keep` as a deadline, when the sum fits in a `u64`.
pub open spec fn deadline_after(now: u64, keep: u64) -> Result<PruningDelay, Error> {
    if now + keep <= u64::MAX {
        Ok(PruningDelay::In((now + keep) as u64))
    } else {
        Err(Error::Time)
    }
}

impl PruningDelay {
    /// The total order of deadlines: points in time by their value, and every
    /// point in time strictly before `Indefinite`.
    pub open spec fn spec_le(self, other: PruningDelay) -> bool {
        match (self, other) {
            (PruningDelay::In(a), PruningDelay::In(b)) => a <= b,
            (_, PruningDelay::Indefinite) => true,
            (PruningDelay::Indefinite, PruningDelay::In(_)) => false,
        }
    }

    /// Whether `self` comes no later than `other`.
    pub fn le(&self, other: &PruningDelay) -> (r: bool)
        ensures
            r == self.spec_le(*other),
    {
        match (self, other) {
            (PruningDelay::In(a), PruningDelay::In(b)) => *a <= *b,
            (_, PruningDelay::Indefinite) => true,
            (PruningDelay::Indefinite, PruningDelay::In(_)) => false,
        }
    }

    /// The deadline that is the present moment.
    pub fn now() -> (r: Result<PruningDelay, Error>)
        ensures
            r is Ok ==> r->Ok_0 is In,
            r is Err ==> r == Err::<PruningDelay, Error>(Error::Time),
    {
        match now_millis() {
            Ok(t) => Ok(PruningDelay::In(t)),
            Err(e) => Err(e),
        }
    }

    /// The deadline `keep` milliseconds after `now`; `Error::Time` when it
    /// does not fit.
    pub fn after(now: u64, keep: u64) -> (r: Result<PruningDelay, Error>)
        ensures
            r == deadline_after(now, keep),
    {
        match now.checked_add(keep) {
            Some(t) => Ok(PruningDelay::In(t)),
            None => Err(Error::Time),
        }
    }

    /// The deadline `keep` milliseconds from the present moment.
    pub fn into_the_future(keep: u64) -> (r: Result<PruningDelay, Error>)
        ensures
            r is Ok ==> r->Ok_0 is In && r->Ok_0->In_0 >= keep,
            r is Err ==> r == Err::<PruningDelay, Error>(Error::Time),
    {
        match now_millis() {
            Ok(t) => PruningDelay::after(t, keep),
            Err(e) => Err(e),
        }
    }

    /// The point in time of the deadline, if it has one.
    pub fn as_duration(&self) -> (r: Option<u64>)
        ensures
            r == (match *self {
                PruningDelay::In(t) => Some(t),
                PruningDelay::Indefinite => None,
            }),
    {
        match self {
            PruningDelay::In(t) => Some(*t),
            PruningDelay::Indefinite => None,
        }
    }

    /// The deadline at the given point in time.
    pub fn from(t: u64) -> (r: PruningDelay)
        ensures
            r == PruningDelay::In(t),
    {
        PruningDelay::In(t)
    }
}

/// How long to wait from `now` until `wake`: nothing when `wake` has passed.
pub open spec fn wait_until(wake: u64, now: u64) -> u64 {
    if wake >= now { (wake - now) as u64 } else { 0 }
}

/// The cached point in time of the next pruning of full available data.
#[derive(Clone, Copy, Debug, PartialEq, Eq, Structural)]
pub struct NextPoVPruning(pub u64);

/// The cached point in time of the next pruning of erasure chunks.
#[derive(Clone, Copy, Debug, PartialEq, Eq, Structural)]
pub struct NextChunkPruning(pub u64);

impl NextPoVPruning {
    /// How long after `now` the pruning should fire.
    pub fn fire_in(&self, now: u64) -> (r: u64)
        ensures
            r == wait_until(self.0, now),
    {
        if self.0 >= now { self.0 - now } else { 0 }
    }

    /// How long from the present moment the pruning should fire.
    pub fn should_fire_in(&self) -> (r: Result<u64, Error>)
        ensures
            r is Ok ==> r->Ok_0 <= self.0,
            r is Err ==> r == Err::<u64, Error>(Error::Time),
    {
        match now_millis() {
            Ok(now) => Ok(self.fire_in(now)),
            Err(e) => Err(e),
        }
    }
}

impl NextChunkPruning {
    /// How long after `now` the pruning should fire.
    pub fn fire_in(&self, now: u64) -> (r: u64)
        ensures
            r == wait_until(self.0, now),
    {
        if self.0 >= now { self.0 - now } else { 0 }
    }

    /// How long from the present moment the pruning should fire.
    pub fn should_fire_in(&self) -> (r: Result<u64, Error>)
        ensures
            r is Ok ==> r->Ok_0 <= self.0,
            r is Err ==> r == Err::<u64, Error>(Error::Time),
    {
        match now_millis() {
            Ok(now) => Ok(self.fire_in(now)),
            Err(e) => Err(e),
        }
    }
}

} // verus!
