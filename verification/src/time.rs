use vstd::prelude::*;
use std::time::{Duration, SystemTime};

verus! {

#[verifier::external_type_specification]
#[verifier::external_body]
pub struct ExSystemTime(SystemTime);

/// The machine clock's current reading (`SystemTime::now`); nothing is promised of it.
#[verifier::external_body]
fn system_time_now() -> SystemTime {
    SystemTime::now()
}

/// How long after the Unix epoch `t` lies (`SystemTime::duration_since`), or `None`
/// when `t` is earlier than the epoch; nothing more is promised of the duration.
#[verifier::external_body]
fn since_unix_epoch(t: &SystemTime) -> Option<Duration> {
    t.duration_since(std::time::UNIX_EPOCH).ok()
}

/// The whole seconds of a duration (`Duration::as_secs`); nothing more is promised.
#[verifier::external_body]
fn whole_seconds(d: &Duration) -> u64 {
    d.as_secs()
}

/// Wall-clock seconds since the Unix epoch, for provenance and logging; `None` when the
/// machine clock reads earlier than the epoch (time went backwards).
pub fn wall_clock_secs() -> (r: Option<u64>) {
    let now = system_time_now();
    match since_unix_epoch(&now) {
        Some(d) => Some(whole_seconds(&d)),
        None => None,
    }
}

/// A clock that distinguishes external wall time from the internal monotonic
/// simulation sequence.
pub trait CausalClock {
    /// Unix timestamp in seconds. Used for provenance, logging, saves and mod history;
    /// `None` when the machine clock reads earlier than the epoch.
    fn wall_epoch(&self) -> Option<u64>;

    /// Monotonic internal counter. Used for strict internal ordering and contract validation.
    fn causal_seq(&self) -> u64;
}

/// Heartbeat clock: counts causal ticks since the simulation started.
#[derive(Debug)]
pub struct GlobalTickClock {
    seq: u64,
}

impl GlobalTickClock {
    /// The number of ticks counted so far.
    pub closed spec fn ticks(&self) -> u64 {
        self.seq
    }

    /// A clock at tick 0.
    pub fn new() -> (c: GlobalTickClock)
        ensures
            c.ticks() == 0,
    {
        GlobalTickClock { seq: 0 }
    }

    /// Advances the clock by one tick.
    pub fn increment(&mut self)
        requires
            old(self).ticks() < u64::MAX,
        ensures
            final(self).ticks() == old(self).ticks() + 1,
    {
        self.seq = self.seq + 1;
    }
}

impl Default for GlobalTickClock {
    fn default() -> (c: GlobalTickClock)
        ensures
            c.ticks() == 0,
    {
        GlobalTickClock::new()
    }
}

impl CausalClock for GlobalTickClock {
    fn wall_epoch(&self) -> (r: Option<u64>) {
        wall_clock_secs()
    }

    fn causal_seq(&self) -> (r: u64)
        ensures
            r == self.ticks(),
    {
        self.seq
    }
}

} // verus!
