//! Time sources.
//!
//! Nothing on the fusion path reads the wall clock directly. A [`Clock`] is
//! injected: live operation uses [`SystemClock`], replay uses [`ManualClock`]
//! driven by the scenario's timestamps, which makes replay reproducible.

use vstd::prelude::*;

use crate::time::Timestamp;

verus! {

pub trait Clock {
    fn now(&self) -> Timestamp;
}

/// Wall-clock time. Used in live operation only.
#[derive(Debug, Default, Clone, Copy)]
pub struct SystemClock;

/// An instant of the operating system's clock.
#[verifier::external_type_specification]
#[verifier::external_body]
pub struct ExSystemTime(std::time::SystemTime);

/// The error of reading an instant that lies before a reference instant.
#[verifier::external_type_specification]
#[verifier::external_body]
pub struct ExSystemTimeError(std::time::SystemTimeError);

/// `SystemTime::now`: the operating system's current time. It depends on
/// the moment of the call, so nothing is stated of it.
#[verifier::external_body]
fn system_time_now() -> std::time::SystemTime {
    std::time::SystemTime::now()
}

/// `SystemTime::duration_since(UNIX_EPOCH)`: how long after the Unix epoch
/// `t` lies, or an error when it lies before. What it returns for a given
/// instant is not stated here.
#[verifier::external_body]
fn since_unix_epoch(t: &std::time::SystemTime) -> Result<std::time::Duration, std::time::SystemTimeError> {
    t.duration_since(std::time::UNIX_EPOCH)
}

/// `Duration::as_millis`: the whole milliseconds of a duration. Durations
/// are opaque here, so nothing is stated of the result.
#[verifier::external_body]
fn whole_millis(d: &std::time::Duration) -> u128 {
    d.as_millis()
}

/// The instant `ms` milliseconds after the epoch, truncated to 64 bits as the
/// clock does; a clock reading before the epoch counts as the epoch.
pub fn timestamp_from_epoch_millis(ms: Option<u128>) -> (t: Timestamp)
    ensures
        t.0 == match ms {
            Some(m) => m as i64,
            None => 0,
        },
{
    match ms {
        Some(m) => Timestamp(m as i64),
        None => Timestamp(0),
    }
}

impl Clock for SystemClock {
    fn now(&self) -> (t: Timestamp) {
        let ms = match since_unix_epoch(&system_time_now()) {
            Ok(d) => Some(whole_millis(&d)),
            Err(_) => None,
        };
        timestamp_from_epoch_millis(ms)
    }
}

/// A clock whose value is set explicitly. Replay uses it so that "now"
/// advances in lockstep with scenario events rather than wall time.
#[derive(Debug)]
pub struct ManualClock {
    now_ms: i64,
}

impl ManualClock {
    /// The instant the clock reads.
    pub closed spec fn reading(&self) -> Timestamp {
        Timestamp(self.now_ms)
    }

    pub fn new(start: Timestamp) -> (c: ManualClock)
        ensures
            c.reading() == start,
    {
        ManualClock { now_ms: start.0 }
    }

    /// Advances (or rewinds) to an explicit instant.
    pub fn set(&mut self, t: Timestamp)
        ensures
            final(self).reading() == t,
    {
        self.now_ms = t.0;
    }
}

impl Clock for ManualClock {
    fn now(&self) -> (t: Timestamp)
        ensures
            t == self.reading(),
    {
        Timestamp(self.now_ms)
    }
}

/// A manual clock reads the instant it was last set to, until set again.
pub proof fn lemma_manual_clock_reads_last_set(c: ManualClock, t: Timestamp)
    requires
        c.reading() == t,
    ensures
        Timestamp(t.0) == c.reading(),
{
}

} // verus!
