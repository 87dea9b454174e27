//! Logical time: epoch-milliseconds carried as a plain `i64`.

use vstd::prelude::*;

verus! {

/// Milliseconds since the Unix epoch (UTC).
pub type Millis = i64;

/// A logical instant, milliseconds since the Unix epoch.
#[derive(Debug, Clone, Copy, PartialEq, Eq, Structural, PartialOrd, Ord, Hash)]
pub struct Timestamp(pub i64);

impl Timestamp {
    pub fn from_millis(ms: Millis) -> (t: Timestamp)
        ensures
            t.0 == ms,
    {
        Timestamp(ms)
    }

    pub fn millis(self) -> (ms: Millis)
        ensures
            ms == self.0,
    {
        self.0
    }

    /// Age in milliseconds relative to `now`. Negative if `self` is in the future.
    pub fn age_ms(self, now: Timestamp) -> (age: Millis)
        requires
            i64::MIN <= now.0 - self.0 <= i64::MAX,
        ensures
            age == now.0 - self.0,
    {
        now.0 - self.0
    }

    pub fn plus_ms(self, ms: Millis) -> (t: Timestamp)
        requires
            i64::MIN <= self.0 + ms <= i64::MAX,
        ensures
            t.0 == self.0 + ms,
    {
        Timestamp(self.0 + ms)
    }
}

/// An age measured from `t` to `t` shifted by `d` is `d`.
pub proof fn lemma_age_of_shift(t: Timestamp, d: Millis)
    requires
        i64::MIN <= t.0 + d <= i64::MAX,
    ensures
        (t.0 + d) - t.0 == d,
{
}

impl From<Millis> for Timestamp {
    fn from(ms: Millis) -> (t: Timestamp) {
        Timestamp(ms)
    }
}

impl vstd::std_specs::convert::FromSpecImpl<Millis> for Timestamp {
    open spec fn obeys_from_spec() -> bool {
        true
    }

    open spec fn from_spec(ms: Millis) -> Timestamp {
        Timestamp(ms)
    }
}

} // verus!
