//! Settings of the sender-report interceptor: how often reports go out,
//! and an optional clock to stamp them with.
use vstd::prelude::*;

verus! {

/// The interval between sender reports when none is set: one second.
pub const DEFAULT_INTERVAL_NANOS: u64 = 1_000_000_000;

/// The settings of a sender-report interceptor; `N` is the type of the
/// clock function.
pub struct SenderBuilder<N> {
    interval: Option<u64>,
    now: Option<N>,
}

impl<N> SenderBuilder<N> {
    /// The interval set, in nanoseconds, if one was.
    pub closed spec fn spec_interval(&self) -> Option<u64> {
        self.interval
    }

    /// The clock set, if one was.
    pub closed spec fn spec_now(&self) -> Option<N> {
        self.now
    }

    /// Settings with neither interval nor clock.
    pub fn new() -> (r: Self)
        ensures
            r.spec_interval() is None,
            r.spec_now() is None,
    {
        SenderBuilder { interval: None, now: None }
    }

    /// Sets the interval between reports, in nanoseconds.
    pub fn with_interval(self, interval: u64) -> (r: Self)
        ensures
            r.spec_interval() == Some(interval),
            r.spec_now() == self.spec_now(),
    {
        SenderBuilder { interval: Some(interval), now: self.now }
    }

    /// Sets the clock that stamps the reports in place of the system time.
    pub fn with_now_fn(self, now: N) -> (r: Self)
        ensures
            r.spec_interval() == self.spec_interval(),
            r.spec_now() == Some(now),
    {
        SenderBuilder { interval: self.interval, now: Some(now) }
    }

    /// The interval the interceptor is built with: the one set, or one
    /// second.
    pub fn interval(&self) -> (r: u64)
        ensures
            r == match self.spec_interval() {
                Some(i) => i,
                None => DEFAULT_INTERVAL_NANOS,
            },
    {
        match self.interval {
            Some(i) => i,
            None => DEFAULT_INTERVAL_NANOS,
        }
    }

    /// Takes the clock out of the settings.
    pub fn take_now(&mut self) -> (r: Option<N>)
        ensures
            r == old(self).spec_now(),
            final(self).spec_now() is None,
            final(self).spec_interval() == old(self).spec_interval(),
    {
        self.now.take()
    }
}

} // verus!
