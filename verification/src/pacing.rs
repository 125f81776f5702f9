//! Pacing of batch dispatches to a caller-supplied request rate.
//!
//! For a rate of `R` requests per minute, two batch dispatches must start at
//! least `60000 / R` milliseconds apart. The pacer keeps the timestamp of
//! the last dispatch and, asked at the current time, answers how long the
//! caller must still wait; before the first dispatch the wait is always
//! zero. Time is whatever monotone millisecond clock the caller reads —
//! the pacer never reads one itself.

use vstd::prelude::*;

verus! {

/// Keeps the dispatch gap and the time of the last dispatch.
pub struct Pacer {
    interval_ms: u64,
    last_dispatch: Option<u64>,
}

impl Pacer {
    /// The least gap, in milliseconds, between the starts of two dispatches.
    pub closed spec fn spec_interval(&self) -> u64 {
        self.interval_ms
    }

    /// When the last dispatch started, if one has.
    pub closed spec fn spec_last(&self) -> Option<u64> {
        self.last_dispatch
    }

    /// The gap never exceeds one minute: it is a minute divided by the rate.
    pub open spec fn wf(&self) -> bool {
        self.spec_interval() <= 60000
    }

    /// A pacer for a rate of `rate_limit_per_minute` requests per minute:
    /// the dispatch gap is `60000 / rate_limit_per_minute` milliseconds,
    /// and no dispatch has happened yet.
    pub fn new(rate_limit_per_minute: u64) -> (r: Pacer)
        requires
            rate_limit_per_minute > 0,
        ensures
            r.wf(),
            r.spec_interval() == 60000 as int / rate_limit_per_minute as int,
            r.spec_last() is None,
    {
        Pacer { interval_ms: 60000 / rate_limit_per_minute, last_dispatch: None }
    }

    /// How long the caller must still wait before dispatching at `now_ms`.
    ///
    /// The very first dispatch is never delayed. Afterwards, dispatching at
    /// `now_ms + d` honours the gap — `now_ms + d >= last + interval` — and
    /// the wait is no longer than the gap demands: zero once the gap has
    /// passed, and exactly what remains of it otherwise.
    pub fn wait_before_dispatch(&self, now_ms: u64) -> (d: u64)
        requires
            self.wf(),
            self.spec_last() matches Some(t) ==> now_ms >= t,
        ensures
            self.spec_last() is None ==> d == 0,
            self.spec_last() matches Some(t) ==> {
                &&& now_ms + d >= t + self.spec_interval()
                &&& (now_ms >= t + self.spec_interval() ==> d == 0)
                &&& (now_ms < t + self.spec_interval() ==> now_ms + d == t + self.spec_interval())
            },
    {
        match self.last_dispatch {
            None => 0,
            Some(t) => {
                let elapsed = now_ms - t;
                if elapsed >= self.interval_ms {
                    0
                } else {
                    self.interval_ms - elapsed
                }
            },
        }
    }

    /// Records that a dispatch started at `now_ms`.
    pub fn record_dispatch(&mut self, now_ms: u64)
        ensures
            final(self).spec_interval() == old(self).spec_interval(),
            final(self).spec_last() == Some(now_ms),
            old(self).wf() ==> final(self).wf(),
    {
        self.last_dispatch = Some(now_ms);
    }
}

} // verus!
