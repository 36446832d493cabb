//! Timing of one asynchronous computation: how long it took from its first
//! resumption to its completion, and how often it was resumed.

use vstd::prelude::*;
use std::time::{Duration, Instant};

verus! {

/// What a timed computation yields when it completes.
pub struct TimingResult<T> {
    /// What the computation itself yielded.
    pub output: T,
    /// The time from the first resumption to the completion.
    pub elapsed_time: Duration,
    /// How often the computation was resumed, the completing time included.
    pub poll: usize,
}

/// The timer that accompanies one asynchronous computation. Whoever drives
/// the computation hands each resumption to `poll`.
pub struct TimingFuture {
    elapsed: Option<Instant>,
    poll: usize,
}

impl TimingFuture {
    /// How often the computation has been resumed.
    pub closed spec fn polls(&self) -> nat {
        self.poll as nat
    }

    /// The instant of the first resumption, once there was one.
    pub closed spec fn started_at(&self) -> Option<Instant> {
        self.elapsed
    }

    /// A timer for a computation that has not been resumed yet. The clock is
    /// not read before the first resumption.
    pub fn new() -> (timer: Self)
        ensures
            timer.polls() == 0,
            timer.started_at() is None,
    {
        TimingFuture { elapsed: None, poll: 0 }
    }

    /// The number of resumptions so far.
    pub fn resumptions(&self) -> (count: usize)
        ensures
            count == self.polls(),
    {
        self.poll
    }

    /// Whether the computation has been resumed at all.
    pub fn is_started(&self) -> (started: bool)
        ensures
            started == self.started_at() is Some,
    {
        self.elapsed.is_some()
    }

    /// One resumption. The first one fixes the start instant; each one is
    /// counted before `inner` is asked whether the computation has completed.
    /// `inner` answers `None` while the computation is pending and its output
    /// once it is ready; the output comes back unchanged, with the resumption
    /// count and the time since the start.
    pub fn poll<T, F: FnOnce() -> Option<T>>(&mut self, inner: F) -> (r: Option<TimingResult<T>>)
        requires
            old(self).polls() < usize::MAX,
            inner.requires(()),
        ensures
            final(self).polls() == old(self).polls() + 1,
            final(self).started_at() is Some,
            old(self).started_at() is Some ==> final(self).started_at() == old(self).started_at(),
            match r {
                Some(done) => {
                    &&& inner.ensures((), Some(done.output))
                    &&& done.poll == final(self).polls()
                },
                None => inner.ensures((), None),
            },
    {
        let time = match self.elapsed {
            Some(start) => start,
            None => {
                let start = Instant::now();
                self.elapsed = Some(start);
                start
            },
        };
        self.poll += 1;
        match inner() {
            None => None,
            Some(output) => Some(
                TimingResult { output, elapsed_time: time.elapsed(), poll: self.poll },
            ),
        }
    }
}

} // verus!
