//! The measurement engine: calibration, measurement batches, and the record
//! of their samples.

use vstd::prelude::*;
use std::time::Instant;
use crate::async_run::{AsyncRun, Next, RunState};
use crate::stats::{BenchError, Stats, Step};
use crate::track_allocator::{AllocEvent, Counters, Tracker};

verus! {

/// Nanoseconds that one measurement batch is meant to last.
pub const BATCH_NANOS: u128 = 1_000_000;

/// How many back-to-back calls make up one batch, for a workload whose single
/// call took `single_ns` nanoseconds: as many as fit into a millisecond, and
/// at least one. A call of no measurable length counts as one nanosecond.
pub open spec fn spec_repetitions(single_ns: u128) -> nat {
    let per_call: nat = if single_ns == 0 { 1 } else { single_ns as nat };
    let fit: nat = BATCH_NANOS as nat / per_call;
    if fit == 0 { 1 } else { fit }
}

/// The number of calls per batch for a workload whose single call took
/// `single_ns` nanoseconds.
pub fn repetitions(single_ns: u128) -> (n: usize)
    ensures
        n == spec_repetitions(single_ns),
        1 <= n <= 1_000_000,
{
    let per_call: u128 = if single_ns == 0 { 1 } else { single_ns };
    let fit: u128 = BATCH_NANOS / per_call;
    assert(fit <= 1_000_000) by (nonlinear_arith)
        requires
            fit == 1_000_000u128 / per_call,
            per_call >= 1,
    ;
    if fit == 0 { 1 } else { fit as usize }
}

/// A batch of the calibrated size lasts a millisecond at most, and one more
/// call would take it past a millisecond, if every call takes as long as the
/// calibrating one did and that one took no more than a millisecond. A
/// slower workload is called once per batch.
pub proof fn lemma_batch_fills_millisecond(single_ns: u128)
    ensures
        1 <= single_ns <= 1_000_000 ==> spec_repetitions(single_ns) * single_ns <= 1_000_000 < (
        spec_repetitions(single_ns) + 1) * single_ns,
        single_ns > 1_000_000 ==> spec_repetitions(single_ns) == 1,
        single_ns == 0 ==> spec_repetitions(single_ns) == 1_000_000,
{
    let per_call: nat = if single_ns == 0 { 1 } else { single_ns as nat };
    let fit: nat = 1_000_000nat / per_call;
    assert(fit * per_call <= 1_000_000 < (fit + 1) * per_call) by (nonlinear_arith)
        requires
            per_call >= 1,
            fit == 1_000_000nat / per_call,
    ;
    assert(per_call > 1_000_000 ==> fit == 0) by (nonlinear_arith)
        requires
            per_call >= 1,
            fit == 1_000_000nat / per_call,
    ;
    assert(per_call <= 1_000_000 ==> fit >= 1) by (nonlinear_arith)
        requires
            per_call >= 1,
            fit == 1_000_000nat / per_call,
    ;
    assert(per_call == 1 ==> fit == 1_000_000) by (nonlinear_arith)
        requires
            fit == 1_000_000nat / per_call,
    ;
}

/// One benchmark: its configuration, the batch size that calibration chose,
/// and the samples measured so far.
///
/// The memory figure of a batch is what the tracker counts as outstanding at
/// the end of the batch, counted from a reset at its start, per call. Peaks
/// within a batch do not enter it.
pub struct Bencher<A: Tracker> {
    /// The name under which the benchmark is reported.
    pub name: String,
    /// The number of batches to measure.
    pub count: usize,
    /// One sample per measured batch.
    pub steps: Vec<Step>,
    /// The size of the payload that one call works on. It serves the
    /// throughput figure of a report and no measurement.
    pub bytes: usize,
    /// The number of calls per batch. Zero before calibration.
    pub n: usize,
    /// The average number of resumptions per call of an asynchronous
    /// workload. Zero for a synchronous one.
    pub poll: usize,
    /// Where the allocated bytes are read from.
    pub tracker: A,
}

/// The events of a workload that allocates `bytes` bytes per call and nothing
/// else, called `times` times.
pub open spec fn uniform_allocations(bytes: usize, times: nat) -> Seq<AllocEvent> {
    Seq::new(times, |i: int| AllocEvent::Alloc(bytes))
}

/// After a reset and `times` allocations of `bytes` bytes each, `times` times
/// `bytes` bytes are outstanding, as long as that fits in `usize`.
proof fn lemma_uniform_allocations_add_up(counters: Counters, bytes: usize, times: nat)
    requires
        times * bytes <= usize::MAX,
    ensures
        counters.after_reset().replay(uniform_allocations(bytes, times)).outstanding == times
            * bytes,
    decreases times,
{
    if times > 0 {
        let fewer = (times - 1) as nat;
        assert(fewer * bytes + bytes == times * bytes) by (nonlinear_arith)
            requires
                fewer + 1 == times,
        ;
        lemma_uniform_allocations_add_up(counters, bytes, fewer);
        assert(uniform_allocations(bytes, times).drop_last() =~= uniform_allocations(
            bytes,
            fewer,
        ));
    } else {
        assert(0 * bytes == 0) by (nonlinear_arith);
    }
}

/// A batch of `n` calls of a workload that allocates `bytes` bytes per call
/// and nothing else yields a sample whose memory figure is `bytes`, whatever
/// `n` is, as long as the batch's allocations together fit in `usize`.
pub proof fn lemma_uniform_workload_mem(counters: Counters, bytes: usize, n: usize, total_ns: u128)
    requires
        n >= 1,
        n * bytes <= usize::MAX,
    ensures
        Step::of_batch(
            total_ns,
            counters.after_reset().replay(uniform_allocations(bytes, n as nat)).outstanding,
            n,
        ).mem == bytes,
{
    lemma_uniform_allocations_add_up(counters, bytes, n as nat);
    assert((n * bytes) as nat / n as nat == bytes) by (nonlinear_arith)
        requires
            n >= 1,
    ;
}

impl<A: Tracker> Bencher<A> {
    /// Whether `other` has the configuration, the batch size and the record
    /// of `self`. The trackers may differ.
    pub open spec fn same_record(self, other: Self) -> bool {
        &&& self.name == other.name
        &&& self.count == other.count
        &&& self.steps == other.steps
        &&& self.bytes == other.bytes
        &&& self.n == other.n
        &&& self.poll == other.poll
    }

    /// Whether `other` has the configuration of `self`: name, step count and
    /// payload size.
    pub open spec fn same_setup(self, other: Self) -> bool {
        &&& self.name == other.name
        &&& self.count == other.count
        &&& self.bytes == other.bytes
    }

    /// A benchmark called `name` that measures `count` batches of calls on a
    /// payload of `bytes` bytes and reads allocated bytes from `tracker`.
    pub fn new(name: &str, count: usize, bytes: usize, tracker: A) -> (bencher: Self)
        ensures
            bencher.name@ == name@,
            bencher.count == count,
            bencher.steps@ == Seq::<Step>::empty(),
            bencher.bytes == bytes,
            bencher.n == 0,
            bencher.poll == 0,
            bencher.tracker == tracker,
    {
        Bencher { name: name.to_owned(), count, steps: Vec::new(), bytes, n: 0, poll: 0, tracker }
    }

    /// Runs the workload `n` times back to back in a fresh measurement
    /// window. Returns the nanoseconds that the calls took together and the
    /// bytes that the tracker counts as outstanding after them: the tracker
    /// is reset once, before the first call, and read once, after the last.
    pub fn bench_once<T, F: FnMut() -> T>(&mut self, f: &mut F, n: usize) -> (measured: (
        u128,
        usize,
    ))
        requires
            call_requires(*old(f), ()),
        ensures
            old(self).tracker.reset_to(&final(self).tracker),
            final(self).tracker.reads(measured.1),
            old(self).same_record(*final(self)),
            call_requires(*final(f), ()),
    {
        let now = Instant::now();
        self.tracker.reset();
        let mut i: usize = 0;
        while i < n
            invariant
                i <= n,
                call_requires(*f, ()),
                old(self).same_record(*self),
                old(self).tracker.reset_to(&self.tracker),
            decreases n - i,
        {
            let _output = f();
            i += 1;
        }
        (now.elapsed().as_nanos(), self.tracker.get())
    }

    /// Chooses the batch size from the time that a single call took.
    pub fn calibrate(&mut self, single_ns: u128)
        ensures
            final(self).n == spec_repetitions(single_ns),
            1 <= final(self).n <= 1_000_000,
            old(self).same_setup(*final(self)),
            final(self).steps == old(self).steps,
            final(self).poll == old(self).poll,
            final(self).tracker == old(self).tracker,
    {
        self.n = repetitions(single_ns);
    }

    /// Stores the sample of a batch that took `total_ns` nanoseconds and left
    /// `allocated` bytes outstanding.
    pub fn record(&mut self, total_ns: u128, allocated: usize)
        requires
            old(self).n >= 1,
        ensures
            final(self).steps@ == old(self).steps@.push(
                Step::of_batch(total_ns, allocated, old(self).n),
            ),
            old(self).same_setup(*final(self)),
            final(self).n == old(self).n,
            final(self).poll == old(self).poll,
            final(self).tracker == old(self).tracker,
    {
        let n = self.n;
        self.steps.push(Step { time: total_ns / n as u128, mem: allocated / n });
    }

    /// Measures a synchronous workload: one call to calibrate, then `count`
    /// batches of `n` calls each, one sample per batch.
    pub fn iter<T, F: FnMut() -> T>(&mut self, f: F)
        requires
            call_requires(f, ()),
        ensures
            final(self).steps@.len() == old(self).steps@.len() + old(self).count,
            final(self).steps@.take(old(self).steps@.len() as int) == old(self).steps@,
            forall|i: int|
                old(self).steps@.len() <= i < final(self).steps@.len() ==> (
                #[trigger] final(self).steps@[i]).is_batch_sample(final(self).n),
            1 <= final(self).n <= 1_000_000,
            old(self).same_setup(*final(self)),
            final(self).poll == old(self).poll,
    {
        let mut f = f;
        let single = self.bench_once(&mut f, 1).0;
        self.calibrate(single);
        let count = self.count;
        let n = self.n;
        let ghost before = self.steps@;
        let mut batch: usize = 0;
        while batch < count
            invariant
                batch <= count,
                count == old(self).count,
                n == self.n,
                1 <= n <= 1_000_000,
                call_requires(f, ()),
                old(self).same_setup(*self),
                self.poll == old(self).poll,
                before == old(self).steps@,
                self.steps@.len() == before.len() + batch,
                self.steps@.take(before.len() as int) == before,
                forall|i: int|
                    before.len() <= i < self.steps@.len() ==> (
                    #[trigger] self.steps@[i]).is_batch_sample(n),
            decreases count - batch,
        {
            let res = self.bench_once(&mut f, n);
            let ghost so_far = self.steps@;
            self.record(res.0, res.1);
            assert(self.steps@.take(before.len() as int) =~= so_far.take(before.len() as int));
            assert(self.steps@[so_far.len() as int] == Step::of_batch(res.0, res.1, n));
            batch += 1;
        }
    }

    /// Begins the measurement of an asynchronous workload whose calibrating
    /// call took `single_ns` nanoseconds: chooses the batch size and opens the
    /// first measurement window. With a step count of zero no call would ever
    /// be measured, and the measurement is refused.
    pub fn async_begin(&mut self, single_ns: u128) -> (r: Result<AsyncRun, BenchError>)
        ensures
            final(self).n == spec_repetitions(single_ns),
            old(self).same_setup(*final(self)),
            final(self).steps == old(self).steps,
            final(self).poll == old(self).poll,
            old(self).count == 0 <==> r == Err::<AsyncRun, BenchError>(BenchError::ZeroCount),
            old(self).count > 0 <==> r is Ok,
            r matches Ok(run) ==> run@ == RunState::start(
                old(self).count as nat,
                spec_repetitions(single_ns),
            ),
    {
        self.calibrate(single_ns);
        if self.count == 0 {
            return Err(BenchError::ZeroCount);
        }
        self.tracker.reset();
        Ok(AsyncRun::start(self.count, self.n))
    }

    /// Takes note of one timed call of an asynchronous workload: it took
    /// `elapsed_ns` nanoseconds, was resumed `polls` times, and `allocated`
    /// bytes were outstanding after it. The call that completes a batch adds
    /// the batch's sample; the one that completes the last batch also sets
    /// the average number of resumptions per call.
    pub fn async_record(
        &mut self,
        run: &mut AsyncRun,
        elapsed_ns: u128,
        polls: usize,
        allocated: usize,
    ) -> (next: Next)
        ensures
            final(run)@ == old(run)@.after(elapsed_ns, polls),
            final(run)@.valid(),
            next == if final(run)@.done() {
                Next::Finished
            } else {
                Next::Invoke
            },
            final(self).steps@ == if old(run)@.closes_batch() {
                old(self).steps@.push(old(run)@.closing_step(elapsed_ns, allocated))
            } else {
                old(self).steps@
            },
            final(self).poll == if old(run)@.closes_batch() && final(run)@.done() {
                final(run)@.average_polls()
            } else {
                old(self).poll as nat
            },
            old(self).same_setup(*final(self)),
            final(self).n == old(self).n,
            final(self).tracker == old(self).tracker,
    {
        match run.advance(elapsed_ns, polls) {
            Some(time) => {
                self.steps.push(Step { time, mem: allocated / run.batch_size() });
                if run.is_done() {
                    self.poll = run.average_polls();
                    Next::Finished
                } else {
                    Next::Invoke
                }
            },
            None => if run.is_done() {
                Next::Finished
            } else {
                Next::Invoke
            },
        }
    }

    /// Takes note of one timed call of an asynchronous workload, reading the
    /// outstanding bytes from the tracker, and opens the next measurement
    /// window where the call completed a batch and another batch follows.
    pub fn async_step(&mut self, run: &mut AsyncRun, elapsed_ns: u128, polls: usize) -> (next:
        Next)
        ensures
            final(run)@ == old(run)@.after(elapsed_ns, polls),
            final(run)@.valid(),
            next == if final(run)@.done() {
                Next::Finished
            } else {
                Next::Invoke
            },
            old(run)@.closes_batch() ==> exists|allocated: usize|
                final(self).steps@ == old(self).steps@.push(
                    #[trigger] old(run)@.closing_step(elapsed_ns, allocated),
                ),
            !old(run)@.closes_batch() ==> final(self).steps@ == old(self).steps@,
            final(self).poll == if old(run)@.closes_batch() && final(run)@.done() {
                final(run)@.average_polls()
            } else {
                old(self).poll as nat
            },
            old(self).same_setup(*final(self)),
            final(self).n == old(self).n,
    {
        let closes = run.closes_batch();
        let allocated = self.tracker.get();
        let next = self.async_record(run, elapsed_ns, polls, allocated);
        if closes {
            match next {
                Next::Invoke => self.tracker.reset(),
                Next::Finished => {},
            }
        }
        next
    }

    /// The summary of the samples measured so far.
    pub fn finish(&self) -> (r: Result<Stats, BenchError>)
        ensures
            self.steps@.len() == 0 <==> r == Err::<Stats, BenchError>(BenchError::NoSteps),
            self.steps@.len() > 0 <==> r is Ok,
            r matches Ok(stats) ==> stats.summarizes(self.steps@),
            r matches Ok(stats) ==> stats.times_min <= stats.times_average <= stats.times_max,
            r matches Ok(stats) ==> stats.mem_min <= stats.mem_average <= stats.mem_max,
    {
        Stats::from(&self.steps)
    }
}

} // verus!
