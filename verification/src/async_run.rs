//! The course of an asynchronous measurement: which timed call belongs to
//! which batch, and when the measurement is over.
//!
//! An asynchronous workload is awaited by whoever drives it. The driver times
//! one call after the other and tells the measurement of each; the
//! measurement answers with what to do next.

use vstd::prelude::*;
use crate::mean::Mean;
use crate::stats::Step;

verus! {

/// What the driver of an asynchronous measurement does next.
#[derive(Debug, Clone, Copy, PartialEq, Eq)]
pub enum Next {
    /// Run the workload once more, timed, and report how it went.
    Invoke,
    /// Every batch is measured.
    Finished,
}

/// How far an asynchronous measurement has come, as contracts speak of it.
pub struct RunState {
    /// The number of batches to measure.
    pub count: nat,
    /// The number of calls per batch.
    pub n: nat,
    /// The number of batches measured.
    pub batch: nat,
    /// The number of calls made in the batch under way.
    pub rep: nat,
    /// The nanoseconds that the calls of the batch under way took together.
    pub time_total: nat,
    /// The resumptions of all calls so far.
    pub polls_total: nat,
}

impl RunState {
    /// Whether the counts are within their ranges.
    pub open spec fn valid(self) -> bool {
        &&& self.count >= 1
        &&& self.n >= 1
        &&& self.batch <= self.count
        &&& self.rep < self.n
        &&& self.batch == self.count ==> self.rep == 0
    }

    /// The state before the first call of the first batch.
    pub open spec fn start(count: nat, n: nat) -> RunState {
        RunState { count, n, batch: 0, rep: 0, time_total: 0, polls_total: 0 }
    }

    /// Whether every batch is measured.
    pub open spec fn done(self) -> bool {
        self.batch == self.count
    }

    /// Whether the next call completes its batch.
    pub open spec fn closes_batch(self) -> bool {
        !self.done() && self.rep + 1 == self.n
    }

    /// The state after one more call that took `elapsed_ns` nanoseconds and
    /// was resumed `polls` times. Once every batch is measured nothing
    /// changes any more.
    pub open spec fn after(self, elapsed_ns: u128, polls: usize) -> RunState {
        if self.done() {
            self
        } else if self.closes_batch() {
            RunState {
                batch: self.batch + 1,
                rep: 0,
                time_total: 0,
                polls_total: self.polls_total + polls as nat,
                ..self
            }
        } else {
            RunState {
                rep: self.rep + 1,
                time_total: self.time_total + elapsed_ns as nat,
                polls_total: self.polls_total + polls as nat,
                ..self
            }
        }
    }

    /// The mean time of the calls of the batch that a call closes, if that
    /// call took `elapsed_ns` nanoseconds.
    pub open spec fn closing_time(self, elapsed_ns: u128) -> u128 {
        ((self.time_total + elapsed_ns as nat) / self.n) as u128
    }

    /// The sample of the batch that a call closes, if the call took
    /// `elapsed_ns` nanoseconds and `allocated` bytes were outstanding after
    /// it: the mean time of the batch's calls, and the bytes per call.
    pub open spec fn closing_step(self, elapsed_ns: u128, allocated: usize) -> Step {
        Step { time: self.closing_time(elapsed_ns), mem: (allocated as nat / self.n) as usize }
    }

    /// The average number of resumptions per call, once every batch is
    /// measured.
    pub open spec fn average_polls(self) -> nat {
        self.polls_total / (self.count * self.n)
    }

    /// The number of calls made so far.
    pub open spec fn calls_made(self) -> nat {
        self.batch * self.n + self.rep
    }

    /// The state and the samples after the timed calls `calls`, first to
    /// last, from this state and the samples `steps`.
    pub open spec fn drive(self, steps: Seq<Step>, calls: Seq<Invocation>) -> (RunState, Seq<Step>)
        decreases calls.len(),
    {
        if calls.len() == 0 {
            (self, steps)
        } else {
            let (state, so_far) = self.drive(steps, calls.drop_last());
            let call = calls.last();
            (
                state.after(call.elapsed_ns, call.polls),
                if state.closes_batch() {
                    so_far.push(state.closing_step(call.elapsed_ns, call.allocated))
                } else {
                    so_far
                },
            )
        }
    }
}

/// One timed call of an asynchronous workload, as the measurement is told of
/// it.
pub struct Invocation {
    /// The nanoseconds from the call's first resumption to its completion.
    pub elapsed_ns: u128,
    /// How often the call was resumed.
    pub polls: usize,
    /// The bytes outstanding after the call.
    pub allocated: usize,
}

/// A valid state has made at most `count` times `n` calls, and exactly that
/// many when every batch is measured.
pub proof fn lemma_calls_made_bound(state: RunState)
    requires
        state.valid(),
    ensures
        state.calls_made() <= state.count * state.n,
        state.done() <==> state.calls_made() == state.count * state.n,
{
    let (count, n, batch, rep) = (state.count, state.n, state.batch, state.rep);
    if batch < count {
        assert(batch * n + rep < count * n) by (nonlinear_arith)
            requires
                batch < count,
                rep < n,
        ;
    }
}

/// One more call keeps a state valid and counts as one call made, unless
/// every batch is measured already.
pub proof fn lemma_call_advances(state: RunState, elapsed_ns: u128, polls: usize)
    requires
        state.valid(),
    ensures
        state.after(elapsed_ns, polls).valid(),
        state.after(elapsed_ns, polls).count == state.count,
        state.after(elapsed_ns, polls).n == state.n,
        state.after(elapsed_ns, polls).calls_made() == if state.done() {
            state.calls_made()
        } else {
            state.calls_made() + 1
        },
        state.after(elapsed_ns, polls).batch == if state.closes_batch() {
            state.batch + 1
        } else {
            state.batch
        },
{
    let (n, batch) = (state.n, state.batch);
    assert((batch + 1) * n == batch * n + n) by (nonlinear_arith);
}

/// However many timed calls a measurement is told of, it stores one sample
/// for each batch that the calls complete, keeps the samples that were there,
/// and has made as many calls as it was told of, up to `count` times `n`.
pub proof fn lemma_drive_counts(state: RunState, steps: Seq<Step>, calls: Seq<Invocation>)
    requires
        state.valid(),
    ensures
        ({
            let (end, samples) = state.drive(steps, calls);
            &&& end.valid()
            &&& end.count == state.count
            &&& end.n == state.n
            &&& end.batch >= state.batch
            &&& samples.len() == steps.len() + (end.batch - state.batch)
            &&& samples.take(steps.len() as int) == steps
            &&& end.calls_made() == if state.calls_made() + calls.len() <= state.count * state.n {
                state.calls_made() + calls.len()
            } else {
                state.count * state.n
            }
        }),
    decreases calls.len(),
{
    if calls.len() == 0 {
        lemma_calls_made_bound(state);
        assert(steps.take(steps.len() as int) =~= steps);
    } else {
        lemma_drive_counts(state, steps, calls.drop_last());
        let (mid, so_far) = state.drive(steps, calls.drop_last());
        let call = calls.last();
        lemma_call_advances(mid, call.elapsed_ns, call.polls);
        lemma_calls_made_bound(mid);
        let (end, samples) = state.drive(steps, calls);
        assert(samples.take(steps.len() as int) =~= so_far.take(steps.len() as int));
    }
}

/// A measurement of `count` batches of `n` calls each stores exactly `count`
/// samples, whatever the calls are like, and is finished after the last of
/// them and not before.
pub proof fn lemma_run_stores_count_samples(
    count: nat,
    n: nat,
    steps: Seq<Step>,
    calls: Seq<Invocation>,
)
    requires
        count >= 1,
        n >= 1,
        calls.len() <= count * n,
    ensures
        ({
            let (end, samples) = RunState::start(count, n).drive(steps, calls);
            &&& end.done() <==> calls.len() == count * n
            &&& end.done() ==> samples.len() == steps.len() + count
            &&& samples.take(steps.len() as int) == steps
        }),
{
    let start = RunState::start(count, n);
    assert(start.calls_made() == 0) by (nonlinear_arith)
        requires
            start.batch == 0,
            start.rep == 0,
            start.calls_made() == start.batch * start.n + start.rep,
    ;
    lemma_drive_counts(start, steps, calls);
    lemma_calls_made_bound(start.drive(steps, calls).0);
}

/// The nanoseconds that the calls took together.
pub open spec fn total_elapsed(calls: Seq<Invocation>) -> nat
    decreases calls.len(),
{
    if calls.len() == 0 {
        0
    } else {
        total_elapsed(calls.drop_last()) + calls.last().elapsed_ns as nat
    }
}

/// The resumptions of the calls together.
pub open spec fn total_polls(calls: Seq<Invocation>) -> nat
    decreases calls.len(),
{
    if calls.len() == 0 {
        0
    } else {
        total_polls(calls.drop_last()) + calls.last().polls as nat
    }
}

/// The calls of batch number `batch`, counted from zero, among `calls`, where
/// a batch has `n` calls.
pub open spec fn batch_calls(calls: Seq<Invocation>, batch: int, n: nat) -> Seq<Invocation> {
    calls.subrange(batch * n, (batch + 1) * n)
}

/// The sample of a batch that consists of `calls`: the mean of the calls'
/// times, and the bytes outstanding after the last call, per call; both
/// rounded down.
pub open spec fn batch_sample(calls: Seq<Invocation>) -> Step {
    Step {
        time: (total_elapsed(calls) / calls.len()) as u128,
        mem: (calls.last().allocated as nat / calls.len()) as usize,
    }
}

/// The time of the calls from `from` on grows by the time of the last call
/// when that call is added.
proof fn lemma_total_elapsed_of_tail(calls: Seq<Invocation>, from: int)
    requires
        0 <= from < calls.len(),
    ensures
        total_elapsed(calls.subrange(from, calls.len() as int)) == total_elapsed(
            calls.drop_last().subrange(from, calls.len() - 1),
        ) + calls.last().elapsed_ns,
{
    let tail = calls.subrange(from, calls.len() as int);
    assert(tail.drop_last() =~= calls.drop_last().subrange(from, calls.len() - 1));
    assert(tail.last() == calls.last());
}

/// What a measurement has stored and counted after any number of its timed
/// calls: the resumptions of all calls, the time of the calls of the batch
/// under way, and for each completed batch the sample of that batch's calls.
pub proof fn lemma_drive_contents(count: nat, n: nat, steps: Seq<Step>, calls: Seq<Invocation>)
    requires
        count >= 1,
        n >= 1,
        calls.len() <= count * n,
    ensures
        ({
            let (end, samples) = RunState::start(count, n).drive(steps, calls);
            &&& end.valid()
            &&& end.count == count
            &&& end.n == n
            &&& end.calls_made() == calls.len()
            &&& samples.len() == steps.len() + end.batch
            &&& samples.take(steps.len() as int) == steps
            &&& end.polls_total == total_polls(calls)
            &&& end.time_total == total_elapsed(
                calls.subrange((end.batch * n) as int, calls.len() as int),
            )
            &&& forall|i: int|
                steps.len() <= i < samples.len() ==> #[trigger] samples[i] == batch_sample(
                    batch_calls(calls, i - steps.len(), n),
                )
        }),
    decreases calls.len(),
{
    let start = RunState::start(count, n);
    assert(start.calls_made() == 0) by (nonlinear_arith)
        requires
            start.batch == 0,
            start.rep == 0,
            start.calls_made() == start.batch * start.n + start.rep,
    ;
    lemma_drive_counts(start, steps, calls);
    let (end, samples) = start.drive(steps, calls);
    if calls.len() == 0 {
        assert(end.batch * n == 0) by (nonlinear_arith)
            requires
                end.batch == 0,
        ;
        assert(calls.subrange(0, 0) =~= Seq::<Invocation>::empty());
    } else {
        let earlier = calls.drop_last();
        let call = calls.last();
        lemma_drive_contents(count, n, steps, earlier);
        let (mid, so_far) = start.drive(steps, earlier);
        lemma_calls_made_bound(mid);
        lemma_call_advances(mid, call.elapsed_ns, call.polls);
        let b = mid.batch as int;
        let len = calls.len() as int;
        assert(len - 1 == b * n + mid.rep);
        assert((b + 1) * n == b * n + n) by (nonlinear_arith);
        lemma_total_elapsed_of_tail(calls, b * n);
        if mid.closes_batch() {
            let batch = batch_calls(calls, b, n);
            assert(batch =~= calls.subrange(b * n, len));
            assert(batch.len() == n);
            assert(batch.last() == call);
            assert(calls.subrange((end.batch * n) as int, len) =~= Seq::<Invocation>::empty());
            assert(samples[so_far.len() as int] == batch_sample(batch));
        } else {
            assert(samples == so_far);
        }
        assert forall|i: int| steps.len() <= i < samples.len() implies #[trigger] samples[i]
            == batch_sample(batch_calls(calls, i - steps.len(), n)) by {
            if i < so_far.len() {
                let k = i - steps.len();
                assert((k + 1) * n <= b * n && k * n >= 0 && (k + 1) * n == k * n + n)
                    by (nonlinear_arith)
                    requires
                        0 <= k < b,
                        n >= 1,
                ;
                assert(batch_calls(calls, k, n) =~= batch_calls(earlier, k, n));
                assert(samples[i] == so_far[i]);
            }
        }
    }
}

/// A measurement of `count` batches of `n` calls each, told of all its calls,
/// has stored for each batch the sample of that batch's calls, after the
/// samples that were there before, and reports as the average number of
/// resumptions the resumptions of all calls divided by the number of calls.
pub proof fn lemma_run_samples(count: nat, n: nat, steps: Seq<Step>, calls: Seq<Invocation>)
    requires
        count >= 1,
        n >= 1,
        calls.len() == count * n,
    ensures
        ({
            let (end, samples) = RunState::start(count, n).drive(steps, calls);
            &&& end.done()
            &&& samples.len() == steps.len() + count
            &&& samples.take(steps.len() as int) == steps
            &&& forall|batch: int|
                0 <= batch < count ==> samples[steps.len() + batch] == batch_sample(
                    #[trigger] batch_calls(calls, batch, n),
                )
            &&& end.average_polls() == total_polls(calls) / calls.len()
        }),
{
    lemma_drive_contents(count, n, steps, calls);
    lemma_run_stores_count_samples(count, n, steps, calls);
    let (end, samples) = RunState::start(count, n).drive(steps, calls);
    assert forall|batch: int| 0 <= batch < count implies samples[steps.len() + batch]
        == batch_sample(#[trigger] batch_calls(calls, batch, n)) by {
        let i = steps.len() + batch;
        assert(samples[i] == batch_sample(batch_calls(calls, i - steps.len(), n)));
    }
}

/// The progress of one asynchronous measurement.
pub struct AsyncRun {
    count: usize,
    n: usize,
    batch: usize,
    rep: usize,
    time: Mean,
    polls: Mean,
}

impl View for AsyncRun {
    type V = RunState;

    closed spec fn view(&self) -> RunState {
        RunState {
            count: self.count as nat,
            n: self.n as nat,
            batch: self.batch as nat,
            rep: self.rep as nat,
            time_total: self.time.total(),
            polls_total: self.polls.total(),
        }
    }
}

impl AsyncRun {
    #[verifier::type_invariant]
    spec fn well_formed(&self) -> bool {
        &&& self.count >= 1
        &&& 1 <= self.n <= 1_000_000
        &&& self.batch <= self.count
        &&& self.rep < self.n
        &&& self.batch == self.count ==> self.rep == 0
        &&& self.time.divisor() == self.n
        &&& self.time.cap() == u128::MAX
        &&& self.time.len() == self.rep
        &&& self.polls.divisor() == self.count * self.n
        &&& self.polls.cap() == usize::MAX
        &&& self.polls.len() == self.batch * self.n + self.rep
    }

    /// A measurement of `count` batches of `n` calls each, before its first
    /// call.
    pub fn start(count: usize, n: usize) -> (run: AsyncRun)
        requires
            count >= 1,
            1 <= n <= 1_000_000,
        ensures
            run@ == RunState::start(count as nat, n as nat),
            run@.valid(),
    {
        assert(1 <= count * n <= usize::MAX * 1_000_000) by (nonlinear_arith)
            requires
                1 <= count <= usize::MAX,
                1 <= n <= 1_000_000,
        ;
        let calls: u128 = count as u128 * n as u128;
        assert(0 * n + 0 == 0) by (nonlinear_arith);
        AsyncRun {
            count,
            n,
            batch: 0,
            rep: 0,
            time: Mean::new(n as u128, u128::MAX),
            polls: Mean::new(calls, usize::MAX as u128),
        }
    }

    /// The number of calls per batch.
    pub fn batch_size(&self) -> (n: usize)
        ensures
            n == self@.n,
            1 <= n <= 1_000_000,
    {
        proof {
            use_type_invariant(self);
        }
        self.n
    }

    /// Whether the next call completes its batch.
    pub fn closes_batch(&self) -> (closes: bool)
        ensures
            closes == self@.closes_batch(),
    {
        proof {
            use_type_invariant(self);
        }
        self.batch != self.count && self.rep + 1 == self.n
    }

    /// Whether every batch is measured.
    pub fn is_done(&self) -> (done: bool)
        ensures
            done == self@.done(),
            self@.valid(),
    {
        proof {
            use_type_invariant(self);
        }
        self.batch == self.count
    }

    /// The resumptions of all calls so far, divided by the number of calls
    /// that the measurement is to make, rounded down: once every batch is
    /// measured, the average number of resumptions per call.
    pub fn average_polls(&self) -> (average: usize)
        ensures
            average == self@.average_polls(),
    {
        proof {
            use_type_invariant(self);
        }
        self.polls.mean() as usize
    }

    /// Takes note of one timed call, which took `elapsed_ns` nanoseconds and
    /// was resumed `polls` times. Where the call completes its batch, the
    /// mean time of the batch's calls comes back. Once every batch is
    /// measured, further calls change nothing.
    pub fn advance(&mut self, elapsed_ns: u128, polls: usize) -> (closed: Option<u128>)
        ensures
            final(self)@ == old(self)@.after(elapsed_ns, polls),
            final(self)@.valid(),
            old(self)@.valid(),
            closed == if old(self)@.closes_batch() {
                Some(old(self)@.closing_time(elapsed_ns))
            } else {
                None
            },
    {
        proof {
            use_type_invariant(&*self);
        }
        if self.batch == self.count {
            return None;
        }
        let count = self.count;
        let n = self.n;
        let batch = self.batch;
        let rep = self.rep;
        let mut time = self.time;
        let mut all_polls = self.polls;
        assert(batch * n + rep < count * n && (batch + 1) * n == batch * n + n) by (nonlinear_arith)
            requires
                batch < count,
                rep < n,
        ;
        time.add(elapsed_ns);
        all_polls.add(polls as u128);
        if rep + 1 == n {
            let mean_time = time.mean();
            assert(0 * n + 0 == 0) by (nonlinear_arith);
            *self = AsyncRun {
                count,
                n,
                batch: batch + 1,
                rep: 0,
                time: Mean::new(n as u128, u128::MAX),
                polls: all_polls,
            };
            Some(mean_time)
        } else {
            *self = AsyncRun { count, n, batch, rep: rep + 1, time, polls: all_polls };
            None
        }
    }
}

} // verus!
