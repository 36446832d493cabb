//! Measurement samples and their summary.

use vstd::prelude::*;
use crate::mean::Mean;

verus! {

/// What keeps a benchmark from being summarised.
#[derive(Debug, Clone, Copy, PartialEq, Eq)]
pub enum BenchError {
    /// No step was recorded, so there is nothing to average.
    NoSteps,
    /// The target step count is zero, so no invocation is ever measured.
    ZeroCount,
}

/// One measurement sample: the cost of one call, averaged over one batch.
#[derive(Debug, Clone, Copy, PartialEq, Eq)]
pub struct Step {
    /// Nanoseconds per call.
    pub time: u128,
    /// Bytes allocated per call.
    pub mem: usize,
}

/// Average, minimum and maximum of time and memory over all steps.
#[derive(Debug, Clone, Copy, PartialEq, Eq)]
pub struct Stats {
    pub times_average: u128,
    pub times_min: u128,
    pub times_max: u128,
    pub mem_average: usize,
    pub mem_min: usize,
    pub mem_max: usize,
}

/// The sum of the steps' times.
pub open spec fn total_time(steps: Seq<Step>) -> nat
    decreases steps.len(),
{
    if steps.len() == 0 {
        0
    } else {
        total_time(steps.drop_last()) + steps.last().time as nat
    }
}

/// The sum of the steps' memory figures.
pub open spec fn total_mem(steps: Seq<Step>) -> nat
    decreases steps.len(),
{
    if steps.len() == 0 {
        0
    } else {
        total_mem(steps.drop_last()) + steps.last().mem as nat
    }
}

impl Step {
    /// The sample of a batch of `n` calls that took `total_ns` nanoseconds
    /// and left `allocated` bytes outstanding: both divided by `n`, rounded
    /// down.
    pub open spec fn of_batch(total_ns: u128, allocated: usize, n: usize) -> Step {
        Step { time: (total_ns as nat / n as nat) as u128, mem: (allocated as nat / n as nat) as usize }
    }

    /// Whether `self` is the sample of some batch of `n` calls.
    pub open spec fn is_batch_sample(self, n: usize) -> bool {
        exists|total_ns: u128, allocated: usize|
            self == #[trigger] Step::of_batch(total_ns, allocated, n)
    }
}

impl Stats {
    /// Whether `self` is the summary of `steps`: the averages are the sums
    /// divided by the number of steps, rounded down, and each extremum is a
    /// bound that some step attains. No summary exists of no steps.
    pub open spec fn summarizes(&self, steps: Seq<Step>) -> bool {
        &&& steps.len() > 0
        &&& self.times_average == total_time(steps) / steps.len()
        &&& self.mem_average == total_mem(steps) / steps.len()
        &&& forall|i: int| 0 <= i < steps.len() ==> self.times_min <= (#[trigger] steps[i]).time
        &&& forall|i: int| 0 <= i < steps.len() ==> self.times_max >= (#[trigger] steps[i]).time
        &&& forall|i: int| 0 <= i < steps.len() ==> self.mem_min <= (#[trigger] steps[i]).mem
        &&& forall|i: int| 0 <= i < steps.len() ==> self.mem_max >= (#[trigger] steps[i]).mem
        &&& exists|i: int| 0 <= i < steps.len() && (#[trigger] steps[i]).time == self.times_min
        &&& exists|i: int| 0 <= i < steps.len() && (#[trigger] steps[i]).time == self.times_max
        &&& exists|i: int| 0 <= i < steps.len() && (#[trigger] steps[i]).mem == self.mem_min
        &&& exists|i: int| 0 <= i < steps.len() && (#[trigger] steps[i]).mem == self.mem_max
    }

    /// Reduces the steps to their summary, or reports that there are none.
    pub fn from(steps: &Vec<Step>) -> (r: Result<Stats, BenchError>)
        ensures
            steps@.len() == 0 <==> r == Err::<Stats, BenchError>(BenchError::NoSteps),
            steps@.len() > 0 <==> r is Ok,
            r matches Ok(stats) ==> stats.summarizes(steps@),
            r matches Ok(stats) ==> stats.times_min <= stats.times_average <= stats.times_max,
            r matches Ok(stats) ==> stats.mem_min <= stats.mem_average <= stats.mem_max,
    {
        let count = steps.len();
        if count == 0 {
            return Err(BenchError::NoSteps);
        }
        let mut times = Mean::new(count as u128, u128::MAX);
        let mut mems = Mean::new(count as u128, usize::MAX as u128);
        let mut times_min = steps[0].time;
        let mut times_max = steps[0].time;
        let mut mem_min = steps[0].mem;
        let mut mem_max = steps[0].mem;
        let mut i: usize = 0;
        while i < count
            invariant
                count == steps@.len(),
                0 <= i <= count,
                times.divisor() == count,
                times.cap() == u128::MAX,
                times.len() == i,
                times.total() == total_time(steps@.take(i as int)),
                mems.divisor() == count,
                mems.cap() == usize::MAX,
                mems.len() == i,
                mems.total() == total_mem(steps@.take(i as int)),
                forall|j: int| 0 <= j < i ==> times_min <= (#[trigger] steps@[j]).time,
                forall|j: int| 0 <= j < i ==> times_max >= (#[trigger] steps@[j]).time,
                forall|j: int| 0 <= j < i ==> mem_min <= (#[trigger] steps@[j]).mem,
                forall|j: int| 0 <= j < i ==> mem_max >= (#[trigger] steps@[j]).mem,
                exists|j: int| 0 <= j < count && (#[trigger] steps@[j]).time == times_min,
                exists|j: int| 0 <= j < count && (#[trigger] steps@[j]).time == times_max,
                exists|j: int| 0 <= j < count && (#[trigger] steps@[j]).mem == mem_min,
                exists|j: int| 0 <= j < count && (#[trigger] steps@[j]).mem == mem_max,
            decreases count - i,
        {
            let step = steps[i];
            proof {
                assert(steps@.take(i as int + 1).drop_last() =~= steps@.take(i as int));
            }
            times.add(step.time);
            mems.add(step.mem as u128);
            if step.time < times_min {
                times_min = step.time;
            }
            if step.time > times_max {
                times_max = step.time;
            }
            if step.mem < mem_min {
                mem_min = step.mem;
            }
            if step.mem > mem_max {
                mem_max = step.mem;
            }
            i += 1;
        }
        proof {
            assert(steps@.take(count as int) =~= steps@);
        }
        let stats = Stats {
            times_average: times.mean(),
            times_min,
            times_max,
            mem_average: mems.mean() as usize,
            mem_min,
            mem_max,
        };
        proof {
            lemma_average_within_extrema(stats, steps@);
        }
        Ok(stats)
    }
}

/// The sum of the times lies between the number of steps times a lower bound
/// of the times and the number of steps times an upper bound.
proof fn lemma_total_time_bounds(steps: Seq<Step>, low: nat, high: nat)
    requires
        forall|i: int| 0 <= i < steps.len() ==> low <= (#[trigger] steps[i]).time <= high,
    ensures
        steps.len() * low <= total_time(steps) <= steps.len() * high,
    decreases steps.len(),
{
    if steps.len() > 0 {
        let rest = steps.drop_last();
        lemma_total_time_bounds(rest, low, high);
        let n = rest.len();
        assert((n + 1) * low == n * low + low && (n + 1) * high == n * high + high)
            by (nonlinear_arith);
    }
}

/// As `lemma_total_time_bounds`, of the memory figures.
proof fn lemma_total_mem_bounds(steps: Seq<Step>, low: nat, high: nat)
    requires
        forall|i: int| 0 <= i < steps.len() ==> low <= (#[trigger] steps[i]).mem <= high,
    ensures
        steps.len() * low <= total_mem(steps) <= steps.len() * high,
    decreases steps.len(),
{
    if steps.len() > 0 {
        let rest = steps.drop_last();
        lemma_total_mem_bounds(rest, low, high);
        let n = rest.len();
        assert((n + 1) * low == n * low + low && (n + 1) * high == n * high + high)
            by (nonlinear_arith);
    }
}

/// A sum that lies between `n` times `low` and `n` times `high` has its
/// `n`-th part, rounded down, between `low` and `high`.
proof fn lemma_quotient_between(total: nat, n: nat, low: nat, high: nat)
    by (nonlinear_arith)
    requires
        n > 0,
        n * low <= total <= n * high,
    ensures
        low <= total / n <= high,
{
}

/// The average of a summary lies between its minimum and its maximum, for
/// time and for memory, whatever the steps are.
pub proof fn lemma_average_within_extrema(stats: Stats, steps: Seq<Step>)
    requires
        stats.summarizes(steps),
    ensures
        stats.times_min <= stats.times_average <= stats.times_max,
        stats.mem_min <= stats.mem_average <= stats.mem_max,
{
    lemma_total_time_bounds(steps, stats.times_min as nat, stats.times_max as nat);
    lemma_total_mem_bounds(steps, stats.mem_min as nat, stats.mem_max as nat);
    lemma_quotient_between(
        total_time(steps),
        steps.len(),
        stats.times_min as nat,
        stats.times_max as nat,
    );
    lemma_quotient_between(
        total_mem(steps),
        steps.len(),
        stats.mem_min as nat,
        stats.mem_max as nat,
    );
}

/// Two summaries of the same steps are equal: a summary is determined by the
/// steps it is taken of.
pub proof fn lemma_summary_is_unique(a: Stats, b: Stats, steps: Seq<Step>)
    requires
        a.summarizes(steps),
        b.summarizes(steps),
    ensures
        a == b,
{
}

} // verus!
