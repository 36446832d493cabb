//! The figures of a benchmark's report, as text.

use vstd::prelude::*;
use vstd::string::StringExecFns;
use crate::bencher::Bencher;
use crate::stats::Stats;
use crate::thousands::{decimal, fmt_thousands_sep_wide, push_decimal, thousands_sep};
use crate::track_allocator::Tracker;

verus! {

/// The separator between groups of three digits in a report.
pub const GROUP_SEPARATOR: char = ',';

/// What a report says of a benchmark, each figure as it is printed.
pub struct Report {
    /// The name of the benchmark.
    pub name: String,
    /// The average time of a call, in nanoseconds.
    pub time: String,
    /// How far the slowest and the fastest step are apart, in nanoseconds.
    pub time_spread: String,
    /// The average memory of a call, in bytes.
    pub mem: String,
    /// How far the largest and the smallest step are apart, in bytes.
    pub mem_spread: String,
    /// The average number of resumptions per call, where there were any.
    pub polls: String,
    /// The number of batches.
    pub count: usize,
    /// The number of calls per batch.
    pub n: usize,
}

/// The clause of a report on resumptions. A benchmark whose average is zero
/// has none.
pub open spec fn polls_clause(poll: usize) -> Seq<char> {
    if poll > 0 {
        ("@avg "@ + decimal(poll as nat)) + " polls "@
    } else {
        Seq::empty()
    }
}

impl Report {
    /// Whether `self` is the report of a benchmark with this name, batch
    /// count, batch size and resumption average, and with the summary
    /// `stats`.
    pub open spec fn describes(
        self,
        stats: Stats,
        name: Seq<char>,
        count: usize,
        n: usize,
        poll: usize,
    ) -> bool {
        &&& self.name@ == name
        &&& self.time@ == thousands_sep(stats.times_average as nat, GROUP_SEPARATOR)
        &&& self.time_spread@ == thousands_sep(
            (stats.times_max - stats.times_min) as nat,
            GROUP_SEPARATOR,
        )
        &&& self.mem@ == thousands_sep(stats.mem_average as nat, GROUP_SEPARATOR)
        &&& self.mem_spread@ == thousands_sep(
            (stats.mem_max - stats.mem_min) as nat,
            GROUP_SEPARATOR,
        )
        &&& self.polls@ == polls_clause(poll)
        &&& self.count == count
        &&& self.n == n
    }

    /// The report of `bencher`, whose summary is `stats`.
    pub fn new<A: Tracker>(stats: &Stats, bencher: &Bencher<A>) -> (report: Report)
        requires
            stats.times_min <= stats.times_max,
            stats.mem_min <= stats.mem_max,
        ensures
            report.describes(*stats, bencher.name@, bencher.count, bencher.n, bencher.poll),
    {
        let mut polls = String::new();
        if bencher.poll > 0 {
            polls.append("@avg ");
            push_decimal(&mut polls, bencher.poll as u128);
            polls.append(" polls ");
        }
        Report {
            name: bencher.name.clone(),
            time: fmt_thousands_sep_wide(stats.times_average, GROUP_SEPARATOR),
            time_spread: fmt_thousands_sep_wide(
                stats.times_max - stats.times_min,
                GROUP_SEPARATOR,
            ),
            mem: fmt_thousands_sep_wide(stats.mem_average as u128, GROUP_SEPARATOR),
            mem_spread: fmt_thousands_sep_wide(
                (stats.mem_max - stats.mem_min) as u128,
                GROUP_SEPARATOR,
            ),
            polls,
            count: bencher.count,
            n: bencher.n,
        }
    }
}

} // verus!
