//! What a benchmark is registered under: the decisions of the front end that
//! turns an annotated function into a runnable benchmark.

use vstd::prelude::*;

verus! {

/// The number of batches of a benchmark that names none.
pub const DEFAULT_COUNT: usize = 1000;

/// The arguments that a benchmark's annotation may give.
pub struct BenchArgs {
    /// The name to report the benchmark under.
    pub name: Option<String>,
    /// The number of batches to measure.
    pub count: Option<usize>,
    /// Whether to keep the benchmark out of the automated tests.
    pub no_test: bool,
}

/// How a benchmark is set up and run.
pub struct Registration {
    /// The name to report the benchmark under.
    pub name: String,
    /// The number of batches to measure.
    pub count: usize,
    /// Whether the benchmark runs as an automated test.
    pub test: bool,
}

impl BenchArgs {
    /// What the arguments come to for the function `func_name`.
    pub open spec fn resolved(self, func_name: Seq<char>, registration: Registration) -> bool {
        &&& registration.name@ == match self.name {
            Some(name) => name@,
            None => func_name,
        }
        &&& registration.count == match self.count {
            Some(count) => count,
            None => DEFAULT_COUNT,
        }
        &&& registration.test == !self.no_test
    }

    /// Settles the registration of the function `func_name`: it is reported
    /// under its own name unless the arguments name another, measures a
    /// thousand batches unless they say how many, and runs as an automated
    /// test unless they say not to.
    pub fn resolve(self, func_name: &str) -> (registration: Registration)
        ensures
            self.resolved(func_name@, registration),
    {
        let name = match self.name {
            Some(name) => name,
            None => func_name.to_owned(),
        };
        let count = match self.count {
            Some(count) => count,
            None => DEFAULT_COUNT,
        };
        Registration { name, count, test: !self.no_test }
    }
}

} // verus!
