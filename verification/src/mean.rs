//! A running mean over a number of samples that is known in advance.
//!
//! The mean is kept as quotient and remainder of the samples' sum by the
//! number of samples, so that no intermediate value exceeds what the mean
//! itself can reach: adding a sample never overflows.

use vstd::prelude::*;

verus! {

/// The floor of the mean of up to `divisor` samples, each at most `cap`.
#[derive(Clone, Copy)]
pub struct Mean {
    divisor: u128,
    cap: u128,
    len: u128,
    quot: u128,
    rem: u128,
}

impl Mean {
    #[verifier::type_invariant]
    spec fn well_formed(&self) -> bool {
        &&& self.divisor >= 1
        &&& self.rem < self.divisor
        &&& self.len <= self.divisor
        &&& self.quot * self.divisor + self.rem <= self.len * self.cap
    }

    /// The number of samples the mean is taken over.
    pub closed spec fn divisor(&self) -> nat {
        self.divisor as nat
    }

    /// The bound that every sample obeys.
    pub closed spec fn cap(&self) -> nat {
        self.cap as nat
    }

    /// The number of samples added so far.
    pub closed spec fn len(&self) -> nat {
        self.len as nat
    }

    /// The sum of the samples added so far.
    pub closed spec fn total(&self) -> nat {
        (self.quot * self.divisor + self.rem) as nat
    }

    /// An empty mean over `divisor` samples of at most `cap` each.
    pub fn new(divisor: u128, cap: u128) -> (m: Mean)
        requires
            divisor >= 1,
        ensures
            m.divisor() == divisor,
            m.cap() == cap,
            m.len() == 0,
            m.total() == 0,
    {
        assert(0 * divisor + 0 <= 0 * cap) by (nonlinear_arith);
        Mean { divisor, cap, len: 0, quot: 0, rem: 0 }
    }

    /// Adds one sample.
    pub fn add(&mut self, sample: u128)
        requires
            old(self).len() < old(self).divisor(),
            sample <= old(self).cap(),
        ensures
            final(self).total() == old(self).total() + sample,
            final(self).len() == old(self).len() + 1,
            final(self).divisor() == old(self).divisor(),
            final(self).cap() == old(self).cap(),
    {
        proof {
            use_type_invariant(&*self);
        }
        let d = self.divisor;
        let whole = sample / d;
        let part = sample % d;
        let carries = self.rem >= d - part;
        let rem = if carries {
            self.rem - (d - part)
        } else {
            self.rem + part
        };
        let ghost carry: int = if carries { 1 } else { 0 };
        proof {
            let q = self.quot as int;
            let r = self.rem as int;
            let di = d as int;
            let c = self.cap as int;
            let l = self.len as int;
            assert(sample == whole * di + part) by (nonlinear_arith)
                requires
                    di >= 1,
                    whole == sample as int / di,
                    part == sample as int % di,
            ;
            assert((q + whole + carry) * di + rem == q * di + r + sample) by (nonlinear_arith)
                requires
                    sample == whole * di + part,
                    rem + carry * di == r + part,
            ;
            assert((l + 1) * c <= di * c && (l + 1) * c == l * c + c) by (nonlinear_arith)
                requires
                    l + 1 <= di,
                    c >= 0,
            ;
            assert(q + whole + carry <= c) by (nonlinear_arith)
                requires
                    (q + whole + carry) * di + rem <= di * c,
                    rem >= 0,
                    di >= 1,
            ;
        }
        let quot = self.quot + whole + if carries { 1 } else { 0 };
        *self = Mean { divisor: d, cap: self.cap, len: self.len + 1, quot, rem };
    }

    /// The sum of the samples added so far, divided by the number of samples
    /// that the mean is taken over, rounded down.
    pub fn mean(&self) -> (m: u128)
        ensures
            m == self.total() / self.divisor(),
            m <= self.cap(),
    {
        proof {
            use_type_invariant(self);
            let q = self.quot as int;
            let r = self.rem as int;
            let di = self.divisor as int;
            let c = self.cap as int;
            let l = self.len as int;
            assert((q * di + r) / di == q) by (nonlinear_arith)
                requires
                    0 <= r < di,
            ;
            assert(q <= c) by (nonlinear_arith)
                requires
                    q * di + r <= l * c,
                    0 <= l <= di,
                    r >= 0,
                    di >= 1,
                    c >= 0,
                    q >= 0,
            ;
        }
        self.quot
    }
}

} // verus!
