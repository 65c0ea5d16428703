//! Spans of time.

use vstd::prelude::*;

verus! {

/// The nanoseconds of a second.
pub const NANOS_PER_SEC: u32 = 1_000_000_000;

/// A span of time in whole seconds and the nanoseconds beyond them.
#[derive(Debug, Clone, Copy, PartialEq, Eq, Structural)]
pub struct Duration {
    secs: u64,
    nanos: u32,
}

impl View for Duration {
    type V = nat;

    /// The span in nanoseconds.
    closed spec fn view(&self) -> nat {
        (self.secs * NANOS_PER_SEC + self.nanos) as nat
    }
}

impl Duration {
    /// The nanoseconds stay below a second.
    #[verifier::type_invariant]
    closed spec fn nanos_in_range(self) -> bool {
        self.nanos < NANOS_PER_SEC
    }

    /// A span of seconds and nanoseconds. A second or more of nanoseconds is no span.
    pub fn new(secs: u64, nanos: u32) -> (r: Option<Duration>)
        ensures
            match r {
                Some(d) => nanos < NANOS_PER_SEC && d@ == secs * NANOS_PER_SEC + nanos,
                None => nanos >= NANOS_PER_SEC,
            },
    {
        if nanos < NANOS_PER_SEC {
            Some(Duration { secs, nanos })
        } else {
            None
        }
    }

    /// A span of milliseconds.
    pub fn from_millis(millis: u64) -> (r: Duration)
        ensures
            r@ == millis * 1_000_000,
    {
        Duration { secs: millis / 1000, nanos: (millis % 1000) as u32 * 1_000_000 }
    }

    /// The whole seconds of the span.
    pub fn as_secs(&self) -> (r: u64)
        ensures
            r == self@ / (NANOS_PER_SEC as nat),
    {
        proof {
            use_type_invariant(self);
        }
        self.secs
    }

    /// The nanoseconds beyond the whole seconds.
    pub fn subsec_nanos(&self) -> (r: u32)
        ensures
            r == self@ % (NANOS_PER_SEC as nat),
    {
        proof {
            use_type_invariant(self);
        }
        self.nanos
    }

    /// Divides the span, rounding down to nanoseconds. There is no division by zero.
    pub fn checked_div(self, rhs: u32) -> (r: Option<Duration>)
        ensures
            match r {
                Some(d) => rhs != 0 && d@ == self@ / (rhs as nat),
                None => rhs == 0,
            },
    {
        proof {
            use_type_invariant(&self);
        }
        if rhs == 0 {
            return None;
        }
        let total: u128 = self.secs as u128 * 1_000_000_000 + self.nanos as u128;
        let part: u128 = total / rhs as u128;
        assert(part <= total) by (nonlinear_arith)
            requires
                part == total / rhs as u128,
                rhs > 0,
        ;
        let secs: u64 = (part / 1_000_000_000) as u64;
        let nanos: u32 = (part % 1_000_000_000) as u32;
        Some(Duration { secs, nanos })
    }
}

} // verus!
