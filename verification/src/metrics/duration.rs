//! Spans of time.
use vstd::prelude::*;

use crate::outside::{duration_text, format_duration};

verus! {

/// A span of time, to the nanosecond.
#[derive(Debug, Clone, Copy, PartialEq, Eq)]
pub struct Duration {
    secs: u64,
    nanos: u32,
}

impl Duration {
    /// The seconds that are left over are less than one.
    #[verifier::type_invariant]
    spec fn is_normal(self) -> bool {
        self.nanos < 1_000_000_000
    }

    /// Its whole seconds.
    pub closed spec fn seconds(self) -> u64 {
        self.secs
    }

    /// What is left over, in nanoseconds.
    pub closed spec fn left_over(self) -> u32 {
        self.nanos
    }

    /// Its length in nanoseconds.
    pub open spec fn total(self) -> int {
        self.seconds() * 1_000_000_000 + self.left_over()
    }

    /// The duration of `nanos` nanoseconds.
    pub closed spec fn of_nanos(nanos: u64) -> Self {
        Duration { secs: nanos / 1_000_000_000, nanos: (nanos % 1_000_000_000) as u32 }
    }

    pub fn new(secs: u64, nanos: u32) -> (r: Self)
        requires
            nanos < 1_000_000_000,
        ensures
            r.seconds() == secs,
            r.left_over() == nanos,
    {
        Duration { secs, nanos }
    }

    pub fn from_nanos(nanos: u64) -> (r: Self)
        ensures
            r == Duration::of_nanos(nanos),
            r.total() == nanos,
            r.left_over() < 1_000_000_000,
    {
        Duration { secs: nanos / 1_000_000_000, nanos: (nanos % 1_000_000_000) as u32 }
    }

    pub fn as_nanos(&self) -> (r: u128)
        ensures
            r == self.total(),
            self.left_over() < 1_000_000_000,
    {
        proof {
            use_type_invariant(self);
            assert(self.secs * 1_000_000_000 <= 0xffff_ffff_ffff_ffff * 1_000_000_000)
                by (nonlinear_arith)
                requires
                    self.secs <= 0xffff_ffff_ffff_ffff,
            ;
        }
        self.secs as u128 * 1_000_000_000 + self.nanos as u128
    }

    /// As text, in a unit that suits its length.
    pub fn text(&self) -> (r: String)
        ensures
            r@ == duration_text(self.seconds(), self.left_over()),
    {
        proof {
            use_type_invariant(self);
        }
        format_duration(self.secs, self.nanos)
    }
}

impl Default for Duration {
    /// No time at all.
    fn default() -> (r: Self)
        ensures
            r == Duration::of_nanos(0),
            r.total() == 0,
    {
        Duration { secs: 0, nanos: 0 }
    }
}

/// A duration that is less than 2^64 nanoseconds long is the one of its length.
pub proof fn law_length_determines_duration(d: Duration)
    requires
        d.left_over() < 1_000_000_000,
        d.total() < 0x1_0000_0000_0000_0000,
    ensures
        d == Duration::of_nanos(d.total() as u64),
        Duration::of_nanos(d.total() as u64).total() == d.total(),
{
}

} // verus!
