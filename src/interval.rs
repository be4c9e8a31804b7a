//! The publish interval.

use vstd::prelude::*;

verus! {

pub const NANOS_PER_SEC: u32 = 1_000_000_000;

/// A span of time: whole seconds plus a sub-second part in nanoseconds.
#[derive(Clone, Copy, Debug, PartialEq, Eq, Structural)]
pub struct Interval {
    pub secs: u64,
    pub nanos: u32,
}

impl Interval {
    pub open spec fn wf(&self) -> bool {
        self.nanos < NANOS_PER_SEC
    }

    /// The span in nanoseconds.
    pub open spec fn total_nanos(&self) -> int {
        self.secs * 1_000_000_000 + self.nanos
    }

    /// Whole seconds only.
    pub fn from_secs(secs: u64) -> (r: Interval)
        ensures
            r.wf(),
            r == (Interval { secs, nanos: 0 }),
    {
        Interval { secs, nanos: 0 }
    }

    /// Seconds plus nanoseconds, carrying whole seconds out of `nanos`;
    /// `None` where the seconds would overflow.
    pub fn from_parts(secs: u64, nanos: u32) -> (r: Option<Interval>)
        ensures
            r is Some <==> secs + nanos / 1_000_000_000 <= u64::MAX,
            r matches Some(i) ==> i.wf() && i.secs == secs + nanos / 1_000_000_000
                && i.nanos == nanos % 1_000_000_000,
            r matches Some(i) ==> i.total_nanos() == secs * 1_000_000_000 + nanos,
    {
        let carry: u64 = (nanos / NANOS_PER_SEC) as u64;
        if secs > u64::MAX - carry {
            None
        } else {
            let r = Interval { secs: secs + carry, nanos: nanos % NANOS_PER_SEC };
            assert(r.total_nanos() == secs * 1_000_000_000 + nanos) by (nonlinear_arith)
                requires
                    r.secs == secs + nanos / 1_000_000_000,
                    r.nanos == nanos % 1_000_000_000,
            ;
            Some(r)
        }
    }
}

} // verus!
