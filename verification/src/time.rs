//! Clock readings and interpolation progress.
//!
//! The driver owns the clock. A reading is a `u64` count of ticks in a unit of
//! the driver's choosing (nanoseconds, say); durations are counted in the same
//! unit. The library only ever subtracts and compares them.
use vstd::prelude::*;

verus! {

/// The time that has passed at `now` since `start`: zero where the reading is
/// not later than `start`.
pub open spec fn spec_elapsed_since(start: u64, now: u64) -> u64 {
    if now >= start {
        (now - start) as u64
    } else {
        0
    }
}

/// The time that has passed at `now` since `start`, saturating at zero.
#[verifier::when_used_as_spec(spec_elapsed_since)]
pub fn elapsed_since(start: u64, now: u64) -> (elapsed: u64)
    ensures
        elapsed == spec_elapsed_since(start, now),
{
    if now >= start {
        now - start
    } else {
        0
    }
}

/// How far an interpolation has come, as the fraction `numer / denom`.
///
/// While a tween is running the fraction is elapsed time over duration and
/// lies in `[0, 1)`; the last sample of every tween is taken at exactly one,
/// written `1 / 1`.
#[derive(Clone, Copy, Debug, PartialEq, Eq, Structural)]
pub struct Progress {
    pub numer: u64,
    pub denom: u64,
}

impl Progress {
    /// A fraction between zero and one with a denominator that is not zero.
    pub open spec fn wf(self) -> bool {
        self.numer <= self.denom && self.denom > 0
    }

    /// The fraction that stands for the end of an interpolation.
    pub open spec fn spec_complete() -> Progress {
        Progress { numer: 1, denom: 1 }
    }

    /// The progress of an interpolation that has run its whole duration.
    #[verifier::when_used_as_spec(spec_complete)]
    pub fn complete() -> (p: Progress)
        ensures
            p == Progress::spec_complete(),
            p.wf(),
    {
        Progress { numer: 1, denom: 1 }
    }
}

} // verus!
