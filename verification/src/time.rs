//! Spans of time, counted in nanoseconds.

use vstd::prelude::*;

verus! {

/// The longest span: `u64::MAX` seconds and all but one of the nanoseconds of
/// the next.
pub const MAX_NANOS: u128 = 18446744073709551615999999999;

pub const NANOS_PER_SEC: u128 = 1000000000;

pub const NANOS_PER_MICRO: u128 = 1000;

/// A span of time of whole nanoseconds, from zero to [`MAX_NANOS`].
#[derive(Clone, Copy, Debug, PartialEq, Eq, Structural)]
pub struct Duration {
    nanos: u128,
}

impl Duration {
    /// The length in nanoseconds.
    pub closed spec fn nanos(self) -> nat {
        self.nanos as nat
    }

    #[verifier::type_invariant]
    spec fn in_range(self) -> bool {
        self.nanos <= MAX_NANOS
    }

    /// A span is determined by its length.
    pub proof fn law_length_determines(a: Duration, b: Duration)
        ensures
            a.nanos() == b.nanos() <==> a == b,
    {
    }

    /// `secs` seconds and `nanos` nanoseconds.
    pub fn new(secs: u64, nanos: u32) -> (d: Duration)
        requires
            nanos < NANOS_PER_SEC,
        ensures
            d.nanos() == secs * NANOS_PER_SEC + nanos,
    {
        Duration { nanos: secs as u128 * NANOS_PER_SEC + nanos as u128 }
    }

    pub fn from_secs(secs: u64) -> (d: Duration)
        ensures
            d.nanos() == secs * NANOS_PER_SEC,
    {
        Duration { nanos: secs as u128 * NANOS_PER_SEC }
    }

    pub fn from_millis(millis: u64) -> (d: Duration)
        ensures
            d.nanos() == millis * 1000000,
    {
        Duration { nanos: millis as u128 * 1000000 }
    }

    pub fn from_micros(micros: u64) -> (d: Duration)
        ensures
            d.nanos() == micros * NANOS_PER_MICRO,
    {
        Duration { nanos: micros as u128 * NANOS_PER_MICRO }
    }

    /// The whole seconds.
    pub fn as_secs(&self) -> (secs: u64)
        ensures
            secs == self.nanos() / NANOS_PER_SEC as nat,
    {
        proof {
            use_type_invariant(*self);
        }
        (self.nanos / NANOS_PER_SEC) as u64
    }

    /// The nanoseconds beyond the whole seconds.
    pub fn subsec_nanos(&self) -> (nanos: u32)
        ensures
            nanos == self.nanos() % NANOS_PER_SEC as nat,
            nanos < NANOS_PER_SEC,
    {
        (self.nanos % NANOS_PER_SEC) as u32
    }

    /// The whole microseconds, reduced to 64 bits.
    pub fn micros(&self) -> (micros: u64)
        ensures
            micros == (self.nanos() / NANOS_PER_MICRO as nat) % 0x1_0000_0000_0000_0000,
    {
        let whole: u128 = self.nanos / NANOS_PER_MICRO;
        (whole % 0x1_0000_0000_0000_0000) as u64
    }

    /// Whether this span is the longer one.
    pub fn exceeds(&self, other: &Duration) -> (longer: bool)
        ensures
            longer == (self.nanos() > other.nanos()),
    {
        self.nanos > other.nanos
    }

    /// The sum, or the longest span where the sum is longer than that.
    pub fn saturating_add(&self, other: Duration) -> (sum: Duration)
        ensures
            sum.nanos() == if self.nanos() + other.nanos() <= MAX_NANOS {
                self.nanos() + other.nanos()
            } else {
                MAX_NANOS as nat
            },
    {
        proof {
            use_type_invariant(*self);
            use_type_invariant(other);
        }
        let sum: u128 = self.nanos + other.nanos;
        if sum <= MAX_NANOS {
            Duration { nanos: sum }
        } else {
            Duration { nanos: MAX_NANOS }
        }
    }

    /// The difference, or zero where `other` is the longer span.
    pub fn saturating_sub(&self, other: Duration) -> (difference: Duration)
        ensures
            difference.nanos() == if self.nanos() >= other.nanos() {
                (self.nanos() - other.nanos()) as nat
            } else {
                0
            },
    {
        proof {
            use_type_invariant(*self);
        }
        if self.nanos >= other.nanos {
            Duration { nanos: self.nanos - other.nanos }
        } else {
            Duration { nanos: 0 }
        }
    }
}

impl Default for Duration {
    fn default() -> (d: Duration)
        ensures
            d.nanos() == 0,
    {
        Duration { nanos: 0 }
    }
}

} // verus!
