//! Spans of time with nanosecond precision. A moment is the span from a fixed origin to it.
use vstd::prelude::*;

verus! {

/// The nanoseconds of a second.
pub const SECOND: u128 = 1_000_000_000;

/// The longest span in nanoseconds: a nanosecond short of 2 to the 64th seconds.
pub const LONGEST: u128 = 18_446_744_073_709_551_615_999_999_999;

/// `a` less `b`, nothing where `b` is larger.
pub open spec fn less(a: nat, b: nat) -> nat {
    if a > b {
        (a - b) as nat
    } else {
        0
    }
}

/// `a` and `b` together, at most the longest span.
pub open spec fn capped_sum(a: nat, b: nat) -> nat {
    if a + b > LONGEST {
        LONGEST as nat
    } else {
        a + b
    }
}

/// A span of time.
#[derive(Clone, Copy, Debug)]
pub struct Span {
    nanos: u128,
}

impl View for Span {
    type V = nat;

    /// The length in nanoseconds.
    closed spec fn view(&self) -> nat {
        self.nanos as nat
    }
}

impl Span {
    #[verifier::type_invariant]
    spec fn valid(self) -> bool {
        self.nanos <= LONGEST
    }

    /// No time.
    pub fn zero() -> (s: Span)
        ensures
            s@ == 0,
    {
        Span { nanos: 0 }
    }

    /// A span of whole seconds.
    pub fn from_secs(secs: u64) -> (s: Span)
        ensures
            s@ == secs * SECOND,
    {
        Span { nanos: secs as u128 * SECOND }
    }

    /// A span of whole seconds and nanoseconds.
    pub fn new(secs: u64, nanos: u32) -> (s: Span)
        requires
            nanos < SECOND,
        ensures
            s@ == secs * SECOND + nanos,
    {
        Span { nanos: secs as u128 * SECOND + nanos as u128 }
    }

    /// The whole seconds of the span.
    pub fn as_secs(&self) -> (secs: u64)
        ensures
            secs == self@ / (SECOND as nat),
    {
        proof {
            use_type_invariant(self);
        }
        (self.nanos / SECOND) as u64
    }

    /// The span less `other`, nothing where `other` is longer.
    pub fn saturating_sub(&self, other: Span) -> (s: Span)
        ensures
            s@ == less(self@, other@),
    {
        proof {
            use_type_invariant(self);
        }
        if self.nanos > other.nanos {
            Span { nanos: self.nanos - other.nanos }
        } else {
            Span { nanos: 0 }
        }
    }

    /// The span and `other` together, at most the longest span.
    pub fn saturating_add(&self, other: Span) -> (s: Span)
        ensures
            s@ == capped_sum(self@, other@),
    {
        proof {
            use_type_invariant(self);
            use_type_invariant(&other);
        }
        let sum = self.nanos + other.nanos;
        if sum > LONGEST {
            Span { nanos: LONGEST }
        } else {
            Span { nanos: sum }
        }
    }

    /// Whether the span is at least as long as `other`.
    pub fn at_least(&self, other: Span) -> (yes: bool)
        ensures
            yes == (self@ >= other@),
    {
        self.nanos >= other.nanos
    }

    /// Whether the span is at least twice as long as `other`.
    pub fn at_least_twice(&self, other: Span) -> (yes: bool)
        ensures
            yes == (self@ >= 2 * other@),
    {
        proof {
            use_type_invariant(&other);
        }
        self.nanos >= 2 * other.nanos
    }
}

} // verus!
