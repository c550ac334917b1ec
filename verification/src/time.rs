//! Spans of time: positions in a book, and how long things last.

use vstd::prelude::*;

use crate::text;
use crate::text::zero_padded;

verus! {

/// The nanoseconds of a second.
pub const NANOS_PER_SEC: u128 = 1_000_000_000;

/// The longest span, `u64::MAX` seconds and 999 999 999 nanoseconds.
pub const MAX_NANOS: u128 = 18_446_744_073_709_551_615_999_999_999;

/// A span of time, exact to the nanosecond.
#[derive(Clone, Copy, Debug, PartialEq, Eq)]
pub struct Duration {
    nanos: u128,
}

impl View for Duration {
    type V = nat;

    /// The span in nanoseconds.
    closed spec fn view(&self) -> nat {
        self.nanos as nat
    }
}

impl Duration {
    #[verifier::type_invariant]
    spec fn in_range(self) -> bool {
        self.nanos <= MAX_NANOS
    }

    /// No time at all.
    pub fn zero() -> (r: Duration)
        ensures
            r@ == 0,
    {
        Duration { nanos: 0 }
    }

    /// A span of `secs` seconds and `nanos` nanoseconds.
    pub fn new(secs: u64, nanos: u32) -> (r: Duration)
        requires
            nanos < NANOS_PER_SEC,
        ensures
            r@ == secs * NANOS_PER_SEC + nanos,
    {
        Duration { nanos: secs as u128 * NANOS_PER_SEC + nanos as u128 }
    }

    /// A span of whole seconds.
    pub fn from_secs(secs: u64) -> (r: Duration)
        ensures
            r@ == secs * NANOS_PER_SEC,
    {
        Duration { nanos: secs as u128 * NANOS_PER_SEC }
    }

    /// A span of whole milliseconds.
    pub fn from_millis(millis: u64) -> (r: Duration)
        ensures
            r@ == millis * 1_000_000,
    {
        Duration { nanos: millis as u128 * 1_000_000 }
    }

    /// A span of `nanos` nanoseconds, or the longest there is.
    pub fn from_nanos_saturating(nanos: u128) -> (r: Duration)
        ensures
            r@ == if nanos <= MAX_NANOS { nanos as nat } else { MAX_NANOS as nat },
    {
        if nanos <= MAX_NANOS {
            Duration { nanos }
        } else {
            Duration { nanos: MAX_NANOS }
        }
    }

    /// The whole seconds of the span.
    pub fn as_secs(&self) -> (r: u64)
        ensures
            r as int == self@ as int / NANOS_PER_SEC as int,
    {
        proof {
            use_type_invariant(self);
        }
        (self.nanos / NANOS_PER_SEC) as u64
    }

    /// The nanoseconds beyond the whole seconds.
    pub fn subsec_nanos(&self) -> (r: u32)
        ensures
            r as int == self@ as int % NANOS_PER_SEC as int,
    {
        (self.nanos % NANOS_PER_SEC) as u32
    }

    /// The span in nanoseconds.
    pub fn as_nanos(&self) -> (r: u128)
        ensures
            r == self@,
            r <= MAX_NANOS,
    {
        proof {
            use_type_invariant(self);
        }
        self.nanos
    }

    /// The whole microseconds of the span.
    pub fn as_micros(&self) -> (r: u128)
        ensures
            r as int == self@ as int / 1000,
    {
        self.nanos / 1000
    }

    /// Whether this span is no longer than `other`.
    pub fn at_most(&self, other: &Duration) -> (r: bool)
        ensures
            r == (self@ <= other@),
    {
        self.nanos <= other.nanos
    }

    /// Whether this span is shorter than `other`.
    pub fn shorter_than(&self, other: &Duration) -> (r: bool)
        ensures
            r == (self@ < other@),
    {
        self.nanos < other.nanos
    }

    /// Whether two spans are equally long.
    pub fn same_as(&self, other: &Duration) -> (r: bool)
        ensures
            r == (self@ == other@),
    {
        self.nanos == other.nanos
    }

    /// Both spans together, where there is a span that long.
    pub fn checked_add(&self, other: &Duration) -> (r: Option<Duration>)
        ensures
            match r {
                Some(d) => d@ == self@ + other@,
                None => self@ + other@ > MAX_NANOS,
            },
            r is None <==> self@ + other@ > MAX_NANOS,
    {
        proof {
            use_type_invariant(self);
            use_type_invariant(other);
        }
        let sum: u128 = self.nanos + other.nanos;
        if sum <= MAX_NANOS {
            Some(Duration { nanos: sum })
        } else {
            None
        }
    }

    /// What is left of this span after `other`, or nothing.
    pub fn saturating_sub(&self, other: &Duration) -> (r: Duration)
        ensures
            r@ == if self@ >= other@ { (self@ - other@) as nat } else { 0 },
    {
        proof {
            use_type_invariant(self);
        }
        if self.nanos >= other.nanos {
            Duration { nanos: self.nanos - other.nanos }
        } else {
            Duration { nanos: 0 }
        }
    }
}

/// A span of `s` seconds as hours, minutes and seconds.
pub open spec fn hms_text(s: nat) -> Seq<char> {
    text::decimal(s / 3600).push(':') + zero_padded((s % 3600 / 60) as int, 2).push(':') + zero_padded(
        (s % 60) as int,
        2,
    )
}

/// A span of `s` seconds as `H:MM:SS`.
pub fn fmt_hms(s: u64) -> (r: String)
    ensures
        r@ == hms_text(s as nat),
{
    let mut out = text::decimal_string(s / 3600);
    out.push(':');
    text::push_zero_padded(&mut out, ((s % 3600) / 60) as i64, 2);
    out.push(':');
    text::push_zero_padded(&mut out, (s % 60) as i64, 2);
    assert(out@ =~= hms_text(s as nat));
    out
}

} // verus!
