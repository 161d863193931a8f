//! Spans of time.

use vstd::prelude::*;

verus! {

/// Nanoseconds in one second.
pub const NANOS_PER_SEC: u32 = 1_000_000_000;

/// A span of time, to the nanosecond.
#[derive(Debug, Clone, Copy, PartialEq, Eq)]
pub struct Duration {
    secs: u64,
    nanos: u32,
}

impl View for Duration {
    type V = nat;

    /// The number of nanoseconds.
    closed spec fn view(&self) -> nat {
        (self.secs * NANOS_PER_SEC + self.nanos) as nat
    }
}

/// What the standard library's `Debug` rendering of a duration of `secs` seconds and
/// `nanos` nanoseconds is.
pub uninterp spec fn debug_duration(secs: u64, nanos: u32) -> Seq<char>;

/// The `Debug` rendering of a span of `n` nanoseconds.
pub open spec fn duration_text(n: nat) -> Seq<char> {
    debug_duration((n / NANOS_PER_SEC as nat) as u64, (n % NANOS_PER_SEC as nat) as u32)
}

/// `<std::time::Duration as Debug>::fmt` through `format!`: what it prints (`300s`,
/// `1.5s`, `2ms`) is a function of the two numbers and is left to the name.
/// `std::time::Duration::new` does not overflow where `nanos` is less than a second.
#[verifier::external_body]
fn shown_duration(secs: u64, nanos: u32) -> (r: String)
    requires
        nanos < NANOS_PER_SEC,
    ensures
        r@ == debug_duration(secs, nanos),
{
    format!("{:?}", std::time::Duration::new(secs, nanos))
}

impl Duration {
    #[verifier::type_invariant]
    spec fn less_than_a_second_of_nanos(self) -> bool {
        self.nanos < NANOS_PER_SEC
    }

    /// `secs` whole seconds.
    pub fn from_secs(secs: u64) -> (r: Duration)
        ensures
            r@ == secs * NANOS_PER_SEC,
            r@ == secs * 1_000_000_000,
    {
        Duration { secs, nanos: 0 }
    }

    /// `millis` milliseconds.
    pub fn from_millis(millis: u64) -> (r: Duration)
        ensures
            r@ == millis * 1_000_000,
    {
        let rest: u32 = (millis % 1000) as u32;
        Duration { secs: millis / 1000, nanos: rest * 1_000_000 }
    }

    /// `secs` seconds and `nanos` nanoseconds; `None` where the second number is not
    /// less than a second.
    pub fn from_parts(secs: u64, nanos: u32) -> (r: Option<Duration>)
        ensures
            r is Some <==> nanos < NANOS_PER_SEC,
            r matches Some(d) ==> d@ == secs * NANOS_PER_SEC + nanos,
    {
        if nanos < NANOS_PER_SEC {
            Some(Duration { secs, nanos })
        } else {
            None
        }
    }

    /// The whole seconds in the span.
    pub fn as_secs(&self) -> (r: u64)
        ensures
            r == self@ / (NANOS_PER_SEC as nat),
    {
        proof {
            use_type_invariant(self);
        }
        self.secs
    }

    /// The nanoseconds beyond the whole seconds.
    pub fn subsec_nanos(&self) -> (r: u32)
        ensures
            r == self@ % (NANOS_PER_SEC as nat),
            r < NANOS_PER_SEC,
    {
        proof {
            use_type_invariant(self);
        }
        self.nanos
    }

    /// The number of nanoseconds in the span.
    pub fn as_nanos(&self) -> (r: u128)
        ensures
            r == self@,
            r <= i128::MAX,
    {
        self.secs as u128 * 1_000_000_000 + self.nanos as u128
    }

    /// The whole milliseconds in the span.
    pub fn as_millis(&self) -> (r: u128)
        ensures
            r == self@ / 1_000_000,
    {
        self.as_nanos() / 1_000_000
    }

    /// The shorter of two spans.
    pub fn min(self, other: Duration) -> (r: Duration)
        ensures
            r@ == if other@ < self@ {
                other@
            } else {
                self@
            },
            r == self || r == other,
    {
        if other.as_nanos() < self.as_nanos() {
            other
        } else {
            self
        }
    }

    /// The span as the standard library's `Debug` shows it.
    pub fn text(&self) -> (r: String)
        ensures
            r@ == duration_text(self@),
    {
        shown_duration(self.as_secs(), self.subsec_nanos())
    }
}

/// A span is shown from its whole seconds and the nanoseconds beyond them.
pub proof fn law_spans_are_split_into_seconds(secs: u64, nanos: u32)
    requires
        nanos < 1_000_000_000,
    ensures
        duration_text((secs * 1_000_000_000 + nanos) as nat) == debug_duration(secs, nanos),
{
    let n = (secs * 1_000_000_000 + nanos) as nat;
    assert(n / 1_000_000_000 == secs && n % 1_000_000_000 == nanos) by (nonlinear_arith)
        requires
            n == secs * 1_000_000_000 + nanos,
            0 <= nanos < 1_000_000_000,
    ;
}

} // verus!
