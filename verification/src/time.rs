//! Spans of time.

use vstd::prelude::*;

verus! {

/// The count of nanoseconds in one second.
pub const NANOS_PER_SEC: u32 = 1_000_000_000;

/// A span of time, in whole seconds and the nanoseconds of a part of a second.
#[derive(Debug, Clone, Copy, PartialEq, Eq, Structural)]
pub struct Duration {
    secs: u64,
    nanos: u32,
}

impl Duration {
    /// The part of a second is smaller than a second.
    #[verifier::type_invariant]
    spec fn wf(self) -> bool {
        self.nanos < NANOS_PER_SEC
    }

    /// The length of the span, in nanoseconds.
    pub closed spec fn nanos(self) -> int {
        self.secs * 1_000_000_000 + self.nanos
    }

    /// The length of the span in whole milliseconds.
    pub open spec fn millis(self) -> int {
        self.nanos() / 1_000_000
    }

    /// A span of whole seconds.
    pub fn from_secs(secs: u64) -> (r: Self)
        ensures
            r.nanos() == secs * 1_000_000_000,
    {
        Duration { secs, nanos: 0 }
    }

    /// A span of whole milliseconds.
    pub fn from_millis(millis: u64) -> (r: Self)
        ensures
            r.nanos() == millis * 1_000_000,
    {
        Duration { secs: millis / 1000, nanos: (millis % 1000) as u32 * 1_000_000 }
    }

    /// A span of nanoseconds.
    pub fn from_nanos(nanos: u64) -> (r: Self)
        ensures
            r.nanos() == nanos,
    {
        Duration { secs: nanos / 1_000_000_000, nanos: (nanos % 1_000_000_000) as u32 }
    }

    /// The nanoseconds of the span.
    pub fn as_nanos(&self) -> (r: u128)
        ensures
            r == self.nanos(),
            r < 0x1_0000_0000_0000_0000 * 1_000_000_000,
    {
        proof {
            use_type_invariant(self);
        }
        self.secs as u128 * 1_000_000_000 + self.nanos as u128
    }

    /// The whole milliseconds of the span.
    pub fn as_millis(&self) -> (r: u128)
        ensures
            r == self.millis(),
    {
        proof {
            use_type_invariant(self);
        }
        self.secs as u128 * 1000 + (self.nanos / 1_000_000) as u128
    }
}

/// A span reads back as it was made, in each unit: whole seconds and milliseconds lose nothing, and the
/// milliseconds of a span are those that fit in it whole.
pub proof fn law_spans_read_back(
    n: u64,
    secs: Duration,
    millis: Duration,
    nanos: Duration,
    a: u128,
    b: u128,
    c: u128,
    d: u128,
)
    requires
        call_ensures(Duration::from_secs, (n,), secs),
        call_ensures(Duration::from_millis, (n,), millis),
        call_ensures(Duration::from_nanos, (n,), nanos),
        call_ensures(Duration::as_millis, (&secs,), a),
        call_ensures(Duration::as_millis, (&millis,), b),
        call_ensures(Duration::as_nanos, (&nanos,), c),
        call_ensures(Duration::as_millis, (&nanos,), d),
    ensures
        a == 1000 * n,
        b == n,
        c == n,
        1_000_000 * d <= n < 1_000_000 * d + 1_000_000,
{
}

} // verus!
