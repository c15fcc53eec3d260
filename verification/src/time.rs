//! Spans of time as whole seconds and nanoseconds. A point in time is told
//! as the span since a moment that the caller fixes once, such as the start
//! of the process.

use vstd::prelude::*;

verus! {

/// Nanoseconds in a second.
pub const NANOS_PER_SEC: u32 = 1_000_000_000;

/// A span of time: whole seconds, and nanoseconds below one second.
#[derive(Debug, Copy, Clone, PartialEq, Eq, Structural)]
pub struct TimeSpan {
    secs: u64,
    nanos: u32,
}

impl View for TimeSpan {
    type V = nat;

    /// The span in nanoseconds.
    closed spec fn view(&self) -> nat {
        (self.secs as nat) * (NANOS_PER_SEC as nat) + (self.nanos as nat)
    }
}

/// The longest span that a `TimeSpan` can tell, in nanoseconds.
pub open spec fn max_span() -> nat {
    (u64::MAX as nat) * (NANOS_PER_SEC as nat) + (NANOS_PER_SEC as nat - 1) as nat
}

impl TimeSpan {
    /// Whether the nanoseconds stay below one second, as they do in every
    /// span that this module hands out.
    #[verifier::type_invariant]
    pub closed spec fn wf(&self) -> bool {
        self.nanos < NANOS_PER_SEC
    }

    /// The span of `secs` seconds and `nanos` nanoseconds, where `nanos` is
    /// less than a second.
    pub fn new(secs: u64, nanos: u32) -> (span: Option<TimeSpan>)
        ensures
            nanos < NANOS_PER_SEC <==> span is Some,
            span matches Some(s) ==> s.wf() && s@ == secs as nat * NANOS_PER_SEC as nat
                + nanos as nat,
    {
        if nanos < NANOS_PER_SEC {
            Some(TimeSpan { secs, nanos })
        } else {
            None
        }
    }

    /// No time at all.
    pub fn zero() -> (span: TimeSpan)
        ensures
            span.wf(),
            span@ == 0,
    {
        TimeSpan { secs: 0, nanos: 0 }
    }

    /// `secs` whole seconds.
    pub fn from_secs(secs: u64) -> (span: TimeSpan)
        ensures
            span.wf(),
            span@ == secs as nat * NANOS_PER_SEC as nat,
    {
        TimeSpan { secs, nanos: 0 }
    }

    /// `millis` milliseconds.
    pub fn from_millis(millis: u64) -> (span: TimeSpan)
        ensures
            span.wf(),
            span@ == millis as nat * 1_000_000,
    {
        let secs = millis / 1000;
        let rest = millis % 1000;
        assert(rest * 1_000_000 < 1_000_000_000) by (nonlinear_arith)
            requires
                rest < 1000,
        ;
        let nanos: u32 = (rest * 1_000_000) as u32;
        assert(secs as nat * 1_000_000_000 + (rest * 1_000_000) as nat == millis as nat * 1_000_000)
            by (nonlinear_arith)
            requires
                secs == millis / 1000,
                rest == millis % 1000,
        ;
        TimeSpan { secs, nanos }
    }

    /// The whole seconds of the span.
    pub fn secs(&self) -> (secs: u64)
        ensures
            secs as nat == self@ / (NANOS_PER_SEC as nat),
    {
        proof {
            use_type_invariant(self);
        }
        assert((self.secs as nat * 1_000_000_000 + self.nanos as nat) / 1_000_000_000
            == self.secs as nat) by (nonlinear_arith)
            requires
                self.nanos < 1_000_000_000,
        ;
        self.secs
    }

    /// The nanoseconds of the span beyond its whole seconds.
    pub fn subsec_nanos(&self) -> (nanos: u32)
        ensures
            nanos as nat == self@ % (NANOS_PER_SEC as nat),
            nanos < NANOS_PER_SEC,
    {
        proof {
            use_type_invariant(self);
        }
        assert((self.secs as nat * 1_000_000_000 + self.nanos as nat) % 1_000_000_000
            == self.nanos as nat) by (nonlinear_arith)
            requires
                self.nanos < 1_000_000_000,
        ;
        self.nanos
    }

    /// Whether the span is no time at all.
    pub fn is_zero(&self) -> (zero: bool)
        ensures
            zero == (self@ == 0),
    {
        self.secs == 0 && self.nanos == 0
    }

    /// The span in nanoseconds.
    pub fn as_nanos(&self) -> (nanos: u128)
        ensures
            nanos == self@,
            nanos <= max_span(),
    {
        proof {
            use_type_invariant(self);
        }
        assert(self.secs as nat * 1_000_000_000 <= 0xffff_ffff_ffff_ffff * 1_000_000_000)
            by (nonlinear_arith)
            requires
                self.secs <= 0xffff_ffff_ffff_ffff,
        ;
        (self.secs as u128) * (NANOS_PER_SEC as u128) + (self.nanos as u128)
    }

    /// The span of `nanos` nanoseconds, where its seconds can be counted in
    /// sixty-four bits.
    pub fn from_nanos(nanos: u128) -> (span: Option<TimeSpan>)
        ensures
            nanos <= max_span() <==> span is Some,
            span matches Some(s) ==> s.wf() && s@ == nanos,
    {
        let secs = nanos / (NANOS_PER_SEC as u128);
        let rest = nanos % (NANOS_PER_SEC as u128);
        assert(secs <= u64::MAX <==> nanos <= max_span()) by (nonlinear_arith)
            requires
                secs == nanos / 1_000_000_000,
                max_span() == 0xffff_ffff_ffff_ffff * 1_000_000_000 + 999_999_999,
        ;
        if secs <= u64::MAX as u128 {
            assert(secs * 1_000_000_000 + rest == nanos) by (nonlinear_arith)
                requires
                    secs == nanos / 1_000_000_000,
                    rest == nanos % 1_000_000_000,
            ;
            Some(TimeSpan { secs: secs as u64, nanos: rest as u32 })
        } else {
            None
        }
    }
}

/// A span is told by its nanoseconds: two well-formed spans of equal length
/// are the same value.
pub proof fn lemma_span_by_nanos(a: TimeSpan, b: TimeSpan)
    requires
        a.wf(),
        b.wf(),
        a@ == b@,
    ensures
        a == b,
{
    assert(a.secs == b.secs && a.nanos == b.nanos) by (nonlinear_arith)
        requires
            a.secs as nat * 1_000_000_000 + a.nanos as nat == b.secs as nat * 1_000_000_000
                + b.nanos as nat,
            a.nanos < 1_000_000_000,
            b.nanos < 1_000_000_000,
    ;
}

} // verus!
