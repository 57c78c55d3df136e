//! Timestamps and durations.
//!
//! Nothing here reads a clock. Every moment arrives from outside, which is what
//! makes a whole dictation session replayable.

use crate::chars::{decimal, digit, push_decimal, push_text};
use crate::single::{
    exponent, lemma_power_order, lemma_shortfall_bound, nearest_whole, scaled_round, shifted,
    shortfall, significand, whole, Single, FULL_RANGE, HALF_RANGE,
};
use vstd::arithmetic::power2::{
    lemma2_to64, lemma2_to64_rest, lemma_pow2_adds, lemma_pow2_pos, lemma_pow2_strictly_increases,
    pow2,
};
use vstd::prelude::*;

verus! {

/// A monotonic timestamp or duration in milliseconds.
#[derive(Clone, Copy, Debug, Default, PartialEq, Eq, PartialOrd, Ord, Hash)]
pub struct Millis(pub u64);

impl Millis {
    pub fn from_secs(secs: u64) -> (r: Self)
        requires
            secs * 1000 <= u64::MAX,
        ensures
            r.0 == secs * 1000,
    {
        Millis(secs * 1000)
    }

    /// The time from `earlier` to `self`, or zero if `earlier` is later.
    pub open spec fn after(self, earlier: Self) -> Self {
        Millis(
            if self.0 >= earlier.0 {
                (self.0 - earlier.0) as u64
            } else {
                0
            },
        )
    }

    /// Elapsed time from `earlier` to `self`, saturating at zero.
    ///
    /// Saturation rather than failure is deliberate: clocks handed over by the
    /// daemon come from separate threads and may arrive marginally out of order.
    pub fn since(self, earlier: Self) -> (r: Self)
        ensures
            r == self.after(earlier),
    {
        Millis(self.0.saturating_sub(earlier.0))
    }

    /// The time in seconds, in single precision.
    pub open spec fn seconds(self) -> Single {
        let n = whole(self.0 as nat);
        Single { mant: significand(n, 1000) as u32, exp: exponent(n, 1000) as i32 }
    }

    #[must_use]
    pub fn as_secs(self) -> (r: Single)
        ensures
            r == self.seconds(),
            r.mant <= FULL_RANGE,
            -128 < r.exp <= 65,
    {
        let n: u128 = nearest_whole(self.0);
        let s = Single::ratio(n, 1000);
        proof {
            if s.exp > 0 {
                lemma2_to64();
                lemma2_to64_rest();
                lemma_pow2_adds(64, 1);
                assert(pow2(s.exp as nat) <= pow2(65)) by (nonlinear_arith)
                    requires
                        1000 * pow2(s.exp as nat) * 0x80_0000 <= n,
                        n <= pow2(65),
                        pow2(s.exp as nat) >= 0,
                ;
                lemma_power_order(s.exp as nat, 65);
            }
        }
        s
    }

    /// What the time reads: whole milliseconds below ten seconds, and seconds to
    /// one decimal from there on.
    pub open spec fn text(self) -> Seq<char> {
        if self.0 >= 10_000 {
            let s = self.seconds();
            tenths_text(scaled_round(s.mant as nat, s.exp as int, 10)) + "s"@
        } else {
            decimal(self.0 as nat) + "ms"@
        }
    }

    /// The time as it is shown to the user.
    pub fn to_text(&self) -> (r: String)
        ensures
            r@ == self.text(),
    {
        let mut out = String::new();
        if self.0 >= 10_000 {
            push_tenths(&mut out, self.as_secs().round_times(10));
            push_text(&mut out, "s");
            assert(out@ =~= self.text());
        } else {
            push_decimal(&mut out, self.0 as u128);
            push_text(&mut out, "ms");
            assert(out@ =~= self.text());
        }
        out
    }
}

/// A number of tenths, written with one decimal.
pub open spec fn tenths_text(t: nat) -> Seq<char> {
    decimal(t / 10).push('.').push(digit(t % 10))
}

/// Appends a number of tenths, written with one decimal.
pub fn push_tenths(out: &mut String, t: u128)
    ensures
        final(out)@ == old(out)@ + tenths_text(t as nat),
{
    push_decimal(out, t / 10);
    out.push('.');
    out.push((('0' as u8) + ((t % 10) as u8)) as char);
    assert(out@ =~= old(out)@ + tenths_text(t as nat));
}

/// A length of time in whole seconds and the nanoseconds beyond them.
#[derive(Clone, Copy, Debug, Default, PartialEq, Eq, PartialOrd, Ord, Hash)]
pub struct Span {
    pub secs: u64,
    pub nanos: u32,
}

/// Nanoseconds in a second.
pub const SECOND: u32 = 1_000_000_000;

impl Span {
    /// The nanoseconds beyond the whole seconds make no further second.
    pub open spec fn valid(self) -> bool {
        self.nanos < SECOND
    }

    /// The length in nanoseconds.
    pub open spec fn total(self) -> nat {
        (self.secs * SECOND + self.nanos) as nat
    }

    pub fn from_millis(millis: u64) -> (r: Self)
        ensures
            r.valid(),
            r.total() == millis * 1_000_000,
    {
        Span { secs: millis / 1000, nanos: ((millis % 1000) as u32) * 1_000_000 }
    }

    /// The two lengths end to end.
    pub fn plus(self, more: Self) -> (r: Self)
        requires
            self.valid(),
            more.valid(),
            self.total() + more.total() < (u64::MAX + 1) * SECOND,
        ensures
            r.valid(),
            r.total() == self.total() + more.total(),
    {
        let nanos: u32 = self.nanos + more.nanos;
        if nanos >= SECOND {
            Span { secs: self.secs + more.secs + 1, nanos: nanos - SECOND }
        } else {
            Span { secs: self.secs + more.secs, nanos }
        }
    }

    /// The length in nanoseconds.
    pub fn as_nanos(self) -> (r: u128)
        ensures
            r == self.total(),
            r <= 0xffff_ffff_ffff_ffff * 1_000_000_000 + 0xffff_ffff,
    {
        (self.secs as u128) * 1_000_000_000 + (self.nanos as u128)
    }

    /// A length given in nanoseconds.
    pub fn from_nanos(nanos: u128) -> (r: Self)
        requires
            nanos < (u64::MAX + 1) * SECOND,
        ensures
            r.valid(),
            r.total() == nanos,
    {
        Span { secs: (nanos / 1_000_000_000) as u64, nanos: (nanos % 1_000_000_000) as u32 }
    }

    /// The part below one second in units of 2^-53 seconds, in single precision.
    pub open spec fn fraction(self) -> nat {
        if self.nanos == 0 {
            0
        } else {
            let n = whole(self.nanos as nat);
            significand(n, SECOND as nat) * pow2((53 + exponent(n, SECOND as nat)) as nat)
        }
    }

    /// The length in seconds, in single precision: the whole seconds and the
    /// fraction are each rounded, and so is their sum.
    pub open spec fn seconds(self) -> Single {
        let n = whole(self.secs as nat) * 0x20_0000_0000_0000 + self.fraction();
        Single {
            mant: significand(n, 0x20_0000_0000_0000) as u32,
            exp: exponent(n, 0x20_0000_0000_0000) as i32,
        }
    }

    fn fraction_units(self) -> (r: u128)
        ensures
            r == self.fraction(),
            r <= 0x20_0000_0000_0000_0000_0000,
            self.nanos > 0 ==> r >= HALF_RANGE,
            self.nanos == 0 ==> r == 0,
    {
        if self.nanos == 0 {
            return 0;
        }
        let n: u128 = nearest_whole(self.nanos as u64);
        let s = Single::ratio(n, SECOND as u128);
        proof {
            lemma2_to64();
            lemma2_to64_rest();
            assert(n * pow2(53) >= SECOND * 0x80_0000) by (nonlinear_arith)
                requires
                    n >= 1,
                    pow2(53) == 0x20_0000_0000_0000,
            ;
            lemma_shortfall_bound(n as nat, SECOND as nat, 53);
            let e = (53 + s.exp) as nat;
            if e < 53 {
                lemma_pow2_strictly_increases(e, 53);
            }
            assert(s.mant * pow2(e) <= 0x100_0000 * pow2(53)) by (nonlinear_arith)
                requires
                    s.mant <= 0x100_0000,
                    pow2(e) <= pow2(53),
            ;
            lemma_pow2_pos(e);
            assert(s.mant * pow2(e) >= s.mant) by (nonlinear_arith)
                requires
                    pow2(e) >= 1,
                    s.mant >= 0,
            ;
        }
        shifted(s.mant as u128, (53 + s.exp) as u32)
    }

    /// The length in seconds, in single precision.
    pub fn as_secs(self) -> (r: Single)
        ensures
            r == self.seconds(),
            r.mant <= FULL_RANGE,
            -127 < r.exp <= 42,
            r.mant == 0 <==> self.secs == 0 && self.nanos == 0,
            r.mant > 0 ==> r.mant >= HALF_RANGE && r.exp >= -53,
    {
        let whole_secs: u128 = nearest_whole(self.secs);
        let fraction: u128 = self.fraction_units();
        let n: u128 = whole_secs * 0x20_0000_0000_0000 + fraction;
        let s = Single::ratio(n, 0x20_0000_0000_0000);
        proof {
            lemma2_to64();
            lemma2_to64_rest();
            if s.exp > 0 {
                assert(pow2(s.exp as nat) < pow2(43)) by (nonlinear_arith)
                    requires
                        0x20_0000_0000_0000 * pow2(s.exp as nat) * 0x80_0000 <= n,
                        n <= 0x1_ffff_ffff_ffff_fffe * 0x20_0000_0000_0000
                            + 0x20_0000_0000_0000_0000_0000,
                        pow2(43) == 0x800_0000_0000,
                        pow2(s.exp as nat) >= 0,
                ;
                lemma_power_order(s.exp as nat, 43);
            }
            if n > 0 {
                assert(n * pow2(53) >= 0x20_0000_0000_0000 * 0x80_0000) by (nonlinear_arith)
                    requires
                        n >= 0x80_0000,
                        pow2(53) == 0x20_0000_0000_0000,
                ;
                lemma_shortfall_bound(n as nat, 0x20_0000_0000_0000, 53);
            } else {
                assert(0 * pow2(shortfall(0, 0x20_0000_0000_0000)) == 0);
            }
        }
        s
    }
}

impl core::ops::Add for Millis {
    type Output = Millis;

    fn add(self, rhs: Millis) -> (r: Millis) {
        Millis(self.0.saturating_add(rhs.0))
    }
}

impl vstd::std_specs::ops::AddSpecImpl for Millis {
    open spec fn obeys_add_spec() -> bool {
        true
    }

    open spec fn add_req(self, rhs: Millis) -> bool {
        true
    }

    open spec fn add_spec(self, rhs: Millis) -> Millis {
        Millis(
            if self.0 + rhs.0 <= u64::MAX {
                (self.0 + rhs.0) as u64
            } else {
                u64::MAX
            },
        )
    }
}

impl core::ops::AddAssign for Millis {
    fn add_assign(&mut self, rhs: Millis)
        ensures
            final(self).0 == (if old(self).0 + rhs.0 <= u64::MAX {
                old(self).0 + rhs.0
            } else {
                u64::MAX as int
            }),
    {
        self.0 = self.0.saturating_add(rhs.0);
    }
}

impl core::ops::Sub for Millis {
    type Output = Millis;

    fn sub(self, rhs: Millis) -> (r: Millis) {
        self.since(rhs)
    }
}

impl vstd::std_specs::ops::SubSpecImpl for Millis {
    open spec fn obeys_sub_spec() -> bool {
        true
    }

    open spec fn sub_req(self, rhs: Millis) -> bool {
        true
    }

    open spec fn sub_spec(self, rhs: Millis) -> Millis {
        self.after(rhs)
    }
}

} // verus!
