//! Single-precision arithmetic on integers.
//!
//! A few figures Murmur reports are defined as single-precision quotients. They
//! are worked out here on whole numbers, rounding to 24 significant bits, ties to
//! even, exactly where the floating-point operation would round.

use vstd::arithmetic::div_mod::*;
use vstd::arithmetic::mul::*;
use vstd::arithmetic::power2::*;
use vstd::prelude::*;

verus! {

/// The number of values a significand of 23 stored bits can take.
pub const HALF_RANGE: u128 = 0x80_0000;

/// One more than the largest 24-bit significand.
pub const FULL_RANGE: u128 = 0x100_0000;

/// A non-negative number `mant * 2^exp`.
#[derive(Clone, Copy, Debug, PartialEq, Eq)]
pub struct Single {
    pub mant: u32,
    pub exp: i32,
}

/// `n / d` rounded to a whole number, ties to even.
pub open spec fn rounded(n: nat, d: nat) -> nat {
    let q = n / d;
    let r = n % d;
    if 2 * r > d || (2 * r == d && q % 2 == 1) {
        q + 1
    } else {
        q
    }
}

/// How often `d` must double before `n / d` is below 2^24.
pub open spec fn excess(n: nat, d: nat) -> nat
    decreases n / d,
{
    if d == 0 || n < d * FULL_RANGE {
        0
    } else {
        proof {
            lemma_halves(n, d);
        }
        1 + excess(n, 2 * d)
    }
}

/// How often `n` must double before `n / d` is at least 2^23.
pub open spec fn shortfall(n: nat, d: nat) -> nat
    decreases d * FULL_RANGE - n,
{
    if n == 0 || n >= d * HALF_RANGE {
        0
    } else {
        1 + shortfall(2 * n, d)
    }
}

/// The exponent of `n / d` when its significand has 24 bits.
pub open spec fn exponent(n: nat, d: nat) -> int {
    if n >= d * FULL_RANGE {
        excess(n, d) as int
    } else {
        -(shortfall(n, d) as int)
    }
}

/// The significand of `n / d`, rounded to 24 bits.
pub open spec fn significand(n: nat, d: nat) -> nat {
    if n >= d * FULL_RANGE {
        rounded(n, d * pow2(excess(n, d)))
    } else {
        rounded(n * pow2(shortfall(n, d)), d)
    }
}

/// The whole number nearest to `x` that single precision can hold.
pub open spec fn whole(x: nat) -> nat {
    if x < FULL_RANGE {
        x
    } else {
        significand(x, 1) * pow2(excess(x, 1))
    }
}

/// `m * 2^e * k` rounded to a whole number, ties to even.
pub open spec fn scaled_round(m: nat, e: int, k: nat) -> nat {
    if e >= 0 {
        m * pow2(e as nat) * k
    } else {
        rounded(m * k, pow2((-e) as nat))
    }
}

/// The smallest whole number that is at least `m * 2^e`.
pub open spec fn ceiling(m: nat, e: int) -> nat {
    if e >= 0 {
        m * pow2(e as nat)
    } else {
        let d = pow2((-e) as nat);
        m / d + (if m % d == 0 {
            0nat
        } else {
            1nat
        })
    }
}

/// `m * 2^e`, rounded to a whole number, halves up.
pub open spec fn half_up(m: nat, e: int) -> nat {
    if e >= 0 {
        m * pow2(e as nat)
    } else {
        let d = pow2((-e) as nat);
        (2 * m + d) / (2 * d)
    }
}

pub proof fn lemma_halves(n: nat, d: nat)
    requires
        d > 0,
        n >= d * FULL_RANGE,
    ensures
        n / (2 * d) < n / d,
{
    let q = n / (2 * d);
    lemma_fundamental_div_mod(n as int, (2 * d) as int);
    assert((2 * d) * q == d * (2 * q)) by (nonlinear_arith);
    assert(d * (2 * q) <= n);
    lemma_div_is_ordered((d * (2 * q)) as int, n as int, d as int);
    lemma_div_multiples_vanish((2 * q) as int, d as int);
    assert(n / d >= 2 * q);
    lemma_div_is_ordered((d * FULL_RANGE) as int, n as int, d as int);
    lemma_div_multiples_vanish(FULL_RANGE as int, d as int);
    if q == 0 {
        assert(n / d >= FULL_RANGE);
    }
}

/// A power of two that fits in 127 bits has an exponent below 128.
proof fn lemma_small_power(e: nat, x: nat)
    requires
        pow2(e) <= x < 0x8000_0000_0000_0000_0000_0000_0000_0000,
    ensures
        e < 127,
{
    lemma2_to64_rest();
    lemma_pow2_adds(64, 63);
    assert(pow2(127) == 0x8000_0000_0000_0000_0000_0000_0000_0000);
    if e > 127 {
        lemma_pow2_strictly_increases(127, e);
    }
}

/// A power of two that is at most another has an exponent that is at most the other's.
pub proof fn lemma_power_order(e: nat, k: nat)
    requires
        pow2(e) <= pow2(k),
    ensures
        e <= k,
{
    if e > k {
        lemma_pow2_strictly_increases(k, e);
    }
}

/// Doubling `k` times is enough once `n * 2^k / d` has reached 2^23.
pub proof fn lemma_shortfall_bound(n: nat, d: nat, k: nat)
    requires
        n > 0,
        n * pow2(k) >= d * HALF_RANGE,
    ensures
        shortfall(n, d) <= k,
    decreases k,
{
    if n < d * HALF_RANGE {
        if k == 0 {
            lemma2_to64();
            assert(n * 1 == n);
        } else {
            lemma_pow2_unfold(k);
            assert(n * (2 * pow2((k - 1) as nat)) == (2 * n) * pow2((k - 1) as nat)) by (nonlinear_arith);
            lemma_shortfall_bound(2 * n, d, (k - 1) as nat);
        }
    }
}

/// Doubled as often as `shortfall` says, a quotient below 2^24 is from 2^23 up.
pub proof fn lemma_shortfall(n: nat, d: nat)
    requires
        0 < n < d * FULL_RANGE,
    ensures
        d * HALF_RANGE <= n * pow2(shortfall(n, d)) < d * FULL_RANGE,
    decreases d * FULL_RANGE - n,
{
    lemma2_to64();
    if n < d * HALF_RANGE {
        lemma_shortfall(2 * n, d);
        let k = shortfall(2 * n, d);
        lemma_pow2_unfold(k + 1);
        assert(n * (2 * pow2(k)) == (2 * n) * pow2(k)) by (nonlinear_arith);
    } else {
        assert(n * 1 == n);
    }
}

/// Halved as often as `excess` says, a quotient from 2^24 up is from 2^23 up to
/// 2^24.
pub proof fn lemma_excess(n: nat, d: nat)
    requires
        d > 0,
        n >= d * FULL_RANGE,
    ensures
        d * pow2(excess(n, d)) * HALF_RANGE <= n < d * pow2(excess(n, d)) * FULL_RANGE,
    decreases n / d,
{
    lemma2_to64();
    lemma_halves(n, d);
    let k = excess(n, 2 * d);
    lemma_pow2_unfold(k + 1);
    assert((2 * d) * pow2(k) == d * (2 * pow2(k))) by (nonlinear_arith);
    if n >= (2 * d) * FULL_RANGE {
        lemma_excess(n, 2 * d);
    } else {
        assert((2 * d) * 1 == 2 * d);
        assert((2 * d) * HALF_RANGE == d * FULL_RANGE) by (nonlinear_arith)
            requires
                FULL_RANGE == 2 * HALF_RANGE,
        ;
    }
}

/// A quotient of 2^k times a number from 2^23 up to 2^24 is halved `k` times.
pub proof fn lemma_excess_of_scaled(m: nat, k: nat, d: nat)
    requires
        HALF_RANGE <= m < FULL_RANGE,
        d > 0,
    ensures
        excess(m * pow2(k) * d, d) == k,
    decreases k,
{
    lemma2_to64();
    if k == 0 {
        assert(m * 1 * d < d * FULL_RANGE) by (nonlinear_arith)
            requires
                m < FULL_RANGE,
                d > 0,
        ;
    } else {
        let j = (k - 1) as nat;
        lemma_pow2_unfold(k);
        lemma_pow2_pos(j);
        let n = m * pow2(k) * d;
        assert(n >= d * FULL_RANGE) by (nonlinear_arith)
            requires
                n == m * (2 * pow2(j)) * d,
                m >= HALF_RANGE,
                FULL_RANGE == 2 * HALF_RANGE,
                pow2(j) >= 1,
                d > 0,
        ;
        lemma_excess_of_scaled(m, j, 2 * d);
        assert(m * pow2(j) * (2 * d) == m * (2 * pow2(j)) * d) by (nonlinear_arith);
    }
}

/// A multiple of the divisor needs no rounding.
pub proof fn lemma_rounded_exact(q: nat, d: nat)
    requires
        d > 0,
    ensures
        rounded(q * d, d) == q,
{
    lemma_div_multiples_vanish(q as int, d as int);
    lemma_mod_multiples_basic(q as int, d as int);
    assert(d * q == q * d) by (nonlinear_arith);
}

/// A quotient below 2^24 rounds to at most 2^24.
pub proof fn lemma_rounded_bound(n: nat, d: nat)
    requires
        d > 0,
        n < d * FULL_RANGE,
    ensures
        rounded(n, d) <= FULL_RANGE,
        n >= d * HALF_RANGE ==> rounded(n, d) >= HALF_RANGE,
{
    lemma_fundamental_div_mod(n as int, d as int);
    if n >= d * HALF_RANGE {
        lemma_div_is_ordered((d * HALF_RANGE) as int, n as int, d as int);
        lemma_div_multiples_vanish(HALF_RANGE as int, d as int);
    }
    if n / d >= FULL_RANGE {
        lemma_mul_inequality(FULL_RANGE as int, (n / d) as int, d as int);
        assert(d * (n / d) == (n / d) * d) by (nonlinear_arith);
        assert(d * FULL_RANGE == FULL_RANGE * d) by (nonlinear_arith);
    }
}

/// `n / d` rounded to a whole number, ties to even.
pub fn round_div(n: u128, d: u128) -> (r: u128)
    requires
        0 < d <= u128::MAX / 2,
        n < u128::MAX,
    ensures
        r == rounded(n as nat, d as nat),
{
    let q: u128 = n / d;
    let rest: u128 = n % d;
    proof {
        assert(q <= n) by {
            lemma_div_is_ordered_by_denominator(n as int, 1, d as int);
            lemma_div_basics(n as int);
        }
    }
    if 2 * rest > d || (2 * rest == d && q % 2 == 1) {
        q + 1
    } else {
        q
    }
}

/// `m * 2^e`.
pub fn shifted(m: u128, e: u32) -> (r: u128)
    requires
        m * pow2(e as nat) <= u128::MAX,
    ensures
        r == m * pow2(e as nat),
{
    let mut out: u128 = m;
    let mut i: u32 = 0;
    proof {
        lemma2_to64();
    }
    while i < e
        invariant
            i <= e,
            m * pow2(e as nat) <= u128::MAX,
            out == m * pow2(i as nat),
        decreases e - i,
    {
        proof {
            lemma_pow2_unfold((i + 1) as nat);
            assert(2 * (m * pow2(i as nat)) == m * (2 * pow2(i as nat))) by (nonlinear_arith);
            if i + 1 < e {
                lemma_pow2_strictly_increases((i + 1) as nat, e as nat);
            }
            lemma_mul_inequality(pow2((i + 1) as nat) as int, pow2(e as nat) as int, m as int);
            assert(m * pow2((i + 1) as nat) == pow2((i + 1) as nat) * m) by (nonlinear_arith);
            assert(m * pow2(e as nat) == pow2(e as nat) * m) by (nonlinear_arith);
        }
        out = 2 * out;
        i = i + 1;
    }
    out
}

/// The whole number nearest to `x` that single precision can hold.
pub fn nearest_whole(x: u64) -> (r: u128)
    ensures
        r == whole(x as nat),
        r <= 2 * x,
        x > 0 ==> r > 0,
{
    if (x as u128) < FULL_RANGE {
        return x as u128;
    }
    let s = Single::ratio(x as u128, 1);
    proof {
        let p = pow2(s.exp as nat);
        if s.exp == 0 {
            lemma2_to64();
        }
        assert(1 * p == p);
        lemma_pow2_pos(s.exp as nat);
        assert(s.mant * p > 0) by (nonlinear_arith)
            requires
                s.mant > 0,
                p > 0,
        ;
        assert(s.mant * p <= FULL_RANGE * p) by (nonlinear_arith)
            requires
                s.mant <= FULL_RANGE,
                p >= 0,
        ;
        assert(FULL_RANGE * p == 2 * (p * HALF_RANGE)) by (nonlinear_arith)
            requires
                FULL_RANGE == 2 * HALF_RANGE,
        ;
    }
    shifted(s.mant as u128, s.exp as u32)
}

impl Single {
    /// `n / d` in single precision.
    pub fn ratio(n: u128, d: u128) -> (r: Self)
        requires
            d > 0,
            n < 0x1000_0000_0000_0000_0000_0000_0000_0000,
            d < 0x10_0000_0000_0000_0000_0000_0000,
        ensures
            r.mant == significand(n as nat, d as nat),
            r.exp == exponent(n as nat, d as nat),
            r.mant <= FULL_RANGE,
            -127 < r.exp < 127,
            r.exp > 0 ==> d * pow2(r.exp as nat) * HALF_RANGE <= n,
            n > 0 ==> r.mant >= HALF_RANGE,
    {
        proof {
            lemma2_to64();
        }
        if n >= d * FULL_RANGE {
            let mut scaled: u128 = d;
            let mut e: i32 = 0;
            while n >= scaled * FULL_RANGE
                invariant
                    n < 0x1000_0000_0000_0000_0000_0000_0000_0000,
                    0 < d <= scaled,
                    scaled < 0x100_0000_0000_0000_0000_0000_0000,
                    0 <= e,
                    e > 0 ==> scaled * HALF_RANGE <= n,
                    pow2(e as nat) <= scaled,
                    scaled == d * pow2(e as nat),
                    excess(n as nat, d as nat) == e + excess(n as nat, scaled as nat),
                decreases n / scaled,
            {
                proof {
                    lemma_halves(n as nat, scaled as nat);
                    lemma_pow2_unfold((e + 1) as nat);
                    assert(2 * (d * pow2(e as nat)) == d * (2 * pow2(e as nat))) by (nonlinear_arith);
                    lemma_small_power(e as nat, scaled as nat);
                }
                scaled = 2 * scaled;
                e = e + 1;
            }
            let m: u128 = round_div(n, scaled);
            proof {
                lemma_small_power(e as nat, scaled as nat);
                lemma_rounded_bound(n as nat, scaled as nat);
            }
            Single { mant: m as u32, exp: e }
        } else {
            let mut scaled: u128 = n;
            let mut e: i32 = 0;
            while scaled != 0 && scaled < d * HALF_RANGE
                invariant
                    0 < d < 0x10_0000_0000_0000_0000_0000_0000,
                    scaled < d * FULL_RANGE,
                    e <= 0,
                    scaled == 0 <==> n == 0,
                    n != 0 ==> pow2((-e) as nat) <= scaled,
                    n == 0 ==> e == 0,
                    scaled == n * pow2((-e) as nat),
                    shortfall(n as nat, d as nat) == (-e) + shortfall(scaled as nat, d as nat),
                decreases d * FULL_RANGE - scaled,
            {
                proof {
                    lemma_pow2_unfold((1 - e) as nat);
                    assert(2 * (n * pow2((-e) as nat)) == n * (2 * pow2((-e) as nat)))
                        by (nonlinear_arith);
                    lemma_small_power((-e) as nat, scaled as nat);
                }
                scaled = 2 * scaled;
                e = e - 1;
            }
            let m: u128 = round_div(scaled, d);
            proof {
                if n != 0 {
                    lemma_small_power((-e) as nat, scaled as nat);
                }
                lemma_rounded_bound(scaled as nat, d as nat);
            }
            Single { mant: m as u32, exp: e }
        }
    }

    /// The exponent is one that a single-precision number can have.
    pub open spec fn ordinary(self) -> bool {
        -149 <= self.exp <= 128
    }

    pub open spec fn over_spec(self, d: Self) -> Self {
        Single {
            mant: significand(self.mant as nat, d.mant as nat) as u32,
            exp: (exponent(self.mant as nat, d.mant as nat) + self.exp - d.exp) as i32,
        }
    }

    /// The single-precision quotient.
    pub fn over(self, d: Self) -> (r: Self)
        requires
            d.mant > 0,
            -10_000 < self.exp < 10_000,
            -10_000 < d.exp < 10_000,
        ensures
            r == self.over_spec(d),
            r.mant <= FULL_RANGE,
            self.exp - d.exp - 127 < r.exp < self.exp - d.exp + 127,
            self.mant <= FULL_RANGE && d.mant >= HALF_RANGE ==> r.exp <= self.exp - d.exp,
    {
        let q = Single::ratio(self.mant as u128, d.mant as u128);
        proof {
            if self.mant <= FULL_RANGE && d.mant >= HALF_RANGE {
                assert(d.mant * FULL_RANGE > FULL_RANGE) by (nonlinear_arith)
                    requires
                        d.mant >= 2,
                        FULL_RANGE == 0x100_0000,
                ;
            }
        }
        Single { mant: q.mant, exp: q.exp + self.exp - d.exp }
    }

    pub open spec fn times_spec(self, f: Self) -> Self {
        Single {
            mant: significand((self.mant * f.mant) as nat, 1) as u32,
            exp: (exponent((self.mant * f.mant) as nat, 1) + self.exp + f.exp) as i32,
        }
    }

    /// The single-precision product.
    pub fn times(self, f: Self) -> (r: Self)
        requires
            -10_000 < self.exp < 10_000,
            -10_000 < f.exp < 10_000,
        ensures
            r == self.times_spec(f),
            r.mant <= FULL_RANGE,
            self.exp + f.exp - 127 < r.exp < self.exp + f.exp + 127,
    {
        let a: u128 = self.mant as u128;
        let b: u128 = f.mant as u128;
        assert(a * b <= 0xffff_ffff * 0xffff_ffff) by (nonlinear_arith)
            requires
                a <= 0xffff_ffff,
                b <= 0xffff_ffff,
        ;
        let q = Single::ratio(a * b, 1);
        Single { mant: q.mant, exp: q.exp + self.exp + f.exp }
    }

    /// The number times `k`, rounded to a whole number, ties to even.
    pub fn round_times(self, k: u32) -> (r: u128)
        requires
            self.mant <= FULL_RANGE,
            k <= 1_000_000_000,
            -10_000 < self.exp <= 96,
            k <= 10 || self.exp <= 64,
        ensures
            r == scaled_round(self.mant as nat, self.exp as int, k as nat),
    {
        let m: u128 = self.mant as u128;
        if self.exp >= 0 {
            let ghost top: nat = if k <= 10 {
                96
            } else {
                64
            };
            proof {
                let p = pow2(self.exp as nat);
                lemma2_to64();
                lemma2_to64_rest();
                lemma_pow2_adds(64, 32);
                assert(pow2(96) == 0x1_0000_0000_0000_0000_0000_0000);
                if self.exp < top {
                    lemma_pow2_strictly_increases(self.exp as nat, top);
                }
                assert(m * p <= FULL_RANGE * pow2(top)) by (nonlinear_arith)
                    requires
                        m <= FULL_RANGE,
                        p <= pow2(top),
                ;
            }
            let whole = shifted(m, self.exp as u32);
            assert(whole * k <= u128::MAX) by (nonlinear_arith)
                requires
                    (k <= 10 && whole <= 0x100_0000 * 0x1_0000_0000_0000_0000_0000_0000) || (k
                        <= 1_000_000_000 && whole <= 0x100_0000 * 0x1_0000_0000_0000_0000),
            ;
            whole * (k as u128)
        } else {
            assert(m * k <= 1_000_000_000 * FULL_RANGE) by (nonlinear_arith)
                requires
                    m <= FULL_RANGE,
                    k <= 1_000_000_000,
            ;
            let top: u128 = m * (k as u128);
            if self.exp < -64 {
                proof {
                    let d = pow2((-self.exp) as nat);
                    lemma2_to64_rest();
                    lemma_pow2_strictly_increases(64, (-self.exp) as nat);
                    lemma_basic_div(top as int, d as int);
                    lemma_small_mod(top as nat, d as nat);
                }
                return 0;
            }
            proof {
                let e = (-self.exp) as nat;
                lemma2_to64_rest();
                if e < 64 {
                    lemma_pow2_strictly_increases(e, 64);
                }
                lemma_pow2_pos(e);
                assert(1 * pow2(e) == pow2(e));
            }
            let d = shifted(1, (-self.exp) as u32);
            round_div(top, d)
        }
    }

    /// The number rounded to a whole number, halves up, but no more than `cap`.
    pub fn round_capped(self, cap: u32) -> (r: u32)
        requires
            self.mant <= FULL_RANGE,
            -10_000 < self.exp < 10_000,
        ensures
            r == (if half_up(self.mant as nat, self.exp as int) < cap {
                half_up(self.mant as nat, self.exp as int) as int
            } else {
                cap as int
            }),
    {
        let m: u128 = self.mant as u128;
        if m == 0 {
            proof {
                if self.exp >= 0 {
                    assert(0 * pow2(self.exp as nat) == 0);
                } else {
                    let d = pow2((-self.exp) as nat);
                    lemma_pow2_pos((-self.exp) as nat);
                    lemma_basic_div(d as int, (2 * d) as int);
                    assert((2 * 0 + d) / (2 * d) == 0);
                }
            }
            return 0;
        }
        if self.exp >= 32 {
            proof {
                let p = pow2(self.exp as nat);
                lemma2_to64();
                if self.exp > 32 {
                    lemma_pow2_strictly_increases(32, self.exp as nat);
                }
                assert(m * p >= p) by (nonlinear_arith)
                    requires
                        m >= 1,
                        p >= 0,
                ;
            }
            return cap;
        }
        let whole: u128 = if self.exp >= 0 {
            proof {
                let p = pow2(self.exp as nat);
                lemma2_to64();
                lemma_pow2_strictly_increases(self.exp as nat, 32);
                assert(m * p <= FULL_RANGE * 0x1_0000_0000) by (nonlinear_arith)
                    requires
                        m <= FULL_RANGE,
                        p <= 0x1_0000_0000,
                ;
            }
            shifted(m, self.exp as u32)
        } else if self.exp < -64 {
            proof {
                let e = (-self.exp) as nat;
                let d = pow2(e);
                lemma2_to64_rest();
                lemma_pow2_strictly_increases(64, e);
                lemma_basic_div((2 * m + d) as int, (2 * d) as int);
            }
            0
        } else {
            proof {
                let e = (-self.exp) as nat;
                lemma2_to64_rest();
                if e < 64 {
                    lemma_pow2_strictly_increases(e, 64);
                }
                lemma_pow2_pos(e);
                assert(1 * pow2(e) == pow2(e));
            }
            let d: u128 = shifted(1, (-self.exp) as u32);
            (2 * m + d) / (2 * d)
        };
        if whole < cap as u128 {
            whole as u32
        } else {
            cap
        }
    }

    /// The number rounded up to a whole number, but no more than `cap`.
    pub fn ceil_capped(self, cap: u64) -> (r: u64)
        requires
            self.mant <= FULL_RANGE,
            -10_000 < self.exp < 10_000,
        ensures
            r == (if ceiling(self.mant as nat, self.exp as int) < cap {
                ceiling(self.mant as nat, self.exp as int) as int
            } else {
                cap as int
            }),
    {
        let m: u128 = self.mant as u128;
        proof {
            lemma2_to64();
            lemma2_to64_rest();
        }
        if m == 0 {
            proof {
                if self.exp < 0 {
                    let d = pow2((-self.exp) as nat);
                    lemma_pow2_pos((-self.exp) as nat);
                    lemma_basic_div(0, d as int);
                    lemma_small_mod(0, d as nat);
                } else {
                    assert(0 * pow2(self.exp as nat) == 0) by (nonlinear_arith);
                }
            }
            return 0;
        }
        if self.exp >= 64 {
            proof {
                if self.exp > 64 {
                    lemma_pow2_strictly_increases(64, self.exp as nat);
                }
                let p = pow2(self.exp as nat);
                assert(m * p >= p) by (nonlinear_arith)
                    requires
                        m >= 1,
                        p >= 0,
                ;
            }
            return cap;
        }
        if self.exp >= 0 {
            proof {
                let p = pow2(self.exp as nat);
                lemma_pow2_strictly_increases(self.exp as nat, 64);
                assert(m * p <= FULL_RANGE * pow2(64)) by (nonlinear_arith)
                    requires
                        m <= FULL_RANGE,
                        p <= pow2(64),
                ;
            }
            let whole = shifted(m, self.exp as u32);
            if whole < cap as u128 {
                return whole as u64;
            }
            return cap;
        }
        let up: u128 = if self.exp < -64 {
            proof {
                let d = pow2((-self.exp) as nat);
                lemma_pow2_strictly_increases(64, (-self.exp) as nat);
                lemma_basic_div(m as int, d as int);
                lemma_small_mod(m as nat, d as nat);
            }
            1
        } else {
            proof {
                let e = (-self.exp) as nat;
                if e < 64 {
                    lemma_pow2_strictly_increases(e, 64);
                }
                lemma_pow2_pos(e);
                assert(1 * pow2(e) == pow2(e));
            }
            let d = shifted(1, (-self.exp) as u32);
            assert(m / d <= m) by {
                lemma_div_is_ordered_by_denominator(m as int, 1, d as int);
                lemma_div_basics(m as int);
            }
            if m % d == 0 {
                m / d
            } else {
                m / d + 1
            }
        };
        if up < cap as u128 {
            up as u64
        } else {
            cap
        }
    }

    /// The number whose single-precision encoding is `bits`, clamped to what this
    /// type can hold: a negative number and a NaN read as zero, and infinity as 2^128.
    pub open spec fn decoded(bits: u32) -> Self {
        let e = bits / 0x80_0000;
        let f = bits % 0x80_0000;
        if e >= 256 || (e == 255 && f != 0) {
            Single { mant: 0, exp: 0 }
        } else if e == 255 {
            Self::infinity()
        } else if e == 0 {
            Single { mant: f, exp: -149i32 }
        } else {
            Single { mant: (f + 0x80_0000) as u32, exp: (e - 150) as i32 }
        }
    }

    /// More than any finite single-precision number.
    pub open spec fn infinity() -> Self {
        Single { mant: 1, exp: 128 }
    }

    /// A number that single precision can hold.
    pub open spec fn representable(self) -> bool {
        self == Self::infinity() || (self.mant < FULL_RANGE && -149 <= self.exp <= 104)
    }

    /// The number in units of 2^-149, of which every single-precision number is a
    /// whole number.
    pub open spec fn units(self) -> nat {
        self.mant as nat * pow2((self.exp + 149) as nat)
    }

    /// The number is no larger than `other`.
    pub open spec fn at_most(self, other: Self) -> bool {
        if self.exp <= other.exp {
            self.mant <= other.mant * pow2((other.exp - self.exp) as nat)
        } else {
            self.mant * pow2((self.exp - other.exp) as nat) <= other.mant
        }
    }

    /// Is the number less than `other`?
    #[must_use]
    pub fn is_below(self, other: Self) -> (r: bool)
        requires
            self.representable(),
            other.representable(),
        ensures
            r == (self.units() < other.units()),
    {
        proof {
            lemma2_to64();
            lemma_pow2_pos((self.exp + 149) as nat);
            lemma_pow2_pos((other.exp + 149) as nat);
        }
        let (m, n): (u64, u64) = (self.mant as u64, other.mant as u64);
        if m == 0 || n == 0 {
            proof {
                let (p, q) = (pow2((self.exp + 149) as nat), pow2((other.exp + 149) as nat));
                assert(m == 0 ==> m * p == 0) by (nonlinear_arith);
                assert(n == 0 ==> n * q == 0) by (nonlinear_arith);
                assert(m * p >= 0) by (nonlinear_arith);
                assert(n > 0 ==> n * q > 0) by (nonlinear_arith)
                    requires
                        q > 0,
                ;
            }
            return m == 0 && n > 0;
        }
        let up = self.exp <= other.exp;
        let gap: u32 = if up {
            (other.exp - self.exp) as u32
        } else {
            (self.exp - other.exp) as u32
        };
        proof {
            let low = (if up {
                self.exp
            } else {
                other.exp
            } + 149) as nat;
            lemma_pow2_pos(low);
            lemma_pow2_adds(gap as nat, low);
            let (g, p) = (pow2(gap as nat), pow2(low));
            if up {
                assert(n * (g * p) == (n * g) * p) by (nonlinear_arith);
                assert((m * p < (n * g) * p) == (m < n * g)) by (nonlinear_arith)
                    requires
                        p > 0,
                ;
            } else {
                assert(m * (g * p) == (m * g) * p) by (nonlinear_arith);
                assert(((m * g) * p < n * p) == (m * g < n)) by (nonlinear_arith)
                    requires
                        p > 0,
                ;
            }
            if gap >= 24 {
                if gap > 24 {
                    lemma_pow2_strictly_increases(24, gap as nat);
                }
                assert(n * g >= 0x100_0000 && m * g >= 0x100_0000) by (nonlinear_arith)
                    requires
                        n >= 1,
                        m >= 1,
                        g >= 0x100_0000,
                ;
            } else {
                lemma_pow2_strictly_increases(gap as nat, 24);
                assert(n * g <= u128::MAX && m * g <= u128::MAX) by (nonlinear_arith)
                    requires
                        n < 0x100_0000,
                        m < 0x100_0000,
                        g < 0x100_0000,
                ;
            }
        }
        if gap >= 24 {
            up
        } else if up {
            (m as u128) < shifted(n as u128, gap)
        } else {
            shifted(m as u128, gap) < n as u128
        }
    }

    pub fn is_infinite(&self) -> (r: bool)
        ensures
            r == (*self == Self::infinity()),
    {
        self.mant == 1 && self.exp == 128
    }

    pub fn from_bits(bits: u32) -> (r: Self)
        ensures
            r == Self::decoded(bits),
            r.mant < FULL_RANGE,
            -149 <= r.exp <= 128,
            r.representable(),
    {
        let e: u32 = bits / 0x80_0000;
        let f: u32 = bits % 0x80_0000;
        if e >= 256 || (e == 255 && f != 0) {
            Single { mant: 0, exp: 0 }
        } else if e == 255 {
            Single { mant: 1, exp: 128 }
        } else if e == 0 {
            Single { mant: f, exp: -149 }
        } else {
            Single { mant: f + 0x80_0000, exp: e as i32 - 150 }
        }
    }
}

} // verus!
