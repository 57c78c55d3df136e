//! What holds of single-precision arithmetic: rounding keeps the order of numbers.

use crate::single::{
    ceiling, excess, exponent, half_up, lemma_excess, lemma_halves, lemma_rounded_bound,
    lemma_shortfall, rounded, shortfall, significand, Single, FULL_RANGE, HALF_RANGE,
};
use vstd::arithmetic::div_mod::*;
use vstd::arithmetic::mul::*;
use vstd::arithmetic::power2::*;
use vstd::prelude::*;

verus! {

/// Doubling both sides of a quotient changes nothing about how it rounds.
proof fn lemma_rounded_doubles(n: nat, d: nat)
    requires
        d > 0,
    ensures
        rounded(2 * n, 2 * d) == rounded(n, d),
{
    let q = n / d;
    let r = n % d;
    lemma_fundamental_div_mod(n as int, d as int);
    assert(2 * n == q * (2 * d) + 2 * r) by (nonlinear_arith)
        requires
            n == d * q + r,
    ;
    lemma_fundamental_div_mod_converse((2 * n) as int, (2 * d) as int, q as int, (2 * r) as int);
}

/// Doubling both sides of a quotient changes nothing about how often it is halved.
proof fn lemma_excess_doubles(n: nat, d: nat)
    requires
        d > 0,
    ensures
        excess(2 * n, 2 * d) == excess(n, d),
    decreases n / d,
{
    assert((2 * d) * FULL_RANGE == 2 * (d * FULL_RANGE)) by (nonlinear_arith);
    if n >= d * FULL_RANGE {
        lemma_halves(n, d);
        lemma_excess_doubles(n, 2 * d);
    }
}

/// Doubling a quotient keeps its significand and raises its exponent by one.
proof fn lemma_doubled(n: nat, d: nat)
    requires
        n > 0,
        d > 0,
    ensures
        significand(2 * n, d) == significand(n, d),
        exponent(2 * n, d) == exponent(n, d) + 1,
{
    lemma2_to64();
    if n >= d * FULL_RANGE {
        let x = excess(n, d);
        lemma_excess_doubles(n, d);
        assert(excess(2 * n, d) == 1 + x);
        lemma_pow2_unfold(x + 1);
        assert(d * (2 * pow2(x)) == 2 * (d * pow2(x))) by (nonlinear_arith);
        lemma_pow2_pos(x);
        assert(d * pow2(x) > 0) by (nonlinear_arith)
            requires
                d > 0,
                pow2(x) > 0,
        ;
        lemma_rounded_doubles(n, d * pow2(x));
    } else if n >= d * HALF_RANGE {
        assert(2 * n >= d * FULL_RANGE);
        assert(excess(2 * n, 2 * d) == 0) by {
            assert((2 * d) * FULL_RANGE == 2 * (d * FULL_RANGE)) by (nonlinear_arith);
        }
        assert(excess(2 * n, d) == 1);
        assert(d * 2 == 2 * d);
        assert(n * 1 == n);
        lemma_rounded_doubles(n, d);
    } else {
        let s = shortfall(2 * n, d);
        assert(shortfall(n, d) == 1 + s);
        lemma_pow2_unfold(s + 1);
        assert(n * (2 * pow2(s)) == (2 * n) * pow2(s)) by (nonlinear_arith);
    }
}

/// Multiplying a quotient by a power of two keeps its significand and raises its
/// exponent.
proof fn lemma_scaled(n: nat, d: nat, k: nat)
    requires
        n > 0,
        d > 0,
    ensures
        n * pow2(k) > 0,
        significand(n * pow2(k), d) == significand(n, d),
        exponent(n * pow2(k), d) == exponent(n, d) + k,
    decreases k,
{
    lemma2_to64();
    if k == 0 {
        assert(n * 1 == n);
    } else {
        let j = (k - 1) as nat;
        lemma_scaled(n, d, j);
        lemma_pow2_unfold(k);
        assert(n * (2 * pow2(j)) == 2 * (n * pow2(j))) by (nonlinear_arith);
        lemma_doubled(n * pow2(j), d);
    }
}

/// Rounding a quotient to a whole number keeps order.
proof fn lemma_rounded_order(x: nat, y: nat, d: nat)
    requires
        d > 0,
        x <= y,
    ensures
        rounded(x, d) <= rounded(y, d),
{
    lemma_div_is_ordered(x as int, y as int, d as int);
    lemma_fundamental_div_mod(x as int, d as int);
    lemma_fundamental_div_mod(y as int, d as int);
}

/// How often a quotient is halved keeps order.
proof fn lemma_excess_order(x: nat, y: nat, d: nat)
    requires
        d > 0,
        x <= y,
    ensures
        excess(x, d) <= excess(y, d),
    decreases x / d,
{
    if x >= d * FULL_RANGE {
        lemma_halves(x, d);
        lemma_excess_order(x, y, 2 * d);
    }
}

/// Rounding a large quotient to 24 bits keeps order.
proof fn lemma_large_order(x: nat, y: nat, d: nat)
    requires
        d > 0,
        d * FULL_RANGE <= x <= y,
    ensures
        significand(x, d) * pow2(excess(x, d)) <= significand(y, d) * pow2(excess(y, d)),
{
    let (i, j) = (excess(x, d), excess(y, d));
    lemma_excess_order(x, y, d);
    lemma_excess(x, d);
    lemma_excess(y, d);
    lemma_pow2_pos(i);
    lemma_pow2_pos(j);
    assert(d * pow2(i) > 0) by (nonlinear_arith)
        requires
            d > 0,
            pow2(i) > 0,
    ;
    assert(d * pow2(j) > 0) by (nonlinear_arith)
        requires
            d > 0,
            pow2(j) > 0,
    ;
    lemma_rounded_bound(x, d * pow2(i));
    lemma_rounded_bound(y, d * pow2(j));
    let (m, n) = (significand(x, d), significand(y, d));
    if i == j {
        lemma_rounded_order(x, y, d * pow2(i));
        lemma_mul_inequality(m as int, n as int, pow2(i) as int);
    } else {
        lemma_pow2_unfold(j);
        if i + 1 < j {
            lemma_pow2_strictly_increases(i, (j - 1) as nat);
        }
        assert(m * pow2(i) <= n * pow2(j)) by (nonlinear_arith)
            requires
                m <= 0x100_0000,
                n >= 0x80_0000,
                pow2(j) == 2 * pow2((j - 1) as nat),
                pow2(i) <= pow2((j - 1) as nat),
        ;
    }
}

proof fn lemma_pow2_exceeds(k: nat)
    ensures
        pow2(k) > k,
    decreases k,
{
    lemma2_to64();
    if k > 0 {
        lemma_pow2_unfold(k);
        lemma_pow2_exceeds((k - 1) as nat);
    }
}

/// Rounding a quotient to 24 bits keeps order, seen from far enough below.
proof fn lemma_quotient_order(x: nat, y: nat, d: nat, k: nat)
    requires
        d > 0,
        0 < x <= y,
        k >= d * FULL_RANGE,
    ensures
        exponent(x, d) + k >= 0,
        exponent(y, d) + k >= 0,
        significand(x, d) * pow2((exponent(x, d) + k) as nat) <= significand(y, d) * pow2(
            (exponent(y, d) + k) as nat,
        ),
{
    lemma_pow2_exceeds(k);
    lemma_scaled(x, d, k);
    lemma_scaled(y, d, k);
    let p = pow2(k);
    assert(x * p >= p) by (nonlinear_arith)
        requires
            x >= 1,
            p >= 0,
    ;
    lemma_mul_inequality(x as int, y as int, p as int);
    lemma_large_order(x * p, y * p, d);
}

/// The significand and the exponent of a quotient are within bounds.
pub proof fn lemma_bounds(n: nat, d: nat)
    requires
        n < 0x1_0000_0000_0000_0000,
        0 < d < 0x1_0000_0000,
    ensures
        significand(n, d) <= FULL_RANGE,
        n == 0 ==> significand(n, d) == 0,
        -64 < exponent(n, d) < 64,
{
    lemma2_to64();
    lemma2_to64_rest();
    if n >= d * FULL_RANGE {
        let x = excess(n, d);
        lemma_excess(n, d);
        lemma_pow2_pos(x);
        let p = pow2(x);
        assert(d * p > 0 && d * p * 0x80_0000 >= p) by (nonlinear_arith)
            requires
                d > 0,
                p > 0,
        ;
        lemma_rounded_bound(n, d * p);
        if x >= 64 {
            if x > 64 {
                lemma_pow2_strictly_increases(64, x);
            }
        }
    } else if n == 0 {
        assert(rounded(0, d) == 0) by {
            lemma_small_mod(0, d);
            lemma_basic_div(0, d as int);
        }
        assert(0 * pow2(0) == 0);
    } else {
        let s = shortfall(n, d);
        lemma_shortfall(n, d);
        let p = pow2(s);
        assert(p < 0x100_0000_0000_0000) by (nonlinear_arith)
            requires
                n >= 1,
                n * p < d * 0x100_0000,
                d < 0x1_0000_0000,
        ;
        lemma_rounded_bound(n * p, d);
        if s >= 64 {
            if s > 64 {
                lemma_pow2_strictly_increases(64, s);
            }
        }
    }
}

/// Two numbers compare as their multiples of any power of two that divides both.
proof fn lemma_at_most(a: Single, b: Single, base: int)
    requires
        base <= a.exp,
        base <= b.exp,
    ensures
        a.at_most(b) == (a.mant * pow2((a.exp - base) as nat) <= b.mant * pow2(
            (b.exp - base) as nat,
        )),
{
    if a.exp <= b.exp {
        let (low, gap) = ((a.exp - base) as nat, (b.exp - a.exp) as nat);
        lemma_pow2_adds(gap, low);
        lemma_pow2_pos(low);
        let (p, q) = (pow2(low), pow2(gap));
        assert(b.mant * (q * p) == (b.mant * q) * p) by (nonlinear_arith);
        assert((a.mant <= b.mant * q) == (a.mant * p <= (b.mant * q) * p)) by (nonlinear_arith)
            requires
                p > 0,
        ;
    } else {
        let (low, gap) = ((b.exp - base) as nat, (a.exp - b.exp) as nat);
        lemma_pow2_adds(gap, low);
        lemma_pow2_pos(low);
        let (p, q) = (pow2(low), pow2(gap));
        assert(a.mant * (q * p) == (a.mant * q) * p) by (nonlinear_arith);
        assert((a.mant * q <= b.mant) == ((a.mant * q) * p <= b.mant * p)) by (nonlinear_arith)
            requires
                p > 0,
        ;
    }
}

/// `a` times `k` over `d`, rounded to 24 bits, and times a power of two.
spec fn scaled_quotient(a: Single, k: nat, d: nat, shift: int) -> Single {
    Single {
        mant: significand(a.mant as nat * k, d) as u32,
        exp: (exponent(a.mant as nat * k, d) + a.exp + shift) as i32,
    }
}

/// Rounding keeps order.
proof fn lemma_keeps_order(a: Single, b: Single, k: nat, d: nat, shift: int)
    requires
        a.at_most(b),
        k < 0x1_0000_0000,
        0 < d < 0x1_0000_0000,
        -30_000 < a.exp < 30_000,
        -30_000 < b.exp < 30_000,
        -30_000 < shift < 30_000,
    ensures
        scaled_quotient(a, k, d, shift).at_most(scaled_quotient(b, k, d, shift)),
{
    let (m, n) = (a.mant as nat * k, b.mant as nat * k);
    assert(m < 0x1_0000_0000_0000_0000 && n < 0x1_0000_0000_0000_0000) by (nonlinear_arith)
        requires
            m == a.mant as nat * k,
            n == b.mant as nat * k,
            a.mant < 0x1_0000_0000,
            b.mant < 0x1_0000_0000,
            k < 0x1_0000_0000,
    ;
    lemma_bounds(m, d);
    lemma_bounds(n, d);
    let (x, y) = (scaled_quotient(a, k, d, shift), scaled_quotient(b, k, d, shift));
    if m == 0 {
        assert(x.mant == 0);
        if x.exp <= y.exp {
            assert(y.mant * pow2((y.exp - x.exp) as nat) >= 0) by (nonlinear_arith);
        } else {
            assert(0 * pow2((x.exp - y.exp) as nat) == 0);
        }
    } else {
        let base: int = if a.exp <= b.exp {
            a.exp as int
        } else {
            b.exp as int
        };
        lemma_at_most(a, b, base);
        let (p, q) = (pow2((a.exp - base) as nat), pow2((b.exp - base) as nat));
        assert(m * p <= n * q) by (nonlinear_arith)
            requires
                m == a.mant as nat * k,
                n == b.mant as nat * k,
                a.mant * p <= b.mant * q,
        ;
        lemma_pow2_pos((a.exp - base) as nat);
        assert(m * p > 0) by (nonlinear_arith)
            requires
                m > 0,
                p > 0,
        ;
        assert(n > 0) by (nonlinear_arith)
            requires
                n * q > 0,
                n >= 0,
        ;
        lemma_scaled(m, d, (a.exp - base) as nat);
        lemma_scaled(n, d, (b.exp - base) as nat);
        let far: nat = d * FULL_RANGE as nat;
        lemma_quotient_order(m * p, n * q, d, far);
        lemma_at_most(x, y, base + shift - far);
    }
}

/// The product of a larger number, rounded to single precision, is no smaller.
pub proof fn law_products_keep_order(a: Single, b: Single, factor: Single)
    requires
        a.at_most(b),
        -10_000 < a.exp < 10_000,
        -10_000 < b.exp < 10_000,
        -10_000 < factor.exp < 10_000,
    ensures
        a.times_spec(factor).at_most(b.times_spec(factor)),
{
    lemma_keeps_order(a, b, factor.mant as nat, 1, factor.exp as int);
}

/// The quotient of a larger number, rounded to single precision, is no smaller.
pub proof fn law_quotients_keep_order(a: Single, b: Single, divisor: Single)
    requires
        a.at_most(b),
        divisor.mant > 0,
        -10_000 < a.exp < 10_000,
        -10_000 < b.exp < 10_000,
        -10_000 < divisor.exp < 10_000,
    ensures
        a.over_spec(divisor).at_most(b.over_spec(divisor)),
{
    lemma_keeps_order(a, b, 1, divisor.mant as nat, -divisor.exp);
    assert(a.mant as nat * 1 == a.mant);
    assert(b.mant as nat * 1 == b.mant);
}

/// What a number rounds to, seen from far enough below.
proof fn lemma_whole_bounds(a: Single, base: int)
    requires
        base <= a.exp,
        base <= 0,
    ensures
        ({
            let d = pow2((-base) as nat) as int;
            let units = (a.mant * pow2((a.exp - base) as nat)) as int;
            let half = half_up(a.mant as nat, a.exp as int) as int;
            let up = ceiling(a.mant as nat, a.exp as int) as int;
            &&& d > 0
            &&& 2 * (half * d) <= 2 * units + d < 2 * (half * d) + 2 * d
            &&& units <= up * d < units + d
        }),
{
    let d = pow2((-base) as nat);
    let m = a.mant as nat;
    lemma_pow2_pos((-base) as nat);
    let half = half_up(m, a.exp as int);
    let up = ceiling(m, a.exp as int);
    if a.exp >= 0 {
        lemma_pow2_adds(a.exp as nat, (-base) as nat);
        let p = pow2(a.exp as nat);
        assert(m * (p * d) == (m * p) * d) by (nonlinear_arith);
    } else {
        let e = (-a.exp) as nat;
        let p = pow2(e);
        let g = pow2((a.exp - base) as nat);
        lemma_pow2_adds(e, (a.exp - base) as nat);
        lemma_pow2_pos(e);
        lemma_pow2_pos((a.exp - base) as nat);
        assert(d == p * g);
        lemma_fundamental_div_mod((2 * m + p) as int, (2 * p) as int);
        lemma_fundamental_div_mod(m as int, p as int);
        assert(2 * (half * (p * g)) <= 2 * (m * g) + p * g < 2 * (half * (p * g)) + 2 * (p * g))
            by (nonlinear_arith)
            requires
                (2 * p) * half <= 2 * m + p < (2 * p) * half + 2 * p,
                g > 0,
        ;
        assert(m <= up * p < m + p) by (nonlinear_arith)
            requires
                m == p * (m / p) + m % p,
                0 <= m % p < p,
                up == m / p + (if m % p == 0 {
                    0nat
                } else {
                    1nat
                }),
        ;
        assert(m * g <= up * (p * g) < m * g + p * g) by (nonlinear_arith)
            requires
                m <= up * p < m + p,
                g > 0,
        ;
    }
}

/// A larger number rounds to a whole number that is no smaller, whether halves go up
/// or everything does.
pub proof fn law_whole_numbers_keep_order(a: Single, b: Single)
    requires
        a.at_most(b),
    ensures
        half_up(a.mant as nat, a.exp as int) <= half_up(b.mant as nat, b.exp as int),
        ceiling(a.mant as nat, a.exp as int) <= ceiling(b.mant as nat, b.exp as int),
{
    let low: int = if a.exp <= b.exp {
        a.exp as int
    } else {
        b.exp as int
    };
    let base: int = if low <= 0 {
        low
    } else {
        0
    };
    lemma_at_most(a, b, base);
    lemma_whole_bounds(a, base);
    lemma_whole_bounds(b, base);
    let d = pow2((-base) as nat) as int;
    let (p, q) = (
        half_up(a.mant as nat, a.exp as int) as int,
        half_up(b.mant as nat, b.exp as int) as int,
    );
    assert(p <= q) by (nonlinear_arith)
        requires
            p * d < q * d + d,
            d > 0,
    ;
    let (x, y) = (
        ceiling(a.mant as nat, a.exp as int) as int,
        ceiling(b.mant as nat, b.exp as int) as int,
    );
    assert(x <= y) by (nonlinear_arith)
        requires
            x * d < y * d + d,
            d > 0,
    ;
}

/// A quotient is rounded to a whole number no further away than half.
pub proof fn law_rounding_is_to_the_nearest(n: nat, d: nat)
    requires
        d > 0,
    ensures
        2 * (rounded(n, d) * d) <= 2 * n + d,
        2 * n <= 2 * (rounded(n, d) * d) + d,
{
    lemma_fundamental_div_mod(n as int, d as int);
    let q = n / d;
    assert(d * q == q * d && (q + 1) * d == q * d + d) by (nonlinear_arith);
}

/// A quotient is kept to 24 bits: it is off by no more than a part in 2^24 of itself.
pub proof fn law_quotients_are_near(n: nat, d: nat)
    requires
        n > 0,
        d > 0,
    ensures
        HALF_RANGE <= significand(n, d) <= FULL_RANGE,
        exponent(n, d) >= 0 ==> {
            let kept = significand(n, d) * d * pow2(exponent(n, d) as nat);
            FULL_RANGE * kept <= (FULL_RANGE + 1) * n && (FULL_RANGE - 1) * n <= FULL_RANGE * kept
        },
        exponent(n, d) < 0 ==> {
            let scaled = n * pow2((-exponent(n, d)) as nat);
            let kept = significand(n, d) * d;
            FULL_RANGE * kept <= (FULL_RANGE + 1) * scaled && (FULL_RANGE - 1) * scaled
                <= FULL_RANGE * kept
        },
{
    lemma2_to64();
    if n >= d * FULL_RANGE {
        let x = excess(n, d);
        lemma_excess(n, d);
        lemma_pow2_pos(x);
        let p = pow2(x);
        let step = d * p;
        assert(step > 0) by (nonlinear_arith)
            requires
                d > 0,
                p > 0,
                step == d * p,
        ;
        law_rounding_is_to_the_nearest(n, step);
        lemma_rounded_bound(n, step);
        let m = significand(n, d);
        assert(m * d * p == m * step) by (nonlinear_arith)
            requires
                step == d * p,
        ;
    } else {
        let s = shortfall(n, d);
        lemma_shortfall(n, d);
        lemma_pow2_pos(s);
        law_rounding_is_to_the_nearest(n * pow2(s), d);
        lemma_rounded_bound(n * pow2(s), d);
        if s == 0 {
            assert(n * 1 == n);
            let m = significand(n, d);
            assert(m * d * 1 == m * d);
        }
    }
}

/// The value of a number reads the same however it is scaled: units are worth a
/// 2^149th.
pub proof fn law_units_are_worth_the_same(a: Single)
    requires
        -149 <= a.exp < 1000,
        a.mant < 0x8000_0000,
    ensures
        (Single { mant: (2 * a.mant) as u32, exp: (a.exp - 1) as i32 }).units() == a.units()
            || a.exp == -149,
        (Single { mant: 1, exp: -149i32 }).units() == 1,
{
    lemma2_to64();
    if a.exp > -149 {
        let k = (a.exp + 149) as nat;
        vstd::arithmetic::power2::lemma_pow2_unfold(k);
        assert((2 * a.mant) * pow2((k - 1) as nat) == a.mant * (2 * pow2((k - 1) as nat)))
            by (nonlinear_arith);
    }
    assert(1 * pow2(0) == 1);
}

/// A quotient of two numbers has the quotient of their significands, a product their
/// product, each kept to 24 bits, and the exponents are subtracted or added.
pub proof fn law_what_quotients_and_products_are(a: Single, b: Single)
    requires
        0 < a.mant < 0x1_0000_0000,
        0 < b.mant < 0x1_0000_0000,
        -1000 < a.exp < 1000,
        -1000 < b.exp < 1000,
    ensures
        a.over_spec(b).mant == significand(a.mant as nat, b.mant as nat),
        a.over_spec(b).exp == exponent(a.mant as nat, b.mant as nat) + a.exp - b.exp,
        a.times_spec(b).mant == significand((a.mant * b.mant) as nat, 1),
        a.times_spec(b).exp == exponent((a.mant * b.mant) as nat, 1) + a.exp + b.exp,
{
    lemma_bounds(a.mant as nat, b.mant as nat);
    assert(0 <= a.mant * b.mant < 0x1_0000_0000_0000_0000) by (nonlinear_arith)
        requires
            0 < a.mant < 0x1_0000_0000,
            0 < b.mant < 0x1_0000_0000,
    ;
    lemma_bounds((a.mant * b.mant) as nat, 1);
}

} // verus!
