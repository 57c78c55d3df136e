//! How near a length of time in seconds, in single precision, is to the length itself.

use crate::single::{
    excess, exponent, lemma_shortfall_bound, shortfall, significand, whole, FULL_RANGE,
};
use crate::single_laws::law_quotients_are_near;
use crate::time::{Millis, Span};
use vstd::arithmetic::power2::{
    lemma2_to64, lemma2_to64_rest, lemma_pow2_adds, lemma_pow2_pos, pow2,
};
use vstd::prelude::*;

verus! {

/// `x` is off from `y` by no more than `k` parts in 2^24.
pub open spec fn near(x: int, y: int, k: int) -> bool {
    &&& FULL_RANGE * x <= (FULL_RANGE + k) * y
    &&& (FULL_RANGE - k) * y <= FULL_RANGE * x
}

proof fn lemma_near_chain(x: int, y: int, z: int, a: int, b: int)
    requires
        near(x, y, a),
        near(y, z, b),
        0 <= a <= 16,
        0 <= b <= 16,
        z >= 0,
    ensures
        near(x, z, a + b + 1),
{
    assert(FULL_RANGE * x <= (FULL_RANGE + a + b + 1) * z && (FULL_RANGE - a - b - 1) * z
        <= FULL_RANGE * x) by (nonlinear_arith)
        requires
            FULL_RANGE == 0x100_0000,
            0x100_0000 * x <= (0x100_0000 + a) * y,
            (0x100_0000 - a) * y <= 0x100_0000 * x,
            0x100_0000 * y <= (0x100_0000 + b) * z,
            (0x100_0000 - b) * z <= 0x100_0000 * y,
            0 <= a <= 16,
            0 <= b <= 16,
            z >= 0,
    {
        assert(0x100_0000 * (0x100_0000 * x) <= (0x100_0000 + a) * (0x100_0000 * y));
        assert((0x100_0000 + a) * (0x100_0000 * y) <= (0x100_0000 + a) * ((0x100_0000 + b) * z));
        assert((0x100_0000 + a) * (0x100_0000 + b) <= 0x100_0000 * (0x100_0000 + a + b + 1));
        assert((0x100_0000 - a) * (0x100_0000 * y) <= 0x100_0000 * (0x100_0000 * x));
        assert((0x100_0000 - a) * ((0x100_0000 - b) * z) <= (0x100_0000 - a) * (0x100_0000 * y));
        assert((0x100_0000 - a) * (0x100_0000 - b) >= 0x100_0000 * (0x100_0000 - a - b - 1));
        assert(((0x100_0000 + a) * (0x100_0000 + b)) * z <= (0x100_0000 * (0x100_0000 + a + b + 1))
            * z);
        assert(((0x100_0000 - a) * (0x100_0000 - b)) * z >= (0x100_0000 * (0x100_0000 - a - b - 1))
            * z);
    }
}

proof fn lemma_near_scaled(x: int, y: int, k: int, c: int)
    requires
        c > 0,
    ensures
        near(x, y, k) <==> near(x * c, y * c, k),
{
    assert(FULL_RANGE * x <= (FULL_RANGE + k) * y <==> FULL_RANGE * (x * c) <= (FULL_RANGE + k) * (y
        * c)) by (nonlinear_arith)
        requires
            c > 0,
    ;
    assert((FULL_RANGE - k) * y <= FULL_RANGE * x <==> (FULL_RANGE - k) * (y * c) <= FULL_RANGE * (x
        * c)) by (nonlinear_arith)
        requires
            c > 0,
    ;
}

proof fn lemma_near_sum(a: int, b: int, c: int, d: int, k: int)
    requires
        near(a, b, k),
        near(c, d, k),
    ensures
        near(a + c, b + d, k),
{
    assert((FULL_RANGE + k) * (b + d) == (FULL_RANGE + k) * b + (FULL_RANGE + k) * d)
        by (nonlinear_arith);
    assert((FULL_RANGE - k) * (b + d) == (FULL_RANGE - k) * b + (FULL_RANGE - k) * d)
        by (nonlinear_arith);
}

proof fn lemma_near_wider(x: int, y: int, j: int, k: int)
    requires
        near(x, y, j),
        0 <= j <= k,
        y >= 0,
    ensures
        near(x, y, k),
{
    assert((FULL_RANGE + j) * y <= (FULL_RANGE + k) * y && (FULL_RANGE - k) * y <= (FULL_RANGE - j)
        * y) by (nonlinear_arith)
        requires
            j <= k,
            y >= 0,
    ;
}

/// A whole number is kept to 24 bits, and exactly where it has no more.
pub proof fn law_whole_numbers_are_near(n: nat)
    ensures
        near(whole(n) as int, n as int, 1),
        n < FULL_RANGE ==> whole(n) == n,
        n > 0 ==> whole(n) > 0,
{
    if n >= FULL_RANGE {
        law_quotients_are_near(n, 1);
        let m = significand(n, 1);
        let p = pow2(excess(n, 1));
        lemma_pow2_pos(excess(n, 1));
        assert(m * 1 * p == m * p);
        assert(m * p > 0) by (nonlinear_arith)
            requires
                m >= 0x80_0000,
                p > 0,
        ;
    }
}

/// The nanoseconds beyond the whole seconds are kept to nearly 24 bits.
proof fn lemma_fraction_is_near(span: Span)
    requires
        0 < span.nanos < 1_000_000_000,
    ensures
        near(span.fraction() as int * 1_000_000_000, span.nanos * 0x20_0000_0000_0000, 3),
{
    lemma2_to64();
    lemma2_to64_rest();
    let nanos = span.nanos as nat;
    let w = whole(nanos);
    let d = 1_000_000_000nat;
    law_whole_numbers_are_near(nanos);
    law_quotients_are_near(w, d);
    assert(w < d * FULL_RANGE);
    assert(w * pow2(53) >= d * 0x80_0000) by (nonlinear_arith)
        requires
            w >= 1,
            pow2(53) == 0x20_0000_0000_0000,
            d == 1_000_000_000,
    ;
    lemma_shortfall_bound(w, d, 53);
    let s = shortfall(w, d);
    let m = significand(w, d);
    let rest = (53 - s) as nat;
    lemma_pow2_adds(s, rest);
    lemma_pow2_pos(rest);
    let p = pow2(s) as int;
    let c = pow2(rest) as int;
    assert(near((m * d) as int, w * p, 1)) by {
        if s == 0 {
            assert(m * d * 1 == m * d);
            assert(w * 1 == w);
        }
    }
    lemma_near_scaled((m * d) as int, w * p, 1, c);
    assert((m * d) * c == span.fraction() * d) by (nonlinear_arith)
        requires
            span.fraction() == m * c,
    ;
    let big: int = 0x20_0000_0000_0000;
    assert((w * p) * c == w * big) by (nonlinear_arith)
        requires
            p * c == big,
    ;
    lemma_near_scaled(w as int, nanos as int, 1, big);
    lemma_near_chain((span.fraction() * d) as int, w * big, nanos * big, 1, 1);
}

/// A length in seconds is off by no more than eight parts in 2^24.
pub proof fn law_seconds_are_near(span: Span)
    requires
        span.valid(),
        span.total() > 0,
    ensures
        ({
            let s = span.seconds();
            let n = whole(span.secs as nat) * 0x20_0000_0000_0000 + span.fraction();
            let e = exponent(n, 0x20_0000_0000_0000);
            &&& s.mant == significand(n, 0x20_0000_0000_0000)
            &&& e >= 0 ==> near(
                s.mant * pow2(e as nat) * 1_000_000_000,
                span.total() as int,
                8,
            )
            &&& e < 0 ==> near(
                s.mant * 1_000_000_000,
                span.total() as int * pow2((-e) as nat),
                8,
            )
        }),
{
    let big: int = 0x20_0000_0000_0000;
    let giga: int = 1_000_000_000;
    let secs = span.secs as nat;
    let w = whole(secs);
    let f = span.fraction();
    let n = w * 0x20_0000_0000_0000 + f;
    let total = span.total() as int;
    law_whole_numbers_are_near(secs);
    lemma_near_scaled(w as int, secs as int, 1, big * giga);
    lemma_near_wider(w * (big * giga), secs * (big * giga), 1, 3);
    if span.nanos > 0 {
        lemma_fraction_is_near(span);
    } else {
        assert(f == 0);
        assert(near(0, 0, 3));
    }
    lemma_near_sum(w * (big * giga), secs * (big * giga), f * giga, span.nanos * big, 3);
    assert(w * (big * giga) + f * giga == n * giga) by (nonlinear_arith)
        requires
            n == w * big + f,
    ;
    assert(secs * (big * giga) + span.nanos * big == total * big) by (nonlinear_arith)
        requires
            total == secs * giga + span.nanos,
    ;
    assert(near(n * giga, total * big, 3));
    assert(n > 0) by {
        if n == 0 {
            assert(near(0, total * big, 3));
            assert((FULL_RANGE - 3) * (total * big) > 0) by (nonlinear_arith)
                requires
                    total > 0,
                    big > 0,
                    FULL_RANGE == 0x100_0000,
            ;
        }
    }
    let d = 0x20_0000_0000_0000nat;
    law_quotients_are_near(n, d);
    let m = significand(n, d) as int;
    let e = exponent(n, d);
    assert(span.seconds().mant == m);
    if e >= 0 {
        let p = pow2(e as nat) as int;
        lemma_pow2_pos(e as nat);
        assert(near(m * d * p, n as int, 1));
        lemma_near_scaled(m * d * p, n as int, 1, giga);
        lemma_near_chain(m * d * p * giga, n * giga, total * big, 1, 3);
        assert(m * d * p * giga == (m * p * giga) * big) by (nonlinear_arith)
            requires
                d == big,
        ;
        lemma_near_scaled(m * p * giga, total, 5, big);
        lemma_near_wider(m * p * giga, total, 5, 8);
    } else {
        let p = pow2((-e) as nat) as int;
        lemma_pow2_pos((-e) as nat);
        assert(near(m * d, n * p, 1));
        lemma_near_scaled(m * d, n * p, 1, giga);
        lemma_near_scaled(n * giga, total * big, 3, p);
        assert((n * p) * giga == (n * giga) * p) by (nonlinear_arith);
        assert((total * big) * p == (total * p) * big) by (nonlinear_arith);
        assert(total * p >= 0 && (total * p) * big >= 0) by (nonlinear_arith)
            requires
                total > 0,
                p > 0,
                big > 0,
        ;
        lemma_near_chain((m * d) * giga, (n * p) * giga, (total * p) * big, 1, 3);
        assert((m * d) * giga == (m * giga) * big) by (nonlinear_arith)
            requires
                d == big,
        ;
        lemma_near_scaled(m * giga, total * p, 5, big);
        lemma_near_wider(m * giga, total * p, 5, 8);
    }
}

/// No time at all is no seconds.
pub proof fn law_no_time_is_no_seconds(span: Span)
    requires
        span.total() == 0,
    ensures
        span.seconds().mant == 0,
{
    lemma2_to64();
    assert(whole(0) == 0);
    assert(0 * 0x20_0000_0000_0000 == 0);
    assert(shortfall(0, 0x20_0000_0000_0000) == 0);
    assert(0 * pow2(0) == 0);
}

/// A time in milliseconds is off by no more than three parts in 2^24 in seconds.
pub proof fn law_milliseconds_in_seconds_are_near(at: Millis)
    requires
        at.0 > 0,
    ensures
        ({
            let s = at.seconds();
            let e = exponent(whole(at.0 as nat), 1000);
            &&& s.mant == significand(whole(at.0 as nat), 1000)
            &&& e >= 0 ==> near(s.mant * 1000 * pow2(e as nat), at.0 as int, 3)
            &&& e < 0 ==> near(s.mant * 1000, at.0 * pow2((-e) as nat), 3)
        }),
{
    let n = at.0 as nat;
    let w = whole(n);
    law_whole_numbers_are_near(n);
    law_quotients_are_near(w, 1000);
    let m = significand(w, 1000) as int;
    let e = exponent(w, 1000);
    assert(at.seconds().mant == m);
    if e >= 0 {
        let p = pow2(e as nat) as int;
        assert(near(m * 1000 * p, w as int, 1));
        lemma_near_chain(m * 1000 * p, w as int, n as int, 1, 1);
    } else {
        let p = pow2((-e) as nat) as int;
        lemma_pow2_pos((-e) as nat);
        lemma_near_scaled(w as int, n as int, 1, p);
        assert(n * p >= 0) by (nonlinear_arith)
            requires
                n >= 0,
                p > 0,
        ;
        lemma_near_chain(m * 1000, w * p, n * p, 1, 1);
    }
}

} // verus!
