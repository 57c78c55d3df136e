//! What the latency report says, told by counting the samples.

use crate::chars::{decimal, digit};
use crate::order::count_up_to;
use crate::session::Latency;
use crate::single::{
    ceiling, excess, lemma_excess, lemma_power_order, lemma_rounded_bound,
    lemma_rounded_exact, lemma_shortfall, rounded, scaled_round, shortfall, Single,
    FULL_RANGE, HALF_RANGE,
};
use crate::single_laws::law_rounding_is_to_the_nearest;
use crate::stats::{
    amounts, count_of, law_a_single_sample_is_every_percentile, law_percentiles_really_happened,
    law_percentiles_split_the_samples, nearest, percent, rank, StatsView,
};
use crate::time::{tenths_text, Millis};
use vstd::arithmetic::div_mod::{lemma_fundamental_div_mod, lemma_fundamental_div_mod_converse};
use vstd::arithmetic::power2::{
    lemma2_to64, lemma_pow2_adds, lemma_pow2_pos, lemma_pow2_strictly_increases, pow2,
};
use vstd::prelude::*;

verus! {

/// At least `p` percent of the samples are at most `at`, and fewer lie below it; it is
/// one of them.
pub open spec fn is_percentile(samples: Seq<Millis>, p: nat, at: Millis) -> bool {
    &&& samples.contains(at)
    &&& count_up_to(amounts(samples), at.0 as int) * 100 >= p * samples.len()
    &&& count_up_to(amounts(samples), at.0 - 1) * 100 < p * samples.len()
}

/// Where `100 * m` is near enough to `k * 2^24`, rounding `m * x` to 24 bits and the
/// result up to a whole number gives `k` hundredths of `n`, rounded up.
proof fn lemma_ceiling_of_part(n: nat, k: nat, m: nat, scale: nat, step: nat, d: nat)
    requires
        n > 0,
        k == 50 && m == 0x80_0000 || k == 90 && m == 15_099_494 || k == 99 && m == 16_609_444,
        HALF_RANGE <= n * scale < FULL_RANGE,
        step == 0x80_0000 || step == 0x100_0000,
        d * step == 0x100_0000 * scale,
        d >= 256,
    ensures
        ({
            let r = rounded(m * (n * scale), step);
            let t = (k * n + 99) / 100;
            (t - 1) * d < r <= t * d
        }),
{
    let x = n * scale;
    let p = m * x;
    let r = rounded(p, step);
    let t = (k * n + 99) / 100;
    law_rounding_is_to_the_nearest(p, step);
    assert(k * n <= 100 * t && k * n >= 100 * (t - 1) + 1);
    let e = 100 * m - k * 0x100_0000;
    assert(e == 0 || e == -40 || e == 16);
    let whole_step = d * step;
    assert(100 * p == (k * n) * whole_step + e * x) by (nonlinear_arith)
        requires
            p == m * x,
            x == n * scale,
            whole_step == 0x100_0000 * scale,
            e == 100 * m - k * 0x100_0000,
    ;
    assert(e * x <= 16 * 0x100_0000 && e * x >= -40 * 0x100_0000) by (nonlinear_arith)
        requires
            e == 0 || e == -40 || e == 16,
            0 <= x < 0x100_0000,
    ;
    if r > t * d {
        assert(r * step >= t * whole_step + step) by (nonlinear_arith)
            requires
                r >= t * d + 1,
                whole_step == d * step,
                step > 0,
        ;
        assert((k * n) * whole_step <= 100 * (t * whole_step)) by (nonlinear_arith)
            requires
                k * n <= 100 * t,
                whole_step >= 0,
        ;
    }
    if r <= (t - 1) * d {
        assert(r * step <= (t - 1) * whole_step) by (nonlinear_arith)
            requires
                r <= (t - 1) * d,
                whole_step == d * step,
                step > 0,
        ;
        assert((k * n) * whole_step >= 100 * ((t - 1) * whole_step) + whole_step)
            by (nonlinear_arith)
            requires
                k * n >= 100 * (t - 1) + 1,
                whole_step >= 0,
        ;
        assert(whole_step >= 256 * step) by (nonlinear_arith)
            requires
                whole_step == d * step,
                d >= 256,
        ;
    }
}

/// The median, the ninetieth and the ninety-ninth percentile stand where their
/// percentage of the samples, rounded up, says.
pub proof fn law_where_the_reported_percentiles_stand(n: nat, p: u32)
    requires
        0 < n < 65_536,
        p == 50 || p == 90 || p == 99,
    ensures
        rank(n, percent(p)) == (p * n + 99) / 100,
{
    lemma2_to64();
    let k = p as nat;
    let hundred = Single { mant: 100, exp: 0 };
    let part = percent(p).over_spec(hundred);
    let m: nat = if p == 50 {
        0x80_0000
    } else if p == 90 {
        15_099_494
    } else {
        16_609_444
    };
    assert(part.mant == m && part.exp == -24) by {
        let s = shortfall(k, 100);
        lemma_shortfall(k, 100);
        let q = pow2(s);
        assert(0x80_0000 < q < 0x200_0000) by (nonlinear_arith)
            requires
                100 * 0x80_0000 <= k * q < 100 * 0x100_0000,
                50 <= k <= 99,
        ;
        if s < 24 && s < 23 {
            lemma_pow2_strictly_increases(s, 23);
        }
        if s > 24 && s > 25 {
            lemma_pow2_strictly_increases(25, s);
        }
        assert(s == 24);
        assert(rounded(k * 0x100_0000, 100) == m);
    }
    lemma_shortfall(n, 1);
    let sf = shortfall(n, 1);
    let scale = pow2(sf);
    lemma_pow2_pos(sf);
    assert(scale > 128) by (nonlinear_arith)
        requires
            1 * 0x80_0000 <= n * scale,
            n < 65_536,
    ;
    assert(scale <= 0x100_0000) by (nonlinear_arith)
        requires
            n * scale < 1 * 0x100_0000,
            n >= 1,
            scale >= 0,
    ;
    lemma_power_order(sf, 24);
    if sf < 8 {
        if sf < 7 {
            lemma_pow2_strictly_increases(sf, 7);
        }
    }
    if sf > 8 {
        lemma_pow2_strictly_increases(8, sf);
    }
    assert(scale >= 256);
    let x = n * scale;
    lemma_rounded_exact(x, 1);
    assert(x * 1 == x);
    let c = count_of(n);
    assert(c.mant == x && c.exp == -sf);
    let product = m * x;
    assert(0x4000_0000_0000 <= product < 0x1_0000_0000_0000) by (nonlinear_arith)
        requires
            product == m * x,
            0x80_0000 <= m < 0x100_0000,
            0x80_0000 <= x < 0x100_0000,
    ;
    assert((part.mant * c.mant) as nat == product);
    lemma_excess(product, 1);
    let up = excess(product, 1);
    let step = pow2(up);
    assert(1 * step == step);
    assert(0x40_0000 < step <= 0x200_0000);
    lemma_power_order(up, 25);
    assert(up == 23 || up == 24) by {
        if up < 23 {
            if up < 22 {
                lemma_pow2_strictly_increases(up, 22);
            }
        }
        if up == 25 {
            assert(step == 0x200_0000);
        }
    }
    let down = (24 + sf - up) as nat;
    let d = pow2(down);
    lemma_pow2_adds(down, up);
    lemma_pow2_adds(24, sf);
    if down > 8 {
        lemma_pow2_strictly_increases(8, down);
    }
    lemma_ceiling_of_part(n, k, m, scale, step, d);
    let r = rounded(product, step);
    lemma_rounded_bound(product, step);
    let exact = part.times_spec(c);
    assert(exact.mant == r && exact.exp == -(down as int));
    let t = (k * n + 99) / 100;
    assert(1 <= k * n <= 99 * n) by (nonlinear_arith)
        requires
            50 <= k <= 99,
            n >= 1,
    ;
    assert(1 <= t <= n);
    assert(ceiling(r, -(down as int)) == t) by {
        lemma_fundamental_div_mod(r as int, d as int);
        let q = r as int / d as int;
        let rest = r as int % d as int;
        if r == t * d {
            lemma_fundamental_div_mod_converse(r as int, d as int, t as int, 0);
        } else {
            let over = r - (t - 1) * d;
            assert(over < d) by (nonlinear_arith)
                requires
                    over == r - (t - 1) * d,
                    r < t * d,
            ;
            assert(r == (t - 1) * d + over);
            lemma_fundamental_div_mod_converse(r as int, d as int, t - 1, over);
        }
    }
}

/// Each percentile that is reported is one by count.
pub proof fn law_reported_percentiles_are_counted(samples: Seq<Millis>, p: u32)
    requires
        0 < samples.len() < 65_536,
        p == 50 || p == 90 || p == 99,
    ensures
        nearest(samples, percent(p)) is Some,
        is_percentile(samples, p as nat, nearest(samples, percent(p))->0),
{
    law_where_the_reported_percentiles_stand(samples.len(), p);
    law_percentiles_split_the_samples(samples, percent(p));
    law_percentiles_really_happened(samples, percent(p));
}

/// What the report says: how many utterances and characters there were and how much
/// audio, how fast it was transcribed, the median, the ninetieth and the ninety-ninth
/// percentile of the time from release to text, and the medians of its two parts, each
/// under its own name.
#[verifier::rlimit(40)]
pub proof fn law_what_the_report_says(stats: StatsView)
    requires
        stats.valid(),
    ensures
        stats.release_to_text.len() == 0 ==> stats.summary() == "no utterances yet"@,
        0 < stats.release_to_text.len() < 65_536 ==> {
            let p50 = nearest(stats.release_to_text, percent(50))->0;
            let p90 = nearest(stats.release_to_text, percent(90))->0;
            let p99 = nearest(stats.release_to_text, percent(99))->0;
            let transcribe = nearest(stats.transcribe, percent(50))->0;
            let inject = nearest(stats.inject, percent(50))->0;
            let audio = stats.audio.seconds();
            &&& is_percentile(stats.release_to_text, 50, p50)
            &&& is_percentile(stats.release_to_text, 90, p90)
            &&& is_percentile(stats.release_to_text, 99, p99)
            &&& is_percentile(stats.transcribe, 50, transcribe)
            &&& is_percentile(stats.inject, 50, inject)
            &&& stats.summary() == decimal(stats.release_to_text.len()) + " utterance(s), "@
                + decimal(stats.characters) + " chars, "@ + tenths_text(
                scaled_round(audio.mant as nat, audio.exp as int, 10),
            ) + "s audio"@ + stats.pace() + "\nrelease \u{2192} text  "@ + " p50 "@ + p50.text()
                + " p90 "@ + p90.text() + " p99 "@ + p99.text() + "\n  of which     transcribe "@
                + transcribe.text() + ", inject "@ + inject.text() + " (p50)"@
        },
{
    if 0 < stats.release_to_text.len() < 65_536 {
        law_reported_percentiles_are_counted(stats.release_to_text, 50);
        law_reported_percentiles_are_counted(stats.release_to_text, 90);
        law_reported_percentiles_are_counted(stats.release_to_text, 99);
        law_reported_percentiles_are_counted(stats.transcribe, 50);
        law_reported_percentiles_are_counted(stats.inject, 50);
        let p50 = nearest(stats.release_to_text, percent(50))->0;
        let p90 = nearest(stats.release_to_text, percent(90))->0;
        let p99 = nearest(stats.release_to_text, percent(99))->0;
        let transcribe = nearest(stats.transcribe, percent(50))->0;
        let inject = nearest(stats.inject, percent(50))->0;
        let audio = stats.audio.seconds();
        assert(stats.summary() =~= decimal(stats.release_to_text.len()) + " utterance(s), "@
            + decimal(stats.characters) + " chars, "@ + tenths_text(
            scaled_round(audio.mant as nat, audio.exp as int, 10),
        ) + "s audio"@ + stats.pace() + "\nrelease \u{2192} text  "@ + " p50 "@ + p50.text()
            + " p90 "@ + p90.text() + " p99 "@ + p99.text() + "\n  of which     transcribe "@
            + transcribe.text() + ", inject "@ + inject.text() + " (p50)"@);
    }
}

proof fn lemma_regroup(a: Seq<char>, b: Seq<char>, c: Seq<char>)
    ensures
        (a + b) + c == a + (b + c),
{
    assert((a + b) + c =~= a + (b + c));
}

/// What the report ends in: the percentiles, and what the median is made of.
pub open spec fn figures(
    p50: Millis,
    p90: Millis,
    p99: Millis,
    transcribe: Millis,
    inject: Millis,
) -> Seq<char> {
    "\nrelease \u{2192} text  "@ + " p50 "@ + p50.text() + " p90 "@ + p90.text() + " p99 "@
        + p99.text() + "\n  of which     transcribe "@ + transcribe.text() + ", inject "@
        + inject.text() + " (p50)"@
}

proof fn lemma_figures(
    front: Seq<char>,
    p50: Millis,
    p90: Millis,
    p99: Millis,
    transcribe: Millis,
    inject: Millis,
)
    ensures
        front + "\nrelease \u{2192} text  "@ + " p50 "@ + p50.text() + " p90 "@ + p90.text()
            + " p99 "@ + p99.text() + "\n  of which     transcribe "@ + transcribe.text()
            + ", inject "@ + inject.text() + " (p50)"@ == front + figures(
            p50,
            p90,
            p99,
            transcribe,
            inject,
        ),
{
    let a = "\nrelease \u{2192} text  "@;
    lemma_regroup(front, a, " p50 "@);
    let b = a + " p50 "@;
    lemma_regroup(front, b, p50.text());
    let c = b + p50.text();
    lemma_regroup(front, c, " p90 "@);
    let d = c + " p90 "@;
    lemma_regroup(front, d, p90.text());
    let e = d + p90.text();
    lemma_regroup(front, e, " p99 "@);
    let f = e + " p99 "@;
    lemma_regroup(front, f, p99.text());
    let g = f + p99.text();
    lemma_regroup(front, g, "\n  of which     transcribe "@);
    let h = g + "\n  of which     transcribe "@;
    lemma_regroup(front, h, transcribe.text());
    let i = h + transcribe.text();
    lemma_regroup(front, i, ", inject "@);
    let j = i + ", inject "@;
    lemma_regroup(front, j, inject.text());
    lemma_regroup(front, j + inject.text(), " (p50)"@);
}

/// With one utterance recorded, its own times are what the report ends in, whatever
/// else was counted.
pub proof fn law_one_utterance_is_reported_as_it_was(stats: StatsView, latency: Latency)
    requires
        stats.release_to_text.len() == 0,
        stats.valid(),
    ensures
        exists|front: Seq<char>|
            stats.with_latency(latency).summary() == #[trigger] (front + figures(
                latency.release_to_text,
                latency.release_to_text,
                latency.release_to_text,
                latency.transcribe,
                latency.inject,
            )),
{
    let after = stats.with_latency(latency);
    law_what_the_report_says(after);
    assert(after.release_to_text =~= seq![latency.release_to_text]);
    assert(after.transcribe =~= seq![latency.transcribe]);
    assert(after.inject =~= seq![latency.inject]);
    law_a_single_sample_is_every_percentile(latency.release_to_text, percent(50));
    law_a_single_sample_is_every_percentile(latency.release_to_text, percent(90));
    law_a_single_sample_is_every_percentile(latency.release_to_text, percent(99));
    law_a_single_sample_is_every_percentile(latency.transcribe, percent(50));
    law_a_single_sample_is_every_percentile(latency.inject, percent(50));
    let audio = after.audio.seconds();
    let front = decimal(after.release_to_text.len()) + " utterance(s), "@ + decimal(
        after.characters,
    ) + " chars, "@ + tenths_text(scaled_round(audio.mant as nat, audio.exp as int, 10))
        + "s audio"@ + after.pace();
    lemma_figures(
        front,
        latency.release_to_text,
        latency.release_to_text,
        latency.release_to_text,
        latency.transcribe,
        latency.inject,
    );
}

/// Recording a latency keeps each of its parts in its own place, after those that came
/// before, and touches nothing else.
pub proof fn law_a_latency_is_recorded_whole(stats: StatsView, latency: Latency)
    ensures
        ({
            let after = stats.with_latency(latency);
            &&& after.release_to_text == stats.release_to_text.push(latency.release_to_text)
            &&& after.transcribe == stats.transcribe.push(latency.transcribe)
            &&& after.inject == stats.inject.push(latency.inject)
            &&& after.audio == stats.audio
            &&& after.inference == stats.inference
            &&& after.characters == stats.characters
        }),
{
}

/// The pace is audio over inference: there is one exactly where inference took any
/// time.
pub proof fn law_the_pace_is_audio_over_inference(stats: StatsView)
    ensures
        stats.factor() is Some <==> stats.inference.seconds().mant > 0,
        stats.factor() matches Some(f) ==> f == stats.audio.seconds().over_spec(
            stats.inference.seconds(),
        ) && stats.pace() == " at "@ + decimal(scaled_round(f.mant as nat, f.exp as int, 1))
            + "x realtime"@,
        stats.factor() is None ==> stats.pace().len() == 0,
{
}

/// The number that a run of digits stands for.
pub open spec fn value_of(digits: Seq<char>) -> nat
    decreases digits.len(),
{
    if digits.len() == 0 {
        0
    } else {
        (10 * value_of(digits.drop_last()) + (digits.last() as int - '0' as int)) as nat
    }
}

/// A number that is written out reads back as itself: it is digits alone, and does not
/// begin with a nought unless it is nought.
pub proof fn law_numbers_read_back(n: nat)
    ensures
        value_of(decimal(n)) == n,
        decimal(n).len() > 0,
        forall|i: int| 0 <= i < decimal(n).len() ==> '0' <= #[trigger] decimal(n)[i] <= '9',
        n > 0 ==> decimal(n)[0] != '0',
    decreases n,
{
    if n < 10 {
        reveal_with_fuel(value_of, 2);
        assert(decimal(n).drop_last() =~= Seq::<char>::empty());
    } else {
        law_numbers_read_back(n / 10);
        assert(decimal(n).drop_last() =~= decimal(n / 10));
        assert(decimal(n)[0] == decimal(n / 10)[0]);
        assert forall|i: int| 0 <= i < decimal(n).len() implies '0' <= #[trigger] decimal(n)[i]
            <= '9' by {
            if i < decimal(n).len() - 1 {
                assert(decimal(n)[i] == decimal(n / 10)[i]);
            }
        }
    }
}

/// A time is shown in whole milliseconds below ten seconds, and in seconds with one
/// decimal from there on.
pub proof fn law_how_a_time_reads(at: Millis)
    ensures
        at.0 < 10_000 ==> at.text() == decimal(at.0 as nat) + "ms"@,
        at.0 >= 10_000 ==> exists|tenths: nat| #[trigger]
            tenths_text(tenths) + "s"@ == at.text(),
        forall|t: nat| #[trigger]
            tenths_text(t) == decimal(t / 10) + seq!['.', digit(t % 10)],
{
    if at.0 >= 10_000 {
        let s = at.seconds();
        assert(tenths_text(scaled_round(s.mant as nat, s.exp as int, 10)) + "s"@ == at.text());
    }
    assert forall|t: nat| #[trigger] tenths_text(t) == decimal(t / 10) + seq![
        '.',
        digit(t % 10),
    ] by {
        assert(tenths_text(t) =~= decimal(t / 10) + seq!['.', digit(t % 10)]);
    }
}

} // verus!
