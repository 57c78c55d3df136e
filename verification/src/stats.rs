//! Running latency and throughput, reported by percentile.

use crate::chars::{decimal, push_decimal, push_text};
use crate::order::{
    ascending, count_up_to, law_ascending_ignores_arrival, law_ascending_ranks, law_ascending_sorts,
    sort_numbers,
};
use crate::session::Latency;
use crate::single::{
    ceiling, excess, exponent, lemma_excess, lemma_excess_of_scaled, lemma_power_order,
    lemma_rounded_bound, lemma_rounded_exact, lemma_shortfall, lemma_shortfall_bound, rounded,
    scaled_round, shortfall, significand, whole, Single, FULL_RANGE, HALF_RANGE,
};
use crate::single_laws::{
    law_products_keep_order, law_quotients_keep_order, law_whole_numbers_keep_order, lemma_bounds,
};
use crate::time::{push_tenths, tenths_text, Millis, Span, SECOND};
use vstd::arithmetic::div_mod::{lemma_div_multiples_vanish, lemma_mod_multiples_basic};
use vstd::arithmetic::power2::{
    lemma2_to64, lemma2_to64_rest, lemma_pow2_adds, lemma_pow2_pos, lemma_pow2_strictly_increases,
    lemma_pow2_unfold, pow2,
};
use vstd::prelude::*;

verus! {

/// What has been recorded.
#[verifier::ext_equal]
pub struct StatsView {
    pub release_to_text: Seq<Millis>,
    pub transcribe: Seq<Millis>,
    pub inject: Seq<Millis>,
    pub audio: Span,
    pub inference: Span,
    pub characters: nat,
}

/// `n` in single precision.
pub open spec fn count_of(n: nat) -> Single {
    Single { mant: significand(n, 1) as u32, exp: exponent(n, 1) as i32 }
}

/// The rank, from one, of a percentile of `n` samples: the percentage of `n`,
/// worked out in single precision and rounded up, but at least one and at most
/// `n`.
pub open spec fn rank(n: nat, percentile: Single) -> nat {
    let hundred = Single { mant: 100, exp: 0 };
    let exact = percentile.over_spec(hundred).times_spec(count_of(n));
    let up = ceiling(exact.mant as nat, exact.exp as int);
    if up > n {
        n
    } else if up < 1 {
        1
    } else {
        up
    }
}

pub open spec fn amounts(samples: Seq<Millis>) -> Seq<u128> {
    samples.map_values(|m: Millis| m.0 as u128)
}

/// The nearest-rank percentile: of the samples in ascending order, the one at the
/// percentile's rank.
pub open spec fn nearest(samples: Seq<Millis>, percentile: Single) -> Option<Millis> {
    if samples.len() == 0 {
        None
    } else {
        Some(Millis(ascending(amounts(samples))[rank(samples.len(), percentile) - 1] as u64))
    }
}

/// A whole percentage in single precision.
pub open spec fn percent(p: u32) -> Single {
    Single { mant: p, exp: 0 }
}

impl StatsView {
    pub open spec fn empty() -> Self {
        StatsView {
            release_to_text: Seq::empty(),
            transcribe: Seq::empty(),
            inject: Seq::empty(),
            audio: Span { secs: 0, nanos: 0 },
            inference: Span { secs: 0, nanos: 0 },
            characters: 0,
        }
    }

    pub open spec fn valid(self) -> bool {
        &&& self.transcribe.len() == self.release_to_text.len()
        &&& self.inject.len() == self.release_to_text.len()
        &&& self.audio.valid()
        &&& self.inference.valid()
    }

    pub open spec fn with_latency(self, latency: Latency) -> Self {
        StatsView {
            release_to_text: self.release_to_text.push(latency.release_to_text),
            transcribe: self.transcribe.push(latency.transcribe),
            inject: self.inject.push(latency.inject),
            ..self
        }
    }

    /// There is room for that much more audio and inference time.
    pub open spec fn has_time_for(self, audio: Span, inference: Span) -> bool {
        &&& audio.valid()
        &&& inference.valid()
        &&& self.audio.total() + audio.total() < (u64::MAX + 1) * SECOND
        &&& self.inference.total() + inference.total() < (u64::MAX + 1) * SECOND
    }

    /// Audio seconds per second of inference, where there was any.
    pub open spec fn factor(self) -> Option<Single> {
        let seconds = self.inference.seconds();
        if seconds.mant > 0 {
            Some(self.audio.seconds().over_spec(seconds))
        } else {
            None
        }
    }

    /// A percentile with its label.
    pub open spec fn labelled(self, label: Seq<char>, p: u32) -> Seq<char> {
        label + nearest(self.release_to_text, percent(p))->0.text()
    }

    pub open spec fn headline(self) -> Seq<char> {
        let audio = self.audio.seconds();
        decimal(self.release_to_text.len()) + " utterance(s), "@ + decimal(self.characters)
            + " chars, "@ + tenths_text(scaled_round(audio.mant as nat, audio.exp as int, 10))
            + "s audio"@
    }

    pub open spec fn pace(self) -> Seq<char> {
        match self.factor() {
            Some(f) => " at "@ + decimal(scaled_round(f.mant as nat, f.exp as int, 1))
                + "x realtime"@,
            None => Seq::empty(),
        }
    }

    pub open spec fn breakdown(self) -> Seq<char> {
        "\n  of which     transcribe "@ + nearest(self.transcribe, percent(50))->0.text()
            + ", inject "@ + nearest(self.inject, percent(50))->0.text() + " (p50)"@
    }

    /// The report.
    pub open spec fn summary(self) -> Seq<char> {
        if self.release_to_text.len() == 0 {
            "no utterances yet"@
        } else {
            self.headline() + self.pace() + "\nrelease \u{2192} text  "@ + self.labelled(
                " p50 "@,
                50,
            ) + self.labelled(" p90 "@, 90) + self.labelled(" p99 "@, 99) + self.breakdown()
        }
    }
}

/// Running latency and throughput for a session.
///
/// Every sample is kept rather than averaged into a counter. Dictation latency
/// is judged by its tail — one 900 ms utterance in twenty is what a user
/// remembers, and a mean of 140 ms hides it completely.
///
/// The clock is the engine's monotonic origin, and the headline interval is
/// *trigger release to text delivered*: the gap the user actually perceives.
/// Everything before release is the user speaking, and no amount of engineering
/// makes that shorter.
#[derive(Debug)]
pub struct Stats {
    release_to_text: Vec<Millis>,
    transcribe: Vec<Millis>,
    inject: Vec<Millis>,
    audio: Span,
    inference: Span,
    characters: usize,
}

impl View for Stats {
    type V = StatsView;

    closed spec fn view(&self) -> StatsView {
        StatsView {
            release_to_text: self.release_to_text@,
            transcribe: self.transcribe@,
            inject: self.inject@,
            audio: self.audio,
            inference: self.inference,
            characters: self.characters as nat,
        }
    }
}

impl Default for Stats {
    fn default() -> (r: Self)
        ensures
            r@ == StatsView::empty(),
            r@.valid(),
    {
        Stats {
            release_to_text: Vec::new(),
            transcribe: Vec::new(),
            inject: Vec::new(),
            audio: Span { secs: 0, nanos: 0 },
            inference: Span { secs: 0, nanos: 0 },
            characters: 0,
        }
    }
}

impl Clone for Stats {
    fn clone(&self) -> (r: Self)
        ensures
            r@ == self@,
    {
        let r = Stats {
            release_to_text: self.release_to_text.clone(),
            transcribe: self.transcribe.clone(),
            inject: self.inject.clone(),
            audio: self.audio,
            inference: self.inference,
            characters: self.characters,
        };
        assert(r@ =~= self@);
        r
    }
}

impl Stats {
    pub fn record_latency(&mut self, latency: Latency)
        ensures
            final(self)@ == old(self)@.with_latency(latency),
            old(self)@.valid() ==> final(self)@.valid(),
    {
        self.release_to_text.push(latency.release_to_text);
        self.transcribe.push(latency.transcribe);
        self.inject.push(latency.inject);
    }

    /// Is there room for that much more audio and inference time?
    pub fn has_time(&self, audio: Span, inference: Span) -> (r: bool)
        ensures
            r == self@.has_time_for(audio, inference),
    {
        let most: u128 = 0x1_0000_0000_0000_0000 * 1_000_000_000;
        audio.nanos < SECOND && inference.nanos < SECOND && self.audio.as_nanos()
            + audio.as_nanos() < most && self.inference.as_nanos() + inference.as_nanos() < most
    }

    pub fn record_audio(&mut self, audio: Span, inference: Span)
        requires
            old(self)@.valid(),
            old(self)@.has_time_for(audio, inference),
        ensures
            final(self)@ == (StatsView {
                audio: final(self)@.audio,
                inference: final(self)@.inference,
                ..old(self)@
            }),
            final(self)@.audio.total() == old(self)@.audio.total() + audio.total(),
            final(self)@.inference.total() == old(self)@.inference.total() + inference.total(),
            final(self)@.valid(),
    {
        self.audio = self.audio.plus(audio);
        self.inference = self.inference.plus(inference);
    }

    pub fn record_emission(&mut self, characters: usize)
        requires
            old(self)@.characters + characters <= usize::MAX,
        ensures
            final(self)@ == (StatsView {
                characters: old(self)@.characters + characters as nat,
                ..old(self)@
            }),
            old(self)@.valid() ==> final(self)@.valid(),
    {
        self.characters += characters;
    }

    #[must_use]
    pub fn utterances(&self) -> (r: usize)
        ensures
            r == self@.release_to_text.len(),
    {
        self.release_to_text.len()
    }

    #[must_use]
    pub fn characters(&self) -> (r: usize)
        ensures
            r == self@.characters,
    {
        self.characters
    }

    /// Aggregate audio seconds processed per second of inference.
    #[must_use]
    pub fn realtime_factor(&self) -> (r: Option<Single>)
        ensures
            r == self@.factor(),
            r matches Some(f) ==> f.mant <= 0x100_0000 && -10_000 < f.exp <= 96,
    {
        let seconds = self.inference.as_secs();
        if seconds.mant > 0 {
            Some(self.audio.as_secs().over(seconds))
        } else {
            None
        }
    }

    /// Nearest-rank percentile of the release-to-text interval.
    #[must_use]
    pub fn release_to_text(&self, percentile: Single) -> (r: Option<Millis>)
        requires
            percentile.ordinary(),
        ensures
            r == nearest(self@.release_to_text, percentile),
    {
        nearest_rank(self.release_to_text.as_slice(), percentile)
    }

    #[must_use]
    pub fn transcribe(&self, percentile: Single) -> (r: Option<Millis>)
        requires
            percentile.ordinary(),
        ensures
            r == nearest(self@.transcribe, percentile),
    {
        nearest_rank(self.transcribe.as_slice(), percentile)
    }

    #[must_use]
    pub fn inject(&self, percentile: Single) -> (r: Option<Millis>)
        requires
            percentile.ordinary(),
        ensures
            r == nearest(self@.inject, percentile),
    {
        nearest_rank(self.inject.as_slice(), percentile)
    }

    fn push_percentile(&self, out: &mut String, label: &str, p: u32)
        requires
            self@.release_to_text.len() > 0,
        ensures
            final(out)@ == old(out)@ + self@.labelled(label@, p),
    {
        push_text(out, label);
        if let Some(v) = self.release_to_text(Single { mant: p, exp: 0 }) {
            push_text(out, v.to_text().as_str());
        }
        assert(out@ =~= old(out)@ + self@.labelled(label@, p));
    }

    /// A one-glance report, naming the interval it measures.
    #[must_use]
    pub fn summary(&self) -> (r: String)
        requires
            self@.valid(),
        ensures
            r@ == self@.summary(),
    {
        if self.release_to_text.len() == 0 {
            return "no utterances yet".to_owned();
        }
        let mut out = String::new();
        push_decimal(&mut out, self.utterances() as u128);
        push_text(&mut out, " utterance(s), ");
        push_decimal(&mut out, self.characters as u128);
        push_text(&mut out, " chars, ");
        push_tenths(&mut out, self.audio.as_secs().round_times(10));
        push_text(&mut out, "s audio");
        assert(out@ =~= self@.headline());
        if let Some(rtf) = self.realtime_factor() {
            push_text(&mut out, " at ");
            push_decimal(&mut out, rtf.round_times(1));
            push_text(&mut out, "x realtime");
        }
        assert(out@ =~= self@.headline() + self@.pace());
        push_text(&mut out, "\nrelease \u{2192} text  ");
        self.push_percentile(&mut out, " p50 ", 50);
        self.push_percentile(&mut out, " p90 ", 90);
        self.push_percentile(&mut out, " p99 ", 99);
        let ghost before = out@;
        let half = Single { mant: 50, exp: 0 };
        if let (Some(t), Some(i)) = (self.transcribe(half), self.inject(half)) {
            push_text(&mut out, "\n  of which     transcribe ");
            push_text(&mut out, t.to_text().as_str());
            push_text(&mut out, ", inject ");
            push_text(&mut out, i.to_text().as_str());
            push_text(&mut out, " (p50)");
        }
        assert(out@ =~= before + self@.breakdown());
        out
    }
}

/// Nearest-rank percentile: the smallest sample at or above the given rank.
///
/// No interpolation, so every reported figure is a latency that actually
/// happened rather than an average of two that did not.
fn nearest_rank(samples: &[Millis], percentile: Single) -> (r: Option<Millis>)
    requires
        percentile.ordinary(),
    ensures
        r == nearest(samples@, percentile),
{
    let n: usize = samples.len();
    if n == 0 {
        return None;
    }
    let mut values: Vec<u128> = Vec::new();
    for i in 0..n
        invariant
            n == samples@.len(),
            values@ == amounts(samples@).take(i as int),
    {
        values.push(samples[i].0 as u128);
        assert(amounts(samples@).take(i + 1) =~= amounts(samples@).take(i as int).push(
            amounts(samples@)[i as int],
        ));
    }
    assert(amounts(samples@).take(n as int) =~= amounts(samples@));
    let sorted = sort_numbers(values.as_slice());
    let count = Single::ratio(n as u128, 1);
    let exact = percentile.over(Single { mant: 100, exp: 0 }).times(count);
    let up: u64 = exact.ceil_capped(n as u64);
    let place: usize = if up < 1 {
        0
    } else {
        (up - 1) as usize
    };
    assert(place == rank(n as nat, percentile) - 1);
    let value: u128 = sorted[place];
    proof {
        law_percentiles_really_happened(samples@, percentile);
    }
    Some(Millis(value as u64))
}

/// A percentile of rank `r` has at least `r` of the samples up to it, and fewer than
/// `r` of them below it.
pub proof fn law_percentiles_split_the_samples(samples: Seq<Millis>, percentile: Single)
    requires
        samples.len() > 0,
    ensures
        nearest(samples, percentile) matches Some(at) && {
            let r = rank(samples.len(), percentile);
            &&& 1 <= r <= samples.len()
            &&& count_up_to(amounts(samples), at.0 as int) >= r
            &&& count_up_to(amounts(samples), at.0 - 1) < r
        },
{
    law_percentiles_really_happened(samples, percentile);
    law_ascending_ranks(amounts(samples), (rank(samples.len(), percentile) - 1) as nat);
}

/// Every percentile is a sample that was recorded.
pub proof fn law_percentiles_really_happened(samples: Seq<Millis>, percentile: Single)
    requires
        samples.len() > 0,
    ensures
        ascending(amounts(samples))[rank(samples.len(), percentile) - 1] <= u64::MAX,
        samples.contains(nearest(samples, percentile)->0),
{
    broadcast use vstd::seq_lib::group_to_multiset_ensures;

    let values = amounts(samples);
    let sorted = ascending(values);
    law_ascending_sorts(values);
    let v = sorted[rank(samples.len(), percentile) - 1];
    assert(sorted.contains(v));
    assert(values.to_multiset().count(v) > 0);
    assert(values.contains(v));
    let i = choose|i: int| 0 <= i < values.len() && values[i] == v;
    assert(samples[i] == Millis(v as u64));
}

/// The order samples arrive in makes no difference to any percentile.
pub proof fn law_percentiles_ignore_arrival(
    a: Seq<Millis>,
    b: Seq<Millis>,
    percentile: Single,
)
    requires
        amounts(a).to_multiset() == amounts(b).to_multiset(),
    ensures
        nearest(a, percentile) == nearest(b, percentile),
{
    law_ascending_ignores_arrival(amounts(a), amounts(b));
    law_ascending_sorts(amounts(a));
    law_ascending_sorts(amounts(b));
}

/// One sample is every percentile.
pub proof fn law_a_single_sample_is_every_percentile(sample: Millis, percentile: Single)
    ensures
        nearest(seq![sample], percentile) == Some(sample),
{
    law_percentiles_really_happened(seq![sample], percentile);
    let v = nearest(seq![sample], percentile)->0;
    assert(seq![sample].contains(v));
}

/// One hundred percent in single precision, however it is scaled.
pub open spec fn is_hundred(percentile: Single) -> bool {
    &&& -23 <= percentile.exp <= 0
    &&& percentile.mant == 100 * pow2((-percentile.exp) as nat)
}

/// Multiplying by one changes nothing: scaling a significand by 2^23 and rounding
/// the product gives it back.
proof fn lemma_one_times(m: nat)
    requires
        HALF_RANGE <= m <= FULL_RANGE,
    ensures
        m < FULL_RANGE ==> significand(HALF_RANGE as nat * m, 1) == m && exponent(
            HALF_RANGE as nat * m,
            1,
        ) == 23,
        m == FULL_RANGE ==> significand(HALF_RANGE as nat * m, 1) == HALF_RANGE && exponent(
            HALF_RANGE as nat * m,
            1,
        ) == 24,
{
    lemma2_to64();
    let (base, k) = if m < FULL_RANGE {
        (m, 23nat)
    } else {
        (HALF_RANGE as nat, 24nat)
    };
    let n = HALF_RANGE as nat * m;
    assert(n == base * pow2(k)) by (nonlinear_arith)
        requires
            n == 0x80_0000 * m,
            (base == m && pow2(k) == 0x80_0000) || (m == 0x100_0000 && base == 0x80_0000 && pow2(k)
                == 0x100_0000),
    ;
    assert(base * pow2(k) * 1 == n);
    lemma_excess_of_scaled(base, k, 1);
    lemma_rounded_exact(base, pow2(k));
}

/// The hundredth percentile is the last of the samples in ascending order, so the
/// worst latency always shows: for every number of samples that single precision
/// does not round down.
pub proof fn law_the_hundredth_percentile_is_the_largest(
    samples: Seq<Millis>,
    percentile: Single,
    i: int,
)
    requires
        is_hundred(percentile),
        0 <= i < samples.len() <= u64::MAX,
        whole(samples.len()) >= samples.len(),
    ensures
        rank(samples.len(), percentile) == samples.len(),
        samples[i].0 <= nearest(samples, percentile).unwrap().0,
{
    let n = samples.len();
    lemma2_to64();
    let j = (-percentile.exp) as nat;
    let hundred = Single { mant: 100, exp: 0 };
    let one = percentile.over_spec(hundred);
    assert(one.mant == HALF_RANGE && one.exp == -23) by {
        lemma_pow2_pos(j);
        if j < 23 {
            lemma_pow2_strictly_increases(j, 23);
        }
        let p = pow2(j);
        lemma_shortfall(100 * p, 100);
        let k = shortfall(100 * p, 100);
        lemma_pow2_adds(j, k);
        assert((100 * p) * pow2(k) == 100 * (p * pow2(k))) by (nonlinear_arith);
        if j + k < 23 {
            lemma_pow2_strictly_increases(j + k, 23);
        } else if j + k > 23 {
            lemma_pow2_strictly_increases(23, j + k);
            lemma_pow2_adds(24, (j + k - 24) as nat);
            lemma_pow2_pos((j + k - 24) as nat);
            assert(pow2(j + k) >= pow2(24)) by (nonlinear_arith)
                requires
                    pow2(j + k) == pow2(24) * pow2((j + k - 24) as nat),
                    pow2((j + k - 24) as nat) >= 1,
            ;
        }
        assert(HALF_RANGE as nat * 100 == (100 * p) * pow2(k));
        lemma_rounded_exact(HALF_RANGE as nat, 100);
    }
    let c = count_of(n);
    let exact = one.times_spec(c);
    if n < FULL_RANGE {
        lemma_shortfall(n, 1);
        assert(n * pow2(23) >= 1 * HALF_RANGE) by (nonlinear_arith)
            requires
                n >= 1,
                pow2(23) == HALF_RANGE,
        ;
        lemma_shortfall_bound(n, 1, 23);
        let sf = shortfall(n, 1);
        let m = n * pow2(sf);
        lemma_rounded_exact(m, 1);
        assert(m * 1 == m);
        assert(c.mant == m && c.exp == -sf);
        lemma_one_times(m);
        assert(exact.mant == m && exact.exp == -sf);
        lemma_pow2_pos(sf);
        if sf > 0 {
            lemma_div_multiples_vanish(n as int, pow2(sf) as int);
            lemma_mod_multiples_basic(n as int, pow2(sf) as int);
            assert(pow2(sf) * n == m) by (nonlinear_arith)
                requires
                    m == n * pow2(sf),
            ;
        } else {
            assert(m == n * 1);
        }
        assert(ceiling(exact.mant as nat, exact.exp as int) == n);
    } else {
        lemma_excess(n, 1);
        let e = excess(n, 1);
        lemma_pow2_pos(e);
        lemma2_to64_rest();
        assert(pow2(e) <= pow2(41)) by (nonlinear_arith)
            requires
                1 * pow2(e) * HALF_RANGE <= n,
                n <= u64::MAX,
                HALF_RANGE == 0x80_0000,
                pow2(41) == 0x200_0000_0000,
        ;
        lemma_power_order(e, 41);
        let d = 1 * pow2(e);
        assert(d == pow2(e));
        let m = rounded(n, d);
        lemma_rounded_bound(n, d);
        assert(c.mant == m && c.exp == e);
        lemma_one_times(m);
        if m == FULL_RANGE {
            assert(exact.mant == HALF_RANGE && exact.exp == e + 1);
            lemma_pow2_unfold(e + 1);
            assert(HALF_RANGE * (2 * pow2(e)) == m * pow2(e)) by (nonlinear_arith)
                requires
                    m == 2 * HALF_RANGE,
            ;
        } else {
            assert(exact.mant == m && exact.exp == e);
        }
        assert(ceiling(exact.mant as nat, exact.exp as int) == m * pow2(e));
    }
    law_ascending_sorts(amounts(samples));
    law_percentiles_really_happened(samples, percentile);
    let sorted = ascending(amounts(samples));
    assert(sorted.contains(amounts(samples)[i])) by {
        broadcast use vstd::seq_lib::group_to_multiset_ensures;

        assert(amounts(samples).contains(amounts(samples)[i]));
        assert(sorted.to_multiset().count(amounts(samples)[i]) > 0);
    }
    let k = choose|k: int| 0 <= k < sorted.len() && sorted[k] == amounts(samples)[i];
    if k < n - 1 {
        assert(sorted[k] <= sorted[n - 1]);
    }
}

/// A higher percentile is no smaller.
pub proof fn law_a_higher_percentile_is_no_smaller(
    samples: Seq<Millis>,
    low: Single,
    high: Single,
)
    requires
        0 < samples.len() <= u64::MAX,
        low.representable(),
        high.representable(),
        low.at_most(high),
    ensures
        nearest(samples, low).unwrap().0 <= nearest(samples, high).unwrap().0,
{
    let n = samples.len();
    let hundred = Single { mant: 100, exp: 0 };
    let count = count_of(n);
    lemma_bounds(n, 1);
    lemma_bounds(low.mant as nat, 100);
    lemma_bounds(high.mant as nat, 100);
    law_quotients_keep_order(low, high, hundred);
    let (a, b) = (low.over_spec(hundred), high.over_spec(hundred));
    law_products_keep_order(a, b, count);
    law_whole_numbers_keep_order(a.times_spec(count), b.times_spec(count));
    law_ascending_sorts(amounts(samples));
    law_percentiles_really_happened(samples, low);
    law_percentiles_really_happened(samples, high);
}

} // verus!
