//! What is said of a transcription and of how long it took.

use crate::chars::{decimal, digit, push_decimal, push_text};
use crate::order::{
    ascending, count_up_to, law_ascending_ranks, law_ascending_sorts, sort_numbers,
};
use crate::outside::{duration_label, label_of_duration};
use crate::single::scaled_round;
use crate::time::{Span, SECOND};
use vstd::prelude::*;

verus! {

/// A number of hundredths, written with two decimals.
pub open spec fn hundredths_text(h: nat) -> Seq<char> {
    decimal(h / 100).push('.').push(digit(h / 10 % 10)).push(digit(h % 10))
}

/// A length of time in seconds, in single precision, to two decimals.
pub open spec fn seconds_text(span: Span) -> Seq<char> {
    let s = span.seconds();
    hundredths_text(scaled_round(s.mant as nat, s.exp as int, 100))
}

/// Appends a length of time in seconds, to two decimals.
pub fn push_seconds(out: &mut String, span: Span)
    ensures
        final(out)@ == old(out)@ + seconds_text(span),
{
    let h: u128 = span.as_secs().round_times(100);
    push_decimal(out, h / 100);
    out.push('.');
    out.push((('0' as u8) + ((h / 10 % 10) as u8)) as char);
    out.push((('0' as u8) + ((h % 10) as u8)) as char);
    assert(out@ =~= old(out)@ + seconds_text(span));
}

/// How many times faster than the audio it was, to the nearest: no time at all reads
/// as `inf`, and none for no audio as `NaN`.
pub open spec fn rate_text(audio: Span, took: Span) -> Seq<char> {
    let seconds = took.seconds();
    if seconds.mant == 0 {
        if audio.seconds().mant == 0 {
            "NaN"@
        } else {
            "inf"@
        }
    } else {
        let f = audio.seconds().over_spec(seconds);
        decimal(scaled_round(f.mant as nat, f.exp as int, 1))
    }
}

fn push_rate(out: &mut String, audio: Span, took: Span)
    ensures
        final(out)@ == old(out)@ + rate_text(audio, took),
{
    let seconds = took.as_secs();
    let length = audio.as_secs();
    if seconds.mant == 0 {
        if length.mant == 0 {
            push_text(out, "NaN");
        } else {
            push_text(out, "inf");
        }
    } else {
        push_decimal(out, length.over(seconds).round_times(1));
    }
}

/// A length of time as it is shown to a developer.
pub open spec fn span_text(span: Span) -> Seq<char> {
    duration_label(span.secs, span.nanos)
}

fn push_span(out: &mut String, span: Span)
    requires
        span.valid(),
    ensures
        final(out)@ == old(out)@ + span_text(span),
{
    push_text(out, label_of_duration(span.secs, span.nanos).as_str());
}

/// The lines that name the model and the length of the audio.
pub fn header(model: &str, audio: Span) -> (r: (String, String))
    ensures
        r.0@ == "  model  "@ + model@,
        r.1@ == "  audio  "@ + seconds_text(audio) + "s"@,
{
    let mut first = "  model  ".to_owned();
    push_text(&mut first, model);
    let mut second = "  audio  ".to_owned();
    push_seconds(&mut second, audio);
    push_text(&mut second, "s");
    (first, second)
}

/// What is said of the first run.
///
/// The first call pays for kernel selection, autotuning and allocator warm-up.
/// Reporting it together with the rest would flatter or slander the device
/// depending only on how many times you happened to run it.
pub fn first_run(first: Span, audio: Span) -> (r: String)
    requires
        first.valid(),
    ensures
        r@ == "  first  "@ + span_text(first) + " ("@ + rate_text(audio, first) + "x realtime)"@,
{
    let mut out = "  first  ".to_owned();
    push_span(&mut out, first);
    push_text(&mut out, " (");
    push_rate(&mut out, audio, first);
    push_text(&mut out, "x realtime)");
    out
}

pub open spec fn totals(spans: Seq<Span>) -> Seq<u128> {
    spans.map_values(|s: Span| s.total() as u128)
}

/// All the lengths are valid.
pub open spec fn all_valid(spans: Seq<Span>) -> bool {
    forall|i: int| 0 <= i < spans.len() ==> (#[trigger] spans[i]).valid()
}

/// The length that is at `place` once they are in ascending order.
pub open spec fn at_place(spans: Seq<Span>, place: int) -> Span {
    let nanos = ascending(totals(spans))[place] as nat;
    Span { secs: (nanos / 1_000_000_000) as u64, nanos: (nanos % 1_000_000_000) as u32 }
}

fn in_order(spans: &[Span]) -> (r: Vec<Span>)
    requires
        all_valid(spans@),
    ensures
        r@.len() == spans@.len(),
        forall|i: int|
            0 <= i < r@.len() ==> (#[trigger] r@[i]).valid() && r@[i] == at_place(spans@, i),
{
    let mut numbers: Vec<u128> = Vec::new();
    for i in 0..spans.len()
        invariant
            all_valid(spans@),
            numbers@ == totals(spans@).take(i as int),
    {
        let ghost this = spans@[i as int];
        assert(this.valid());
        numbers.push(spans[i].as_nanos());
        assert(totals(spans@).take(i + 1) =~= totals(spans@).take(i as int).push(
            totals(spans@)[i as int],
        ));
    }
    assert(totals(spans@).take(spans@.len() as int) =~= totals(spans@));
    let sorted = sort_numbers(numbers.as_slice());
    proof {
        lemma_sorted_totals_fit(spans@);
    }
    let mut out: Vec<Span> = Vec::new();
    for i in 0..sorted.len()
        invariant
            sorted@ == ascending(totals(spans@)),
            forall|k: int|
                0 <= k < sorted@.len() ==> #[trigger] sorted@[k] < (u64::MAX + 1) * SECOND,
            out@.len() == i,
            forall|k: int|
                0 <= k < i ==> (#[trigger] out@[k]).valid() && out@[k] == at_place(spans@, k),
    {
        let span = Span::from_nanos(sorted[i]);
        assert(span == at_place(spans@, i as int));
        out.push(span);
    }
    out
}

proof fn lemma_sorted_totals_fit(spans: Seq<Span>)
    requires
        all_valid(spans),
    ensures
        forall|k: int|
            0 <= k < ascending(totals(spans)).len() ==> #[trigger] ascending(totals(spans))[k] < (
            u64::MAX + 1) * SECOND,
{
    broadcast use vstd::seq_lib::group_to_multiset_ensures;

    let all = totals(spans);
    let sorted = ascending(all);
    law_ascending_sorts(all);
    assert forall|k: int| 0 <= k < sorted.len() implies #[trigger] sorted[k] < (u64::MAX + 1)
        * SECOND by {
        let v = sorted[k];
        assert(sorted.contains(v));
        assert(all.to_multiset().count(v) > 0);
        assert(all.contains(v));
        let i = choose|i: int| 0 <= i < all.len() && all[i] == v;
        assert(spans[i].valid());
    }
}

/// What is said of the runs after the first, where there are any.
pub fn warm_runs(warm: &[Span], audio: Span) -> (r: Option<String>)
    requires
        all_valid(warm@),
    ensures
        match r {
            None => warm@.len() == 0,
            Some(line) => warm@.len() > 0 && line@ == ({
                let n = warm@.len() as int;
                let median = at_place(warm@, n / 2);
                "  warm   "@ + span_text(median) + " median of "@ + decimal(warm@.len()) + " ("@
                    + rate_text(audio, median) + "x realtime), best "@ + span_text(
                    at_place(warm@, 0),
                ) + ", worst "@ + span_text(at_place(warm@, n - 1))
            }),
        },
{
    let n: usize = warm.len();
    if n == 0 {
        return None;
    }
    let sorted = in_order(warm);
    let median = sorted[n / 2];
    let mut out = "  warm   ".to_owned();
    push_span(&mut out, median);
    push_text(&mut out, " median of ");
    push_decimal(&mut out, n as u128);
    push_text(&mut out, " (");
    push_rate(&mut out, audio, median);
    push_text(&mut out, "x realtime), best ");
    push_span(&mut out, sorted[0]);
    push_text(&mut out, ", worst ");
    push_span(&mut out, sorted[n - 1]);
    Some(out)
}

/// What is said of a streaming model's step.
pub fn chunk_line(chunk_samples: usize) -> (r: String)
    requires
        chunk_samples * 1000 <= usize::MAX,
    ensures
        r@ == "  chunk  "@ + decimal(chunk_samples as nat * 1000 / 16_000) + "ms"@,
{
    let mut out = "  chunk  ".to_owned();
    push_decimal(&mut out, (chunk_samples * 1000 / 16_000) as u128);
    push_text(&mut out, "ms");
    out
}

/// What is said of streaming a recording.
///
/// The number that matters is the tail: everything before it happened while the
/// user was still talking.
pub fn stream_lines(total: Span, audio: Span, tails: &[Span]) -> (r: (String, String))
    requires
        total.valid(),
        all_valid(tails@),
        tails@.len() > 0,
    ensures
        r.0@ == "  total  "@ + span_text(total) + " of compute spread across "@ + seconds_text(audio)
            + "s of speech"@,
        r.1@ == "  tail   "@ + span_text(at_place(tails@, tails@.len() as int / 2))
            + " median of "@ + decimal(tails@.len())
            + " \u{2014} the only part the user waits for"@,
{
    let n: usize = tails.len();
    let sorted = in_order(tails);
    let mut first = "  total  ".to_owned();
    push_span(&mut first, total);
    push_text(&mut first, " of compute spread across ");
    push_seconds(&mut first, audio);
    push_text(&mut first, "s of speech");
    let mut second = "  tail   ".to_owned();
    push_span(&mut second, sorted[n / 2]);
    push_text(&mut second, " median of ");
    push_decimal(&mut second, n as u128);
    push_text(&mut second, " \u{2014} the only part the user waits for");
    (first, second)
}

/// How many times to transcribe: at least once.
#[must_use]
pub fn runs(repeat: usize) -> (r: usize)
    ensures
        r == (if repeat == 0 {
            1
        } else {
            repeat
        }),
{
    if repeat == 0 {
        1
    } else {
        repeat
    }
}

/// A number of hundredths reads back as itself: the whole part, a point and two
/// digits.
pub proof fn law_hundredths_read_back(h: nat)
    ensures
        hundredths_text(h) == decimal(h / 100) + seq!['.', digit(h / 10 % 10), digit(h % 10)],
        100 * (h / 100) + 10 * (h / 10 % 10) + h % 10 == h,
{
    assert(hundredths_text(h) =~= decimal(h / 100) + seq!['.', digit(h / 10 % 10), digit(h % 10)]);
}

/// How the rate reads: as many times faster as the audio is longer, and not as a
/// number where no time was taken.
pub proof fn law_how_a_rate_reads(audio: Span, took: Span)
    ensures
        took.seconds().mant > 0 ==> {
            let f = audio.seconds().over_spec(took.seconds());
            rate_text(audio, took) == decimal(scaled_round(f.mant as nat, f.exp as int, 1))
        },
        took.seconds().mant == 0 && audio.seconds().mant > 0 ==> rate_text(audio, took) == "inf"@,
        took.seconds().mant == 0 && audio.seconds().mant == 0 ==> rate_text(audio, took) == "NaN"@,
{
}

/// The length at a place has more than that many of the lengths up to it and no more
/// than that many below it: so the one at the first place is the best, the one at the
/// last the worst, and the one in the middle their median.
pub proof fn law_where_a_length_stands(spans: Seq<Span>, place: nat)
    requires
        all_valid(spans),
        place < spans.len(),
    ensures
        at_place(spans, place as int).valid(),
        count_up_to(totals(spans), at_place(spans, place as int).total() as int) > place,
        count_up_to(totals(spans), at_place(spans, place as int).total() - 1) <= place,
{
    lemma_sorted_totals_fit(spans);
    law_ascending_sorts(totals(spans));
    law_ascending_ranks(totals(spans), place);
    let nanos = ascending(totals(spans))[place as int];
    assert(nanos < (u64::MAX + 1) * SECOND);
    let span = at_place(spans, place as int);
    assert(span.total() == nanos) by {
        assert(nanos / 1_000_000_000 <= u64::MAX);
    }
}

} // verus!
