//! What a microphone keeps, how long it lasts, and which device it is.

use crate::audio::{
    duration_nanos, first_holding, last_of, listing, lowercase_names, SharedView,
};
use crate::chars::has_text;
use crate::outside::lowercase;
use crate::single::{lemma_shortfall, rounded, shortfall, significand, FULL_RANGE};
use crate::single_laws::law_rounding_is_to_the_nearest;
use vstd::arithmetic::power2::{lemma2_to64, lemma_pow2_pos, pow2};
use vstd::prelude::*;

verus! {

/// The last so many elements are a tail of the sequence, as long as asked for where
/// there are that many.
pub proof fn law_the_last_elements_are_a_tail<S>(s: Seq<S>, n: nat)
    ensures
        last_of(s, n).len() == (if s.len() < n {
            s.len()
        } else {
            n
        }),
        forall|i: int|
            0 <= i < last_of(s, n).len() ==> #[trigger] last_of(s, n)[i] == s[s.len() - last_of(
                s,
                n,
            ).len() + i],
{
}

/// Samples that come in are the newest: while recording they stand at the end of the
/// recording and the pre-roll stays as it is; otherwise they stand at the end of the
/// pre-roll, which never holds more than it has room for and lets go of the oldest.
pub proof fn law_samples_are_kept_in_order<S>(shared: SharedView<S>, mono: Seq<S>)
    requires
        shared.valid(),
    ensures
        ({
            let after = shared.pushed(mono);
            &&& after.capacity == shared.capacity
            &&& match shared.recording {
                Some(recording) => {
                    &&& after.preroll == shared.preroll
                    &&& after.recording matches Some(longer)
                    &&& longer.len() == recording.len() + mono.len()
                    &&& forall|i: int|
                        0 <= i < recording.len() ==> #[trigger] longer[i] == recording[i]
                    &&& forall|i: int|
                        0 <= i < mono.len() ==> longer[recording.len() + i] == #[trigger] mono[i]
                },
                None => {
                    let all = shared.preroll + mono;
                    &&& after.recording is None
                    &&& after.preroll.len() <= shared.capacity
                    &&& after.preroll.len() == shared.capacity || after.preroll.len() == all.len()
                    &&& forall|i: int|
                        0 <= i < after.preroll.len() ==> #[trigger] after.preroll[i]
                            == all[all.len() - after.preroll.len() + i]
                },
            }
        }),
{
}

/// A recording begins as a copy of the pre-roll.
pub proof fn law_a_recording_begins_with_the_preroll<S>(shared: SharedView<S>)
    ensures
        shared.begun().recording == Some(shared.preroll),
        shared.begun().preroll == shared.preroll,
        shared.begun().capacity == shared.capacity,
{
}

/// A recording lasts as long as its samples at sixteen thousand a second, to within
/// half a nanosecond and what single precision rounds off.
pub proof fn law_samples_last_a_sixteen_thousandth(samples: nat)
    requires
        samples < FULL_RANGE,
    ensures
        16_000 * duration_nanos(samples) <= 1_000_000_000 * samples + 8_000 + 60 * samples,
        1_000_000_000 * samples <= 16_000 * duration_nanos(samples) + 8_000 + 60 * samples,
        samples == 0 ==> duration_nanos(samples) == 0,
{
    lemma2_to64();
    let s = samples;
    if s == 0 {
        assert(shortfall(0, 16_000) == 0);
        assert(0 * pow2(0) == 0);
        assert(rounded(0, 16_000) == 0);
        assert(0 * pow2(0) * 1_000_000_000 == 0);
    } else {
        let k = shortfall(s, 16_000);
        lemma_shortfall(s, 16_000);
        lemma_pow2_pos(k);
        let p = pow2(k);
        let m = significand(s, 16_000);
        assert(k > 0) by {
            if k == 0 {
                assert(s * 1 == s);
            }
        }
        assert(m == rounded(s * p, 16_000));
        law_rounding_is_to_the_nearest(s * p, 16_000);
        let nanos = duration_nanos(s);
        assert(nanos == rounded(m * 1_000_000_000, p));
        law_rounding_is_to_the_nearest(m * 1_000_000_000, p);
        assert(16_000 * nanos <= 1_000_000_000 * s + 8_000 + 60 * s && 1_000_000_000 * s <= 16_000
            * nanos + 8_000 + 60 * s) by (nonlinear_arith)
            requires
                p > 0,
                16_000 * 0x80_0000 <= s * p,
                2 * (m * 16_000) <= 2 * (s * p) + 16_000,
                2 * (s * p) <= 2 * (m * 16_000) + 16_000,
                2 * (nanos * p) <= 2 * (m * 1_000_000_000) + p,
                2 * (m * 1_000_000_000) <= 2 * (nanos * p) + p,
        {
            assert((16_000 * nanos) * p <= (1_000_000_000 * s + 8_000 + 60 * s) * p);
            assert((1_000_000_000 * s) * p <= (16_000 * nanos + 8_000 + 60 * s) * p);
        }
    }
}

/// The device that is found is the first whose name holds what was asked for, and none
/// is found exactly where no name does.
pub proof fn law_the_first_device_that_matches(
    names: Seq<Option<Seq<char>>>,
    wanted: Seq<char>,
)
    ensures
        match first_holding(names, wanted) {
            Some(i) => i < names.len() && holds(names[i as int], wanted) && forall|j: int|
                0 <= j < i ==> !holds(#[trigger] names[j], wanted),
            None => forall|j: int| 0 <= j < names.len() ==> !holds(#[trigger] names[j], wanted),
        },
    decreases names.len(),
{
    if names.len() > 0 {
        let front = names.drop_last();
        law_the_first_device_that_matches(front, wanted);
        if let Some(text) = names.last() {
            law_what_holding_a_text_means(text, wanted);
        }
        assert forall|j: int| 0 <= j < front.len() implies front[j] == #[trigger] names[j] by {}
        assert forall|j: int|
            0 <= j < names.len() && (match first_holding(names, wanted) {
                Some(i) => j < i,
                None => true,
            }) implies !holds(#[trigger] names[j], wanted) by {
            if j < front.len() {
                assert(!holds(front[j], wanted));
            }
        }
    }
}

/// The device has a name, and `wanted` stands somewhere in it.
pub open spec fn holds(name: Option<Seq<char>>, wanted: Seq<char>) -> bool {
    name matches Some(text) && exists|at: int|
        0 <= at <= text.len() - wanted.len() && #[trigger] text.subrange(at, at + wanted.len())
            == wanted
}

/// Looking for a text inside another finds it wherever it stands.
pub proof fn law_what_holding_a_text_means(text: Seq<char>, wanted: Seq<char>)
    ensures
        has_text(text, wanted) <==> holds(Some(text), wanted),
{
    if has_text(text, wanted) {
        let at = choose|at: int| crate::chars::stands_at(text, wanted, at);
        assert(crate::chars::stands_at(text, wanted, at));
        assert(text.subrange(at, at + wanted.len()) =~= wanted);
    }
    if holds(Some(text), wanted) {
        let at = choose|at: int|
            0 <= at <= text.len() - wanted.len() && #[trigger] text.subrange(
                at,
                at + wanted.len(),
            ) == wanted;
        assert(crate::chars::stands_at(text, wanted, at));
    }
}

/// One more device is listed after the others if it has a name, and marked if it is
/// the default.
pub proof fn law_one_more_device(
    names: Seq<Option<Seq<char>>>,
    name: Seq<char>,
    default: Option<Seq<char>>,
)
    ensures
        listing(Seq::empty(), default) == Seq::<Seq<char>>::empty(),
        listing(names.push(None), default) == listing(names, default),
        default == Some(name) ==> listing(names.push(Some(name)), default) == listing(
            names,
            default,
        ).push(name + " (default)"@),
        default != Some(name) ==> listing(names.push(Some(name)), default) == listing(
            names,
            default,
        ).push(name),
{
    assert(names.push(None).drop_last() =~= names);
    assert(names.push(Some(name)).drop_last() =~= names);
}

/// Names are looked for in small letters, each in its own place.
pub proof fn law_names_are_compared_in_small_letters(names: Seq<Option<String>>, i: int)
    requires
        0 <= i < names.len(),
    ensures
        lowercase_names(names).len() == names.len(),
        names[i] is None ==> lowercase_names(names)[i] is None,
        names[i] matches Some(name) ==> lowercase_names(names)[i] == Some(lowercase(name@)),
{
}

} // verus!
