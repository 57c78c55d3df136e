//! Which part of a recording is worth transcribing.

use core::ops::Range;
use crate::single::Single;
use vstd::prelude::*;

verus! {

/// Samples per VAD frame: 16 ms at 16 kHz, which is what the detector requires.
pub const FRAME: usize = 256;

/// Frames of audio kept either side of detected speech, so trimming never
/// clips a soft consonant at the start or end of an utterance.
pub const PAD_FRAMES: usize = 6;

/// The first frame that holds speech.
pub open spec fn first_speech(speech: Seq<bool>) -> Option<nat>
    decreases speech.len(),
{
    if speech.len() == 0 {
        None
    } else if speech[0] {
        Some(0)
    } else {
        match first_speech(speech.skip(1)) {
            Some(i) => Some(i + 1),
            None => None,
        }
    }
}

/// The last frame that holds speech.
pub open spec fn last_speech(speech: Seq<bool>) -> Option<nat>
    decreases speech.len(),
{
    if speech.len() == 0 {
        None
    } else if speech.last() {
        Some((speech.len() - 1) as nat)
    } else {
        last_speech(speech.drop_last())
    }
}

/// The first sample to keep.
pub open spec fn range_start(speech: Seq<bool>) -> nat {
    match first_speech(speech) {
        Some(first) => if first >= PAD_FRAMES {
            ((first - PAD_FRAMES) * FRAME) as nat
        } else {
            0
        },
        None => 0,
    }
}

/// The sample after the last one to keep.
pub open spec fn range_end(len: nat, speech: Seq<bool>) -> nat {
    match last_speech(speech) {
        Some(last) => {
            let end = (last + 1 + PAD_FRAMES as nat) * FRAME as nat;
            if end < len {
                end
            } else {
                len
            }
        },
        None => len,
    }
}

proof fn lemma_first_speech(speech: Seq<bool>)
    ensures
        match first_speech(speech) {
            Some(i) => i < speech.len() && speech[i as int] && forall|j: int|
                0 <= j < i ==> !#[trigger] speech[j],
            None => forall|j: int| 0 <= j < speech.len() ==> !#[trigger] speech[j],
        },
    decreases speech.len(),
{
    if speech.len() > 0 && !speech[0] {
        let rest = speech.skip(1);
        lemma_first_speech(rest);
        assert forall|j: int|
            0 <= j < speech.len() && (first_speech(speech) matches Some(i) ==> j < i) implies !
        #[trigger] speech[j] by {
            if j > 0 {
                assert(rest[j - 1] == speech[j]);
            }
        }
    }
}

proof fn lemma_last_speech(speech: Seq<bool>)
    ensures
        match last_speech(speech) {
            Some(i) => i < speech.len() && speech[i as int] && forall|j: int|
                i < j < speech.len() ==> !#[trigger] speech[j],
            None => forall|j: int| 0 <= j < speech.len() ==> !#[trigger] speech[j],
        },
    decreases speech.len(),
{
    if speech.len() > 0 && !speech.last() {
        let front = speech.drop_last();
        lemma_last_speech(front);
        assert forall|j: int|
            0 <= j < speech.len() && (last_speech(speech) matches Some(i) ==> i < j) implies !
        #[trigger] speech[j] by {
            if j < speech.len() - 1 {
                assert(front[j] == speech[j]);
            }
        }
    }
}

/// Which frames hold speech, given a score for each: those that reach the threshold.
pub open spec fn spoken(scores: Seq<Single>, threshold: Single) -> Seq<bool> {
    scores.map_values(|score: Single| score.units() >= threshold.units())
}

/// The part of a recording of `len` samples worth transcribing, given for each
/// whole frame of it how much it looks like speech.
///
/// Trimming silence is a latency optimisation: Parakeet's cost scales with audio
/// length, and push-to-talk always carries dead air at the tail. When no frame
/// looks like speech the full range is returned — a transcriber that sees the
/// audio and finds nothing is a far better failure than one that never sees it.
#[must_use]
pub fn speech_range(len: usize, scores: &[Single], threshold: Single) -> (r: Range<usize>)
    requires
        scores@.len() == len as nat / FRAME as nat,
        len + (PAD_FRAMES + 1) * FRAME <= usize::MAX,
        threshold.representable(),
        forall|i: int| 0 <= i < scores@.len() ==> (#[trigger] scores@[i]).representable(),
    ensures
        r.start == range_start(spoken(scores@, threshold)),
        r.end == range_end(len as nat, spoken(scores@, threshold)),
        r.start <= r.end <= len,
{
    let n: usize = scores.len();
    let ghost speech = spoken(scores@, threshold);
    let mut first: usize = 0;
    while first < n && scores[first].is_below(threshold)
        invariant
            n == scores@.len(),
            first <= n,
            threshold.representable(),
            forall|i: int| 0 <= i < scores@.len() ==> (#[trigger] scores@[i]).representable(),
            speech == spoken(scores@, threshold),
            forall|j: int| 0 <= j < first ==> !#[trigger] speech[j],
        decreases n - first,
    {
        first += 1;
    }
    proof {
        lemma_first_speech(speech);
        lemma_last_speech(speech);
    }
    if first == n {
        return 0..len;
    }
    assert(speech[first as int]);
    let mut last: usize = n - 1;
    while scores[last].is_below(threshold)
        invariant
            n == scores@.len(),
            first <= last < n,
            threshold.representable(),
            forall|i: int| 0 <= i < scores@.len() ==> (#[trigger] scores@[i]).representable(),
            speech == spoken(scores@, threshold),
            speech[first as int],
            forall|j: int| last < j < n ==> !#[trigger] speech[j],
        decreases last,
    {
        last -= 1;
    }
    assert(speech[last as int]);
    assert(n * FRAME <= len);
    let start: usize = if first >= PAD_FRAMES {
        (first - PAD_FRAMES) * FRAME
    } else {
        0
    };
    let padded: usize = (last + 1 + PAD_FRAMES) * FRAME;
    let end: usize = if padded < len {
        padded
    } else {
        len
    };
    start..end
}

/// Trimming never clips speech: every frame that holds speech is kept whole, with
/// the padding before it and after it as far as the recording goes.
pub proof fn law_no_speech_is_trimmed(len: nat, speech: Seq<bool>, frame: int)
    requires
        speech.len() == len / FRAME as nat,
        0 <= frame < speech.len(),
        speech[frame],
    ensures
        range_start(speech) <= frame * FRAME,
        (frame + 1) * FRAME <= range_end(len, speech),
        frame >= PAD_FRAMES ==> range_start(speech) <= (frame - PAD_FRAMES) * FRAME,
        frame < PAD_FRAMES ==> range_start(speech) == 0,
        range_end(len, speech) >= (frame + 1 + PAD_FRAMES) * FRAME || range_end(len, speech) == len,
{
    lemma_first_speech(speech);
    lemma_last_speech(speech);
}

/// A recording in which nothing looks like speech is kept whole.
pub proof fn law_silence_is_never_trimmed(len: nat, speech: Seq<bool>)
    requires
        forall|i: int| 0 <= i < speech.len() ==> !#[trigger] speech[i],
    ensures
        range_start(speech) == 0,
        range_end(len, speech) == len,
{
    lemma_first_speech(speech);
    lemma_last_speech(speech);
}

/// A frame is speech: its score reaches the threshold.
pub open spec fn reaches(score: Single, threshold: Single) -> bool {
    threshold.units() <= score.units()
}

/// Silence is trimmed and nothing else: where some frame reaches the threshold, the
/// range begins exactly the padding before the first that does and ends exactly the
/// padding after the last, as far as the recording goes. Where none does, all of it is
/// kept.
pub proof fn law_only_silence_is_trimmed(
    len: nat,
    scores: Seq<Single>,
    threshold: Single,
    first: int,
    last: int,
)
    requires
        scores.len() == len / 256,
        0 <= first <= last < scores.len(),
        reaches(scores[first], threshold),
        reaches(scores[last], threshold),
        forall|i: int| 0 <= i < first ==> !reaches(#[trigger] scores[i], threshold),
        forall|i: int| last < i < scores.len() ==> !reaches(#[trigger] scores[i], threshold),
    ensures
        ({
            let start = range_start(spoken(scores, threshold));
            let end = range_end(len, spoken(scores, threshold));
            &&& first <= 6 ==> start == 0
            &&& first > 6 ==> start == (first - 6) * 256
            &&& (last + 7) * 256 <= len ==> end == (last + 7) * 256
            &&& (last + 7) * 256 > len ==> end == len
            &&& start <= first * 256
            &&& (last + 1) * 256 <= end <= len
        }),
{
    let speech = spoken(scores, threshold);
    lemma_first_speech(speech);
    lemma_last_speech(speech);
    assert forall|i: int| 0 <= i < scores.len() implies #[trigger] speech[i] == reaches(
        scores[i],
        threshold,
    ) by {}
    assert(speech[first] && speech[last]);
    assert(first_speech(speech) == Some(first as nat)) by {
        let f = first_speech(speech)->0;
        assert(speech[f as int]);
        if f < first {
            assert(!reaches(scores[f as int], threshold));
        }
    }
    assert(last_speech(speech) == Some(last as nat)) by {
        let l = last_speech(speech)->0;
        assert(speech[l as int]);
        if l > last {
            assert(!reaches(scores[l as int], threshold));
        }
    }
    assert((last + 1) * 256 <= len);
}

/// Where no frame reaches the threshold, the whole recording is kept.
pub proof fn law_a_recording_without_speech_is_kept(
    len: nat,
    scores: Seq<Single>,
    threshold: Single,
)
    requires
        forall|i: int| 0 <= i < scores.len() ==> !reaches(#[trigger] scores[i], threshold),
    ensures
        range_start(spoken(scores, threshold)) == 0,
        range_end(len, spoken(scores, threshold)) == len,
{
    let speech = spoken(scores, threshold);
    assert forall|i: int| 0 <= i < speech.len() implies !#[trigger] speech[i] by {
        assert(!reaches(scores[i], threshold));
    }
    law_silence_is_never_trimmed(len, speech);
}

/// Audio added after the padding makes no difference to where the speech lies.
pub proof fn law_dead_air_is_never_kept(
    len: nat,
    more: nat,
    scores: Seq<Single>,
    silence: Seq<Single>,
    threshold: Single,
    last: int,
)
    requires
        scores.len() == len / 256,
        scores.len() + silence.len() == (len + more) / 256,
        0 <= last < scores.len(),
        reaches(scores[last], threshold),
        forall|i: int| last < i < scores.len() ==> !reaches(#[trigger] scores[i], threshold),
        forall|i: int| 0 <= i < silence.len() ==> !reaches(#[trigger] silence[i], threshold),
        (last + 7) * 256 <= len,
    ensures
        range_start(spoken(scores + silence, threshold)) == range_start(spoken(scores, threshold)),
        range_end(len + more, spoken(scores + silence, threshold)) == range_end(
            len,
            spoken(scores, threshold),
        ),
{
    let speech = spoken(scores, threshold);
    lemma_first_speech(speech);
    assert(speech[last]);
    let first = first_speech(speech)->0 as int;
    assert(speech[first]);
    let all = scores + silence;
    assert forall|i: int| 0 <= i < first implies !reaches(#[trigger] scores[i], threshold) by {
        assert(!speech[i]);
    }
    assert forall|i: int| 0 <= i < first implies !reaches(#[trigger] all[i], threshold) by {
        assert(all[i] == scores[i]);
    }
    assert forall|i: int| last < i < all.len() implies !reaches(#[trigger] all[i], threshold) by {
        if i < scores.len() {
            assert(all[i] == scores[i]);
        } else {
            assert(all[i] == silence[i - scores.len()]);
        }
    }
    assert(first <= last) by {
        if last < first {
            assert(!reaches(scores[last], threshold));
        }
    }
    law_only_silence_is_trimmed(len, scores, threshold, first, last);
    law_only_silence_is_trimmed(len + more, all, threshold, first, last);
}

} // verus!
