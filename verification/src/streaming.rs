//! Transcribing while the user is still speaking.
//!
//! A batch transcriber cannot start until the key is released, so every
//! millisecond of inference lands squarely inside the delay the user feels. A
//! cache-aware streaming model instead consumes the utterance as it happens, and
//! by the time the key comes up only the final chunk is outstanding. The work
//! does not get cheaper; it gets moved off the critical path.
//!
//! The trade is that state now persists between calls, which makes resetting it a
//! correctness requirement rather than housekeeping: without it the second
//! dictation is decoded in the acoustic context of the first.

use crate::asr::{AsrError, AsrErrorView, Transcript};
use crate::chars::{push_text, trim, Class};
use crate::config::{Accelerator, Precision};
use crate::models::{choice, choose_variant, Family, Variant};
use crate::order::name_views;
use crate::parakeet::Provider;
use crate::time::Span;
use vstd::prelude::*;

verus! {

/// The device streaming weights run on.
pub open spec fn stream_provider(
    gpu_usable: bool,
    accelerator: Accelerator,
    cuda_built: bool,
) -> Provider {
    if gpu_usable && accelerator != Accelerator::Cpu && cuda_built {
        Provider::Cuda
    } else {
        Provider::Cpu
    }
}

/// Finds the streaming weights to load among `variants`, which are those under
/// `root`, and what to run them on.
pub fn open<'a>(
    root: &str,
    variants: &'a [Variant],
    precision: Precision,
    accelerator: Accelerator,
    gpu_usable: bool,
    cuda_built: bool,
) -> (r: Result<(&'a Variant, Provider), AsrError>)
    ensures
        match r {
            Ok((variant, provider)) => {
                &&& choice(
                    variants@,
                    gpu_usable,
                    precision,
                    Family::NemotronStreaming,
                ) matches Some(i)
                &&& i < variants@.len()
                &&& *variant == variants@[i as int]
                &&& provider == stream_provider(gpu_usable, accelerator, cuda_built)
            },
            Err(e) => choice(variants@, gpu_usable, precision, Family::NemotronStreaming) is None
                && e@ == AsrErrorView::ModelMissing(root@),
        },
{
    match choose_variant(variants, gpu_usable, precision, Family::NemotronStreaming) {
        None => Err(AsrError::ModelMissing(root.to_owned())),
        Some(chosen) => {
            let provider = if gpu_usable && accelerator != Accelerator::Cpu && cuda_built {
                Provider::Cuda
            } else {
                Provider::Cpu
            };
            Ok((chosen, provider))
        },
    }
}

/// The language to set on a freshly loaded model, if any.
///
/// The multilingual variant defaults to detecting the language per utterance.
/// Naming it is strictly more accurate when it is known.
pub fn target_language(multilingual: bool, language: Option<String>) -> (r: Option<String>)
    ensures
        r == (if multilingual {
            language
        } else {
            None
        }),
{
    if multilingual {
        language
    } else {
        None
    }
}

/// What a loaded model is called.
pub fn label(multilingual: bool, provider: Provider) -> (r: String)
    ensures
        r@ == "nemotron-streaming-0.6b ("@ + (if multilingual {
            "multilingual"@
        } else {
            "en"@
        }) + ") on "@ + (if provider == Provider::Cpu {
            "cpu"@
        } else {
            "cuda"@
        }),
{
    let mut out = "nemotron-streaming-0.6b (".to_owned();
    if multilingual {
        push_text(&mut out, "multilingual");
    } else {
        push_text(&mut out, "en");
    }
    push_text(&mut out, ") on ");
    if provider == Provider::Cpu {
        push_text(&mut out, "cpu");
    } else {
        push_text(&mut out, "cuda");
    }
    out
}

/// How much audio a streaming model has been fed in the current utterance.
#[derive(Debug, Clone, Copy, PartialEq, Eq)]
pub struct Feed {
    fed: usize,
}

impl Feed {
    pub closed spec fn fed(self) -> nat {
        self.fed as nat
    }

    /// The state for a new utterance.
    #[must_use]
    pub fn reset() -> (r: Self)
        ensures
            r.fed() == 0,
    {
        Feed { fed: 0 }
    }

    /// Is there room to take note of `samples` more samples?
    #[must_use]
    pub fn can_feed(&self, samples: usize) -> (r: bool)
        ensures
            r == (self.fed() + samples <= usize::MAX),
    {
        samples <= usize::MAX - self.fed
    }

    /// Takes note of `samples` more samples, and says whether there are any for the
    /// model.
    pub fn feed(&mut self, samples: usize) -> (r: bool)
        requires
            old(self).fed() + samples <= usize::MAX,
        ensures
            r == (samples > 0),
            final(self).fed() == old(self).fed() + samples,
    {
        if samples == 0 {
            return false;
        }
        self.fed += samples;
        true
    }

    /// How much silence flushes the last of the text out of a model that takes
    /// `chunk` samples per step; none where it takes none.
    ///
    /// The model only decodes on a full chunk boundary, and there is no flush in
    /// its API. Padding with silence to the next boundary is what forces the tail
    /// out — without it the last word of every dictation is lost.
    #[must_use]
    pub fn finish(&self, chunk: usize) -> (r: Option<usize>)
        requires
            2 * chunk <= usize::MAX,
        ensures
            match r {
                Some(n) => chunk > 0 && n == padding(self.fed(), chunk as nat),
                None => chunk == 0,
            },
    {
        if chunk == 0 {
            return None;
        }
        let remainder: usize = self.fed % chunk;
        Some(
            if remainder == 0 {
                chunk
            } else {
                chunk - remainder + chunk
            },
        )
    }
}

/// The silence that follows `fed` samples.
pub open spec fn padding(fed: nat, chunk: nat) -> nat {
    if fed % chunk == 0 {
        chunk
    } else {
        (chunk - fed % chunk + chunk) as nat
    }
}

/// The padding ends on a chunk boundary, and holds at least one whole chunk of
/// silence after the boundary that completes the audio.
pub proof fn law_padding_flushes_the_tail(fed: nat, chunk: nat)
    requires
        chunk > 0,
    ensures
        (fed + padding(fed, chunk)) % chunk == 0,
        padding(fed, chunk) >= chunk,
        fed % chunk != 0 ==> padding(fed, chunk) > chunk,
{
    let q = (fed / chunk) as int;
    let rest = (fed % chunk) as int;
    vstd::arithmetic::div_mod::lemma_fundamental_div_mod(fed as int, chunk as int);
    let k: int = if rest == 0 {
        q + 1
    } else {
        q + 2
    };
    assert(fed + padding(fed, chunk) == chunk * k) by (nonlinear_arith)
        requires
            fed == chunk * q + rest,
            rest == 0 ==> padding(fed, chunk) == chunk && k == q + 1,
            rest != 0 ==> padding(fed, chunk) == chunk - rest + chunk && k == q + 2,
    ;
    vstd::arithmetic::div_mod::lemma_mod_multiples_basic(k, chunk as int);
    assert(k * chunk == chunk * k) by (nonlinear_arith);
}

/// The size of the steps a recording is fed in.
pub open spec fn step_size(chunk: nat) -> nat {
    if chunk == 0 {
        1
    } else {
        chunk
    }
}

/// The pieces of a recording: each is a whole step long but the last, which holds
/// what is left.
pub open spec fn is_split(pieces: Seq<(usize, usize)>, len: nat, chunk: nat) -> bool {
    &&& pieces.len() * step_size(chunk) < len + step_size(chunk)
    &&& pieces.len() * step_size(chunk) >= len
    &&& forall|i: int|
        0 <= i < pieces.len() ==> {
            let (from, to) = #[trigger] pieces[i];
            &&& from == i * step_size(chunk)
            &&& to == (if (i + 1) * step_size(chunk) <= len {
                (i + 1) * step_size(chunk)
            } else {
                len as int
            })
        }
}

/// The pieces in which to feed `len` samples to a model that takes `chunk` per step.
pub fn pieces(len: usize, chunk: usize) -> (r: Vec<(usize, usize)>)
    ensures
        is_split(r@, len as nat, chunk as nat),
{
    let step: usize = if chunk == 0 {
        1
    } else {
        chunk
    };
    let mut out: Vec<(usize, usize)> = Vec::new();
    let mut from: usize = 0;
    assert(0 * step == 0);
    while from < len
        invariant
            step == step_size(chunk as nat),
            step > 0,
            from <= len,
            from < len ==> from == out@.len() * step,
            from == len ==> out@.len() * step >= len && out@.len() * step < len + step,
            forall|i: int|
                0 <= i < out@.len() ==> {
                    let (a, b) = #[trigger] out@[i];
                    &&& a == i * step
                    &&& b == (if (i + 1) * step <= len {
                        (i + 1) * step
                    } else {
                        len as int
                    })
                },
        decreases len - from,
    {
        let to: usize = if len - from <= step {
            len
        } else {
            from + step
        };
        proof {
            let n = out@.len() as int;
            assert((n + 1) * step == n * step + step) by (nonlinear_arith);
        }
        out.push((from, to));
        from = to;
    }
    out
}

/// Feeding the pieces in order feeds the whole recording: the first begins where it
/// begins, each begins where the one before ends, and the last ends where it ends.
pub proof fn law_pieces_cover_the_recording(
    pieces: Seq<(usize, usize)>,
    len: nat,
    chunk: nat,
)
    requires
        is_split(pieces, len, chunk),
    ensures
        len > 0 ==> pieces.len() > 0 && pieces[0].0 == 0 && pieces.last().1 == len,
        len == 0 ==> pieces.len() == 0,
        forall|i: int| 0 <= i < pieces.len() - 1 ==> (#[trigger] pieces[i]).1 == pieces[i + 1].0,
{
    let step = step_size(chunk);
    let n = pieces.len() as int;
    assert(0 * step == 0);
    assert((n - 1) * step == n * step - step) by (nonlinear_arith);
    if len == 0 && n > 0 {
        assert(n * step >= step) by (nonlinear_arith)
            requires
                n >= 1,
                step >= 1,
        ;
    }
    assert forall|i: int| 0 <= i < n - 1 implies (#[trigger] pieces[i]).1 == pieces[i + 1].0 by {
        assert((i + 1) * step <= (n - 1) * step) by (nonlinear_arith)
            requires
                i + 1 <= n - 1,
                step >= 1,
        ;
    }
}

/// The texts one after another.
pub open spec fn concatenated(parts: Seq<Seq<char>>) -> Seq<char>
    decreases parts.len(),
{
    if parts.len() == 0 {
        Seq::empty()
    } else {
        concatenated(parts.drop_last()) + parts.last()
    }
}

/// What a streaming model made of a whole recording: what each piece and the flush
/// gave, put together, without white space around it.
pub fn transcribe_all(parts: &[String], elapsed: Span) -> (r: Transcript)
    ensures
        r.text@ == trim(concatenated(name_views(parts@)), Class::White),
        r.elapsed == elapsed,
{
    let ghost all = name_views(parts@);
    let mut text = String::new();
    for i in 0..parts.len()
        invariant
            all == name_views(parts@),
            text@ == concatenated(all.take(i as int)),
    {
        proof {
            assert(all.take(i + 1).drop_last() =~= all.take(i as int));
            assert(all.take(i + 1).last() == parts@[i as int]@);
        }
        push_text(&mut text, parts[i].as_str());
    }
    assert(all.take(all.len() as int) =~= all);
    Transcript::trimmed(text.as_str(), elapsed)
}

/// The padding is the least that does so.
pub proof fn law_padding_is_no_longer_than_it_must_be(fed: nat, chunk: nat, other: nat)
    requires
        chunk > 0,
        (fed + other) % chunk == 0,
        other >= chunk,
    ensures
        padding(fed, chunk) <= other,
        padding(fed, chunk) < 2 * chunk,
{
    let q = (fed / chunk) as int;
    let rest = (fed % chunk) as int;
    let c = chunk as int;
    vstd::arithmetic::div_mod::lemma_fundamental_div_mod(fed as int, c);
    vstd::arithmetic::div_mod::lemma_fundamental_div_mod((fed + other) as int, c);
    vstd::arithmetic::div_mod::lemma_mod_bound(fed as int, c);
    let k = (fed + other) as int / c;
    assert(padding(fed, chunk) <= other) by (nonlinear_arith)
        requires
            c > 0,
            chunk == c,
            fed == c * q + rest,
            0 <= rest < c,
            fed + other == c * k,
            other >= c,
            rest == 0 ==> padding(fed, chunk) == c,
            rest != 0 ==> padding(fed, chunk) == c - rest + c,
    {
        if rest != 0 {
            assert(c * k >= c * q + rest + c);
            assert(k > q + 1) by (nonlinear_arith)
                requires
                    c > 0,
                    rest > 0,
                    c * k >= c * q + rest + c,
            ;
            assert(c * k >= c * (q + 2)) by (nonlinear_arith)
                requires
                    c > 0,
                    k >= q + 2,
            ;
        }
    }
}

/// Each piece holds a whole step of audio, but for the last, which holds what is left.
pub proof fn law_pieces_are_whole_steps(pieces: Seq<(usize, usize)>, len: nat, chunk: nat, i: int)
    requires
        is_split(pieces, len, chunk),
        chunk > 0,
        0 <= i < pieces.len(),
    ensures
        pieces[i].0 < pieces[i].1,
        pieces[i].1 - pieces[i].0 <= chunk,
        i < pieces.len() - 1 ==> pieces[i].1 - pieces[i].0 == chunk,
{
    let n = pieces.len() as int;
    let c = chunk as int;
    assert((i + 1) * c == i * c + c) by (nonlinear_arith);
    assert(i * c <= (n - 1) * c && (n - 1) * c == n * c - c) by (nonlinear_arith)
        requires
            i <= n - 1,
            c > 0,
    ;
    if i < n - 1 {
        assert((i + 1) * c <= (n - 1) * c) by (nonlinear_arith)
            requires
                i + 1 <= n - 1,
                c > 0,
        ;
    }
}

/// One more part stands behind the others.
pub proof fn law_parts_stand_in_order(parts: Seq<Seq<char>>, part: Seq<char>)
    ensures
        concatenated(Seq::empty()) == Seq::<char>::empty(),
        concatenated(parts.push(part)) == concatenated(parts) + part,
{
    assert(parts.push(part).drop_last() =~= parts);
}

/// A streaming model runs on the GPU exactly where one can be used, this build has it,
/// and the CPU was not asked for.
pub proof fn law_where_a_stream_runs(
    gpu_usable: bool,
    accelerator: Accelerator,
    cuda_built: bool,
)
    ensures
        stream_provider(gpu_usable, accelerator, cuda_built) == Provider::Cuda <==> gpu_usable
            && cuda_built && accelerator != Accelerator::Cpu,
        stream_provider(gpu_usable, accelerator, cuda_built) != Provider::TensorRt,
{
}

} // verus!
