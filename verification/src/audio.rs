//! Recording shaped for push-to-talk dictation.
//!
//! The stream is opened once and never stopped. Starting a capture only changes
//! which samples are kept, which removes device start-up — tens of milliseconds
//! on ALSA, more on Bluetooth — from the path between pressing the key and
//! speaking, and lets us keep a rolling pre-roll so the first syllable survives
//! a user who starts talking before the key is fully down.
//!
//! Everything here works on samples of any kind.

use crate::chars::{chars_of, contains_text, has_text, push_text, same};
use crate::config::TARGET_SAMPLE_RATE;
use crate::order::name_views;
use crate::outside::{lowercase, quoted, to_lowercase, to_quoted};
use crate::single::{exponent, lemma_power_order, nearest_whole, scaled_round, significand, whole, Single};
use crate::time::{Span, SECOND};
use std::collections::VecDeque;
use vstd::arithmetic::power2::{lemma2_to64, lemma2_to64_rest, pow2};
use vstd::prelude::*;

verus! {

#[derive(Clone, Debug, PartialEq, Eq)]
pub enum AudioError {
    NoDevice(String),
    Device(String),
    Resample(String),
}

impl AudioError {
    /// What the error says.
    pub open spec fn says(self) -> Seq<char> {
        match self {
            AudioError::NoDevice(name) => if name@.len() == 0 {
                "no input device found"@
            } else {
                "no input device found matching "@ + quoted(name@)
            },
            AudioError::Device(reason) => "audio device: "@ + reason@,
            AudioError::Resample(reason) => "resample: "@ + reason@,
        }
    }

    /// What the error says.
    pub fn message(&self) -> (r: String)
        ensures
            r@ == self.says(),
    {
        let mut out = String::new();
        match self {
            AudioError::NoDevice(name) => {
                push_text(&mut out, "no input device found");
                if name.as_str().unicode_len() > 0 {
                    push_text(&mut out, " matching ");
                    push_text(&mut out, to_quoted(name.as_str()).as_str());
                }
                proof {
                    reveal_strlit("no input device found");
                    reveal_strlit(" matching ");
                    reveal_strlit("no input device found matching ");
                    assert("no input device found"@ + " matching "@
                        =~= "no input device found matching "@);
                }
            },
            AudioError::Device(reason) => {
                push_text(&mut out, "audio device: ");
                push_text(&mut out, reason.as_str());
            },
            AudioError::Resample(reason) => {
                push_text(&mut out, "resample: ");
                push_text(&mut out, reason.as_str());
            },
        }
        assert(out@ =~= self.says());
        out
    }
}

/// How long `samples` samples last at the target rate: the quotient in single
/// precision, to the nearest nanosecond.
pub open spec fn duration_nanos(samples: nat) -> nat {
    let n = whole(samples);
    let rate = TARGET_SAMPLE_RATE as nat;
    scaled_round(significand(n, rate), exponent(n, rate), SECOND as nat)
}

/// How long `samples` samples last at the target rate.
pub fn duration_of(samples: usize) -> (r: Span)
    ensures
        r.valid(),
        r.total() == duration_nanos(samples as nat),
{
    let n: u128 = nearest_whole(samples as u64);
    let s = Single::ratio(n, TARGET_SAMPLE_RATE as u128);
    proof {
        lemma2_to64();
        lemma2_to64_rest();
        if s.exp > 0 {
            assert(pow2(s.exp as nat) <= pow2(29)) by (nonlinear_arith)
                requires
                    16_000 * pow2(s.exp as nat) * 0x80_0000 <= n,
                    n <= 0x1_ffff_ffff_ffff_fffe,
                    pow2(29) == 0x2000_0000,
                    pow2(s.exp as nat) >= 0,
            ;
            lemma_power_order(s.exp as nat, 29);
        }
    }
    let nanos: u128 = s.round_times(SECOND);
    proof {
        lemma_scaled_round_bound(s.mant as nat, s.exp as int);
    }
    Span::from_nanos(nanos)
}

proof fn lemma_scaled_round_bound(m: nat, e: int)
    requires
        m <= 0x100_0000,
        -10_000 < e <= 29,
    ensures
        scaled_round(m, e, SECOND as nat) < (u64::MAX + 1) * SECOND,
{
    lemma2_to64();
    lemma2_to64_rest();
    if e >= 0 {
        if e < 29 {
            vstd::arithmetic::power2::lemma_pow2_strictly_increases(e as nat, 29);
        }
        assert(m * pow2(e as nat) * SECOND <= 0x100_0000 * 0x2000_0000 * SECOND) by (nonlinear_arith)
            requires
                m <= 0x100_0000,
                pow2(e as nat) <= 0x2000_0000,
        ;
    } else {
        let d = pow2((-e) as nat);
        vstd::arithmetic::power2::lemma_pow2_pos((-e) as nat);
        assert((m * SECOND) / d as int <= m * SECOND) by (nonlinear_arith)
            requires
                d >= 1,
                m >= 0,
                SECOND >= 0,
        ;
        assert(m * SECOND <= 0x100_0000 * SECOND) by (nonlinear_arith)
            requires
                m <= 0x100_0000,
        ;
    }
}

/// Audio ready for a transcriber: mono, 16 kHz, silence trimmed.
#[derive(Clone, Debug)]
pub struct Capture<S> {
    pub samples: Vec<S>,
    /// Samples the voice-activity pass removed, for latency accounting.
    pub trimmed: usize,
    pub duration: Span,
}

impl<S> Capture<S> {
    #[must_use]
    pub fn is_empty(&self) -> (r: bool)
        ensures
            r == (self.samples@.len() == 0),
    {
        self.samples.len() == 0
    }
}

impl<S: Copy> Capture<S> {
    /// The samples from `start` up to `end`, with how many were left out and how
    /// long the rest lasts.
    pub fn trimmed_to(resampled: &[S], start: usize, end: usize) -> (r: Self)
        requires
            start <= end <= resampled@.len(),
        ensures
            r.samples@ == resampled@.subrange(start as int, end as int),
            r.trimmed == resampled@.len() - (end - start),
            r.duration.valid(),
            r.duration.total() == duration_nanos((end - start) as nat),
    {
        let full: usize = resampled.len();
        let mut samples: Vec<S> = Vec::new();
        for i in start..end
            invariant
                start <= i <= end <= resampled@.len(),
                samples@ == resampled@.subrange(start as int, i as int),
        {
            samples.push(resampled[i]);
            assert(resampled@.subrange(start as int, i + 1) =~= resampled@.subrange(
                start as int,
                i as int,
            ).push(resampled@[i as int]));
        }
        let duration = duration_of(samples.len());
        Capture { trimmed: full - samples.len(), samples, duration }
    }

    /// All of the samples, as a capture from which nothing was removed.
    ///
    /// This is what live text is made from. Trimming is a latency optimisation for
    /// the final pass, and applying it to a partial would make the text jump
    /// around as the trim boundary moved.
    pub fn whole(resampled: Vec<S>) -> (r: Self)
        ensures
            r.samples@ == resampled@,
            r.trimmed == 0,
            r.duration.valid(),
            r.duration.total() == duration_nanos(resampled@.len()),
    {
        let duration = duration_of(resampled.len());
        Capture { samples: resampled, trimmed: 0, duration }
    }
}

/// The last `n` elements of `s`, or all of it where there are fewer.
pub open spec fn last_of<S>(s: Seq<S>, n: nat) -> Seq<S> {
    if s.len() <= n {
        s
    } else {
        s.skip(s.len() - n)
    }
}

/// What a microphone holds on to.
#[verifier::ext_equal]
pub struct SharedView<S> {
    pub preroll: Seq<S>,
    pub capacity: nat,
    pub recording: Option<Seq<S>>,
}

impl<S> SharedView<S> {
    pub open spec fn valid(self) -> bool {
        self.preroll.len() <= self.capacity
    }

    /// More samples come in: a recording keeps them all, and otherwise the
    /// pre-roll keeps the most recent.
    pub open spec fn pushed(self, mono: Seq<S>) -> Self {
        match self.recording {
            Some(recording) => SharedView { recording: Some(recording + mono), ..self },
            None => SharedView { preroll: last_of(self.preroll + mono, self.capacity), ..self },
        }
    }

    /// More samples come in, chunk by chunk.
    pub open spec fn pushed_all(self, chunks: Seq<Seq<S>>) -> Self
        decreases chunks.len(),
    {
        if chunks.len() == 0 {
            self
        } else {
            self.pushed_all(chunks.drop_last()).pushed(chunks.last())
        }
    }

    /// A recording begins with the pre-roll.
    pub open spec fn begun(self) -> Self {
        SharedView { recording: Some(self.preroll), ..self }
    }
}

/// The chunks one after another.
pub open spec fn together<S>(chunks: Seq<Seq<S>>) -> Seq<S>
    decreases chunks.len(),
{
    if chunks.len() == 0 {
        Seq::empty()
    } else {
        together(chunks.drop_last()) + chunks.last()
    }
}

/// While nothing is recorded the pre-roll holds the most recent audio, however it
/// was cut into chunks.
pub proof fn law_the_preroll_is_the_most_recent_audio<S>(
    start: SharedView<S>,
    chunks: Seq<Seq<S>>,
)
    requires
        start.valid(),
        start.recording is None,
    ensures
        start.pushed_all(chunks) == (SharedView {
            preroll: last_of(start.preroll + together(chunks), start.capacity),
            ..start
        }),
    decreases chunks.len(),
{
    if chunks.len() == 0 {
        assert(start.preroll + together(chunks) =~= start.preroll);
    } else {
        law_the_preroll_is_the_most_recent_audio(start, chunks.drop_last());
        let so_far = start.preroll + together(chunks.drop_last());
        let n = start.capacity;
        assert(so_far + chunks.last() =~= start.preroll + together(chunks));
        assert(last_of(last_of(so_far, n) + chunks.last(), n) =~= last_of(
            so_far + chunks.last(),
            n,
        ));
    }
}

/// A recording loses nothing: it is the most recent audio from before it began, as
/// far as the pre-roll reaches, and then everything that came in since.
pub proof fn law_a_recording_loses_nothing<S>(
    start: SharedView<S>,
    before: Seq<Seq<S>>,
    after: Seq<Seq<S>>,
)
    requires
        start.valid(),
        start.recording is None,
    ensures
        start.pushed_all(before).begun().pushed_all(after).recording == Some(
            last_of(start.preroll + together(before), start.capacity) + together(after),
        ),
    decreases after.len(),
{
    law_the_preroll_is_the_most_recent_audio(start, before);
    let kept = last_of(start.preroll + together(before), start.capacity);
    if after.len() == 0 {
        assert(kept + together(after) =~= kept);
    } else {
        law_a_recording_loses_nothing(start, before, after.drop_last());
        assert(kept + together(after) =~= kept + together(after.drop_last()) + after.last());
    }
}

/// The samples a microphone holds: a rolling pre-roll, and what is being recorded.
#[derive(Debug)]
pub struct Shared<S> {
    preroll: VecDeque<S>,
    preroll_capacity: usize,
    recording: Option<Vec<S>>,
}

impl<S> View for Shared<S> {
    type V = SharedView<S>;

    closed spec fn view(&self) -> SharedView<S> {
        SharedView {
            preroll: self.preroll@,
            capacity: self.preroll_capacity as nat,
            recording: match self.recording {
                Some(r) => Some(r@),
                None => None,
            },
        }
    }
}

impl<S> Shared<S> {
    #[verifier::type_invariant]
    spec fn inv(self) -> bool {
        self.preroll@.len() <= self.preroll_capacity
    }
}

impl<S: Copy> Shared<S> {
    /// Nothing recorded and nothing kept, with room for `preroll_capacity` samples.
    pub fn new(preroll_capacity: usize) -> (r: Self)
        ensures
            r@ == (SharedView {
                preroll: Seq::<S>::empty(),
                capacity: preroll_capacity as nat,
                recording: None,
            }),
            r@.valid(),
    {
        Shared { preroll: VecDeque::new(), preroll_capacity, recording: None }
    }

    /// Takes in `mono`.
    pub fn push(&mut self, mono: &[S])
        ensures
            final(self)@ == old(self)@.pushed(mono@),
            final(self)@.valid(),
    {
        proof {
            use_type_invariant(&*self);
        }
        let mut held: Option<Vec<S>> = None;
        core::mem::swap(&mut held, &mut self.recording);
        match held {
            Some(kept) => {
                let mut recording = kept;
                let ghost before = recording@;
                for i in 0..mono.len()
                    invariant
                        recording@ == before + mono@.take(i as int),
                {
                    recording.push(mono[i]);
                    assert(before + mono@.take(i + 1) =~= (before + mono@.take(i as int)).push(
                        mono@[i as int],
                    ));
                }
                assert(mono@.take(mono@.len() as int) =~= mono@);
                self.recording = Some(recording);
            },
            None => {
                let capacity: usize = self.preroll_capacity;
                let mut preroll: VecDeque<S> = VecDeque::new();
                core::mem::swap(&mut preroll, &mut self.preroll);
                let ghost before = preroll@;
                assert(before + mono@.take(0) =~= before);
                for i in 0..mono.len()
                    invariant
                        before.len() <= capacity,
                        preroll@ == last_of(before + mono@.take(i as int), capacity as nat),
                {
                    let ghost seen = before + mono@.take(i as int);
                    assert(before + mono@.take(i + 1) =~= seen.push(mono@[i as int]));
                    if capacity > 0 {
                        if preroll.len() == capacity {
                            let _ = preroll.pop_front();
                        }
                        preroll.push_back(mono[i]);
                    }
                    assert(preroll@ =~= last_of(seen.push(mono@[i as int]), capacity as nat));
                }
                assert(mono@.take(mono@.len() as int) =~= mono@);
                self.preroll = preroll;
            },
        }
    }

    /// Begins keeping samples, seeded with the pre-roll already in hand.
    pub fn begin(&mut self)
        ensures
            final(self)@ == old(self)@.begun(),
            final(self)@.valid(),
    {
        proof {
            use_type_invariant(&*self);
        }
        let mut recording: Vec<S> = Vec::new();
        for i in 0..self.preroll.len()
            invariant
                recording@ == self.preroll@.take(i as int),
        {
            recording.push(self.preroll[i]);
            assert(self.preroll@.take(i + 1) =~= self.preroll@.take(i as int).push(
                self.preroll@[i as int],
            ));
        }
        assert(self.preroll@.take(self.preroll@.len() as int) =~= self.preroll@);
        self.recording = Some(recording);
    }

    /// Stops keeping samples and hands back what was kept, which is nothing where
    /// nothing was being recorded.
    pub fn finish(&mut self) -> (r: Vec<S>)
        ensures
            final(self)@ == (SharedView { recording: None, ..old(self)@ }),
            r@ == (match old(self)@.recording {
                Some(recording) => recording,
                None => Seq::empty(),
            }),
            final(self)@.valid(),
    {
        proof {
            use_type_invariant(&*self);
        }
        let mut held: Option<Vec<S>> = None;
        core::mem::swap(&mut held, &mut self.recording);
        match held {
            Some(recording) => recording,
            None => Vec::new(),
        }
    }

    /// What has been kept so far, without ending the recording.
    pub fn snapshot(&self) -> (r: Option<Vec<S>>)
        ensures
            match r {
                Some(samples) => self@.recording == Some(samples@),
                None => self@.recording is None,
            },
    {
        match &self.recording {
            Some(recording) => {
                let mut samples: Vec<S> = Vec::new();
                for i in 0..recording.len()
                    invariant
                        samples@ == recording@.take(i as int),
                {
                    samples.push(recording[i]);
                    assert(recording@.take(i + 1) =~= recording@.take(i as int).push(
                        recording@[i as int],
                    ));
                }
                assert(recording@.take(recording@.len() as int) =~= recording@);
                Some(samples)
            },
            None => None,
        }
    }

    /// Drops whatever is being recorded.
    pub fn discard(&mut self)
        ensures
            final(self)@ == (SharedView { recording: None, ..old(self)@ }),
            final(self)@.valid(),
    {
        proof {
            use_type_invariant(&*self);
        }
        self.recording = None;
    }
}

/// How many samples of pre-roll make `preroll_ms` milliseconds at `rate`.
pub fn preroll_capacity(rate: u32, preroll_ms: u32) -> (r: u64)
    ensures
        r == rate as nat * preroll_ms as nat / 1000,
{
    assert(rate * preroll_ms <= 0xffff_ffff * 0xffff_ffff) by (nonlinear_arith)
        requires
            rate <= 0xffff_ffff,
            preroll_ms <= 0xffff_ffff,
    ;
    (rate as u64) * (preroll_ms as u64) / 1000
}

pub open spec fn name_of(name: Option<String>) -> Option<Seq<char>> {
    match name {
        Some(n) => Some(n@),
        None => None,
    }
}

/// The first of `names` that holds `wanted`.
pub open spec fn first_holding(names: Seq<Option<Seq<char>>>, wanted: Seq<char>) -> Option<nat>
    decreases names.len(),
{
    if names.len() == 0 {
        None
    } else {
        match first_holding(names.drop_last(), wanted) {
            Some(i) => Some(i),
            None => match names.last() {
                Some(name) if has_text(name, wanted) => Some((names.len() - 1) as nat),
                _ => None,
            },
        }
    }
}

pub open spec fn names_of(names: Seq<Option<String>>) -> Seq<Option<Seq<char>>> {
    names.map_values(|n: Option<String>| name_of(n))
}

/// The first of `names` that holds `wanted`; a device without a name holds nothing.
pub fn first_match(names: &[Option<String>], wanted: &str) -> (r: Option<usize>)
    ensures
        match r {
            Some(i) => first_holding(names_of(names@), wanted@) == Some(i as nat),
            None => first_holding(names_of(names@), wanted@) is None,
        },
        r matches Some(i) ==> i < names@.len(),
{
    let needle = chars_of(wanted);
    let ghost all = names_of(names@);
    for i in 0..names.len()
        invariant
            needle@ == wanted@,
            all == names_of(names@),
            first_holding(all.take(i as int), wanted@) is None,
    {
        let ghost front = all.take(i + 1);
        proof {
            assert(front.drop_last() =~= all.take(i as int));
            assert(front.last() == name_of(names@[i as int]));
        }
        if let Some(name) = &names[i] {
            if contains_text(chars_of(name.as_str()).as_slice(), needle.as_slice()) {
                proof {
                    lemma_first_holding(all, wanted@, i + 1);
                }
                return Some(i);
            }
        }
    }
    assert(all.take(all.len() as int) =~= all);
    None
}

proof fn lemma_first_holding(names: Seq<Option<Seq<char>>>, wanted: Seq<char>, k: int)
    requires
        0 <= k <= names.len(),
        first_holding(names.take(k), wanted) is Some,
    ensures
        first_holding(names, wanted) == first_holding(names.take(k), wanted),
    decreases names.len(),
{
    if k < names.len() {
        assert(names.drop_last().take(k) =~= names.take(k));
        lemma_first_holding(names.drop_last(), wanted, k);
    } else {
        assert(names.take(k) =~= names);
    }
}

pub open spec fn lowercase_names(names: Seq<Option<String>>) -> Seq<Option<Seq<char>>> {
    names.map_values(
        |n: Option<String>|
            match n {
                Some(s) => Some(lowercase(s@)),
                None => None,
            },
    )
}

/// The first device whose name holds `wanted`, whatever the case of either.
pub fn find_device(names: &[Option<String>], wanted: &str) -> (r: Option<usize>)
    ensures
        match r {
            Some(i) => first_holding(lowercase_names(names@), lowercase(wanted@)) == Some(i as nat),
            None => first_holding(lowercase_names(names@), lowercase(wanted@)) is None,
        },
        r matches Some(i) ==> i < names@.len(),
{
    let mut lowered: Vec<Option<String>> = Vec::new();
    for i in 0..names.len()
        invariant
            lowered@.len() == i,
            names_of(lowered@) == lowercase_names(names@).take(i as int),
    {
        let ghost before = lowered@;
        let name = match &names[i] {
            Some(n) => Some(to_lowercase(n.as_str())),
            None => None,
        };
        lowered.push(name);
        proof {
            assert(names_of(lowered@) =~= names_of(before).push(name_of(name)));
            assert(lowercase_names(names@).take(i + 1) =~= lowercase_names(names@).take(
                i as int,
            ).push(lowercase_names(names@)[i as int]));
        }
    }
    assert(lowercase_names(names@).take(names@.len() as int) =~= lowercase_names(names@));
    first_match(lowered.as_slice(), to_lowercase(wanted).as_str())
}

/// Which input device to open.
#[derive(Clone, Copy, Debug, PartialEq, Eq)]
pub enum Chosen {
    Default,
    Listed(usize),
}

/// Picks the input device: the system default, or the first whose name holds what
/// the user asked for.
pub fn choose_device(
    wanted: &Option<String>,
    names: &[Option<String>],
    has_default: bool,
) -> (r: Result<Chosen, AudioError>)
    ensures
        match (wanted, r) {
            (None, Ok(chosen)) => has_default && chosen == Chosen::Default,
            (None, Err(e)) => !has_default && (e matches AudioError::NoDevice(name) && name@.len()
                == 0),
            (Some(w), Ok(chosen)) => chosen matches Chosen::Listed(i) && first_holding(
                lowercase_names(names@),
                lowercase(w@),
            ) == Some(i as nat) && i < names@.len(),
            (Some(w), Err(e)) => first_holding(lowercase_names(names@), lowercase(w@)) is None && (
            e matches AudioError::NoDevice(name) && name@ == w@),
        },
{
    match wanted {
        Some(w) => match find_device(names, w.as_str()) {
            Some(i) => Ok(Chosen::Listed(i)),
            None => Err(AudioError::NoDevice(w.clone())),
        },
        None => if has_default {
            Ok(Chosen::Default)
        } else {
            Err(AudioError::NoDevice(String::new()))
        },
    }
}

/// How a device is listed.
pub open spec fn listed(name: Seq<char>, default: Option<Seq<char>>) -> Seq<char> {
    if default == Some(name) {
        name + " (default)"@
    } else {
        name
    }
}

/// How the devices that have names are listed, in order.
pub open spec fn listing(
    names: Seq<Option<Seq<char>>>,
    default: Option<Seq<char>>,
) -> Seq<Seq<char>>
    decreases names.len(),
{
    if names.len() == 0 {
        Seq::empty()
    } else {
        match names.last() {
            Some(name) => listing(names.drop_last(), default).push(listed(name, default)),
            None => listing(names.drop_last(), default),
        }
    }
}

/// Every input device the host can see, for `murmur devices`.
pub fn list_devices(names: &[Option<String>], default: &Option<String>) -> (r: Vec<String>)
    ensures
        name_views(r@) == listing(names_of(names@), name_of(*default)),
{
    let ghost all = names_of(names@);
    let mut out: Vec<String> = Vec::new();
    assert(name_views(out@) =~= listing(all.take(0), name_of(*default)));
    for i in 0..names.len()
        invariant
            all == names_of(names@),
            name_views(out@) == listing(all.take(i as int), name_of(*default)),
    {
        proof {
            assert(all.take(i + 1).drop_last() =~= all.take(i as int));
            assert(all.take(i + 1).last() == name_of(names@[i as int]));
        }
        if let Some(name) = &names[i] {
            let is_default = match default {
                Some(d) => same(chars_of(d.as_str()).as_slice(), chars_of(name.as_str()).as_slice()),
                None => false,
            };
            let mut line = name.clone();
            if is_default {
                push_text(&mut line, " (default)");
            }
            let ghost before = out@;
            out.push(line);
            assert(name_views(out@) =~= name_views(before).push(line@));
        }
    }
    assert(all.take(all.len() as int) =~= all);
    out
}

} // verus!
