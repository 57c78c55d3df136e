//! What a recorder hands over, and one that plays back a fixture.

use crate::audio::{duration_nanos, duration_of, Capture};
use crate::time::Span;
use vstd::prelude::*;

verus! {

/// Audio handed to a transcriber: mono, 16 kHz.
#[derive(Clone, Debug)]
pub struct Recorded<S> {
    pub samples: Vec<S>,
    pub trimmed: usize,
    pub duration: Span,
}

impl<S> Recorded<S> {
    #[must_use]
    pub fn is_empty(&self) -> (r: bool)
        ensures
            r == (self.samples@.len() == 0),
    {
        self.samples.len() == 0
    }
}

impl<S> From<Capture<S>> for Recorded<S> {
    fn from(capture: Capture<S>) -> (r: Self) {
        Recorded {
            samples: capture.samples,
            trimmed: capture.trimmed,
            duration: capture.duration,
        }
    }
}

impl<S> vstd::std_specs::convert::FromSpecImpl<Capture<S>> for Recorded<S> {
    open spec fn obeys_from_spec() -> bool {
        true
    }

    open spec fn from_spec(capture: Capture<S>) -> Self {
        Recorded {
            samples: capture.samples,
            trimmed: capture.trimmed,
            duration: capture.duration,
        }
    }
}

/// What a fixture has been through.
#[verifier::ext_equal]
pub struct FixtureView<S> {
    pub audio: Seq<S>,
    pub recording: bool,
    pub begins: nat,
    pub discards: nat,
    pub fail: Option<Seq<char>>,
}

impl<S> FixtureView<S> {
    /// A recorder that plays back `audio` and has not been asked for anything yet.
    pub open spec fn of(audio: Seq<S>) -> Self {
        FixtureView { audio, recording: false, begins: 0, discards: 0, fail: None }
    }

    /// `recorded` is all of the audio, and lasts as long as its samples do.
    pub open spec fn plays(self, recorded: Recorded<S>) -> bool {
        &&& recorded.samples@ == self.audio
        &&& recorded.trimmed == 0
        &&& recorded.duration.valid()
        &&& recorded.duration.total() == duration_nanos(self.audio.len())
    }
}

/// A recorder that returns fixed audio, for driving the loop in tests.
#[derive(Clone, Debug)]
pub struct Fixture<S> {
    audio: Vec<S>,
    recording: bool,
    pub begins: usize,
    pub discards: usize,
    fail: Option<String>,
}

impl<S> View for Fixture<S> {
    type V = FixtureView<S>;

    closed spec fn view(&self) -> FixtureView<S> {
        FixtureView {
            audio: self.audio@,
            recording: self.recording,
            begins: self.begins as nat,
            discards: self.discards as nat,
            fail: match self.fail {
                Some(reason) => Some(reason@),
                None => None,
            },
        }
    }
}

impl<S> Default for Fixture<S> {
    fn default() -> (r: Self)
        ensures
            r@ == FixtureView::<S>::of(Seq::empty()),
    {
        Fixture { audio: Vec::new(), recording: false, begins: 0, discards: 0, fail: None }
    }
}

impl<S: Copy> Fixture<S> {
    /// A recorder that plays back `audio`.
    #[must_use]
    pub fn of(audio: Vec<S>) -> (r: Self)
        ensures
            r@ == FixtureView::of(audio@),
    {
        Fixture { audio, recording: false, begins: 0, discards: 0, fail: None }
    }

    /// The recorder, failing whenever a recording is asked of it.
    #[must_use]
    pub fn failing(self, reason: &str) -> (r: Self)
        ensures
            r@ == (FixtureView { fail: Some(reason@), ..self@ }),
    {
        Fixture {
            audio: self.audio,
            recording: self.recording,
            begins: self.begins,
            discards: self.discards,
            fail: Some(reason.to_owned()),
        }
    }

    #[must_use]
    pub fn is_recording(&self) -> (r: bool)
        ensures
            r == self@.recording,
    {
        self.recording
    }

    fn played(&self) -> (r: Recorded<S>)
        ensures
            self@.plays(r),
    {
        let mut samples: Vec<S> = Vec::new();
        for i in 0..self.audio.len()
            invariant
                samples@ == self.audio@.take(i as int),
        {
            samples.push(self.audio[i]);
            assert(self.audio@.take(i + 1) =~= self.audio@.take(i as int).push(
                self.audio@[i as int],
            ));
        }
        assert(self.audio@.take(self.audio@.len() as int) =~= self.audio@);
        Recorded { samples, trimmed: 0, duration: duration_of(self.audio.len()) }
    }

    /// The audio so far, while recording.
    #[must_use]
    pub fn snapshot(&self) -> (r: Option<Recorded<S>>)
        ensures
            match r {
                Some(recorded) => self@.recording && self@.plays(recorded),
                None => !self@.recording,
            },
    {
        if self.recording {
            Some(self.played())
        } else {
            None
        }
    }

    pub fn begin(&mut self)
        requires
            old(self)@.begins < usize::MAX,
        ensures
            final(self)@ == (FixtureView {
                begins: old(self)@.begins + 1,
                recording: true,
                ..old(self)@
            }),
    {
        self.begins += 1;
        self.recording = true;
    }

    pub fn finish(&mut self) -> (r: Result<Recorded<S>, String>)
        ensures
            final(self)@ == (FixtureView { recording: false, ..old(self)@ }),
            match r {
                Ok(recorded) => old(self)@.fail is None && old(self)@.plays(recorded),
                Err(reason) => old(self)@.fail == Some(reason@),
            },
    {
        self.recording = false;
        if let Some(reason) = &self.fail {
            return Err(reason.clone());
        }
        Ok(self.played())
    }

    pub fn discard(&mut self)
        requires
            old(self)@.discards < usize::MAX,
        ensures
            final(self)@ == (FixtureView {
                discards: old(self)@.discards + 1,
                recording: false,
                ..old(self)@
            }),
    {
        self.discards += 1;
        self.recording = false;
    }
}

/// A fixture plays all of its audio, from the first sample to the last, and says that
/// nothing was trimmed and how long that lasts. A new one has not been asked for it.
pub proof fn law_a_fixture_plays_all_of_its_audio<S>(fixture: FixtureView<S>, recorded: Recorded<S>)
    requires
        fixture.plays(recorded),
    ensures
        recorded.samples@.len() == fixture.audio.len(),
        forall|i: int|
            0 <= i < fixture.audio.len() ==> #[trigger] recorded.samples@[i] == fixture.audio[i],
        recorded.trimmed == 0,
        recorded.duration.total() == duration_nanos(fixture.audio.len()),
        FixtureView::of(fixture.audio) == (FixtureView {
            audio: fixture.audio,
            recording: false,
            begins: 0,
            discards: 0,
            fail: None,
        }),
{
}

} // verus!
