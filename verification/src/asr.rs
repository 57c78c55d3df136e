//! Speech to text: what a transcriber gives back.

use crate::chars::{chars_of, push_text, string_of, trim, trimmed, Class};
use crate::single::Single;
use crate::time::Span;
use vstd::prelude::*;

verus! {

#[derive(Clone, Debug, PartialEq, Eq)]
pub enum AsrError {
    ModelMissing(String),
    Load(String),
    Inference(String),
}

/// What an error says.
#[verifier::ext_equal]
pub enum AsrErrorView {
    ModelMissing(Seq<char>),
    Load(Seq<char>),
    Inference(Seq<char>),
}

impl View for AsrError {
    type V = AsrErrorView;

    open spec fn view(&self) -> AsrErrorView {
        match self {
            AsrError::ModelMissing(s) => AsrErrorView::ModelMissing(s@),
            AsrError::Load(s) => AsrErrorView::Load(s@),
            AsrError::Inference(s) => AsrErrorView::Inference(s@),
        }
    }
}

impl AsrErrorView {
    pub open spec fn says(self) -> Seq<char> {
        match self {
            AsrErrorView::ModelMissing(dir) => "model not found at "@ + dir
                + "; run `murmur models pull` to fetch it"@,
            AsrErrorView::Load(reason) => "loading model: "@ + reason,
            AsrErrorView::Inference(reason) => "transcribing: "@ + reason,
        }
    }
}

impl AsrError {
    /// What the error says.
    pub fn message(&self) -> (r: String)
        ensures
            r@ == self@.says(),
    {
        let mut out = String::new();
        match self {
            AsrError::ModelMissing(dir) => {
                push_text(&mut out, "model not found at ");
                push_text(&mut out, dir.as_str());
                push_text(&mut out, "; run `murmur models pull` to fetch it");
            },
            AsrError::Load(reason) => {
                push_text(&mut out, "loading model: ");
                push_text(&mut out, reason.as_str());
            },
            AsrError::Inference(reason) => {
                push_text(&mut out, "transcribing: ");
                push_text(&mut out, reason.as_str());
            },
        }
        assert(out@ =~= self@.says());
        out
    }
}

/// What a transcriber returns, with enough detail to explain a slow dictation.
#[derive(Clone, Debug, PartialEq, Eq)]
pub struct Transcript {
    pub text: String,
    /// Wall-clock time spent inside the model.
    pub elapsed: Span,
}

impl Transcript {
    #[must_use]
    pub fn new(text: &str, elapsed: Span) -> (r: Self)
        ensures
            r.text@ == text@,
            r.elapsed == elapsed,
    {
        Transcript { text: text.to_owned(), elapsed }
    }

    /// What a model put out, without the white space around it.
    #[must_use]
    pub fn trimmed(text: &str, elapsed: Span) -> (r: Self)
        ensures
            r.text@ == trim(text@, Class::White),
            r.elapsed == elapsed,
    {
        let text = string_of(trimmed(chars_of(text).as_slice(), Class::White).as_slice());
        Transcript { text, elapsed }
    }

    /// Audio seconds per second of compute, and infinity where none was spent.
    pub open spec fn factor(self, audio: Span) -> Single {
        let seconds = self.elapsed.seconds();
        if seconds.mant == 0 {
            Single::infinity()
        } else {
            audio.seconds().over_spec(seconds)
        }
    }

    /// Audio seconds processed per second of compute.
    ///
    /// Below 1.0 the engine cannot keep up with speech; Parakeet on a modern GPU
    /// is in the hundreds, which is what makes the release-to-text budget viable.
    #[must_use]
    pub fn realtime_factor(&self, audio: Span) -> (r: Single)
        ensures
            r == self.factor(audio),
    {
        let seconds = self.elapsed.as_secs();
        if seconds.mant == 0 {
            Single { mant: 1, exp: 128 }
        } else {
            audio.as_secs().over(seconds)
        }
    }
}

/// How fast a transcript came: the audio's seconds over those it took, and without
/// bound where it took none.
pub proof fn law_how_fast_a_transcript_came(transcript: Transcript, audio: Span)
    ensures
        transcript.elapsed.seconds().mant > 0 ==> transcript.factor(audio)
            == audio.seconds().over_spec(transcript.elapsed.seconds()),
        transcript.elapsed.seconds().mant == 0 ==> transcript.factor(audio) == Single::infinity(),
{
}

/// What each error says, with its cause.
pub proof fn law_errors_name_their_cause(cause: Seq<char>)
    ensures
        AsrErrorView::ModelMissing(cause).says() == "model not found at "@ + cause
            + "; run `murmur models pull` to fetch it"@,
        AsrErrorView::Load(cause).says() == "loading model: "@ + cause,
        AsrErrorView::Inference(cause).says() == "transcribing: "@ + cause,
{
}

} // verus!
