//! Starting to listen: which transcriber to use, and what the user is told.

use crate::chars::{decimal, push_decimal, push_text};
use crate::config::{Accelerator, AsrEngine};
use crate::order::name_views;
use crate::outside::{quoted, to_quoted};
use vstd::prelude::*;

verus! {

/// What to transcribe with.
#[derive(Clone, Copy, Debug, PartialEq, Eq, Structural)]
pub enum Backend {
    /// The scripted transcriber.
    Mock,
    /// Parakeet, from the configured model directory.
    Parakeet,
}

/// How long the scripted transcriber takes when listening, in milliseconds.
pub const MOCK_DELAY_MS: u64 = 40;

pub open spec fn no_backend(engine: AsrEngine) -> Seq<char> {
    if engine == AsrEngine::Nemotron {
        "the streaming engine does not fit the batch Transcriber trait; use `murmur transcribe --stream` while the daemon integration lands"@
    } else {
        "the whisper engine is not wired up yet; set asr.engine = \"parakeet\""@
    }
}

/// Load the transcriber named by the config, or the scripted one where it is forced.
pub fn transcriber(engine: AsrEngine, force_mock: bool) -> (r: Result<Backend, &'static str>)
    ensures
        match r {
            Ok(Backend::Mock) => force_mock || engine == AsrEngine::Mock,
            Ok(Backend::Parakeet) => !force_mock && engine == AsrEngine::Parakeet,
            Err(message) => !force_mock && (engine == AsrEngine::Nemotron || engine
                == AsrEngine::Whisper) && message@ == no_backend(engine),
        },
{
    if force_mock {
        return Ok(Backend::Mock);
    }
    match engine {
        AsrEngine::Mock => Ok(Backend::Mock),
        AsrEngine::Parakeet => Ok(Backend::Parakeet),
        AsrEngine::Nemotron => Err(
            "the streaming engine does not fit the batch Transcriber trait; use `murmur transcribe --stream` while the daemon integration lands",
        ),
        AsrEngine::Whisper => Err(
            "the whisper engine is not wired up yet; set asr.engine = \"parakeet\"",
        ),
    }
}

/// The accelerator a user's word stands for.
pub open spec fn named_accelerator(word: Seq<char>) -> Option<Accelerator> {
    if word == "cpu"@ {
        Some(Accelerator::Cpu)
    } else if word == "cuda"@ {
        Some(Accelerator::Cuda)
    } else if word == "tensor-rt"@ || word == "tensorrt"@ {
        Some(Accelerator::TensorRt)
    } else {
        None
    }
}

/// The accelerator a user's word stands for.
pub fn accelerator_of(word: &str) -> (r: Result<Accelerator, String>)
    ensures
        match r {
            Ok(accelerator) => named_accelerator(word@) == Some(accelerator),
            Err(message) => named_accelerator(word@) is None && message@ == "unknown accelerator "@
                + quoted(word@),
        },
{
    let word = word.to_owned();
    if word == "cpu".to_owned() {
        Ok(Accelerator::Cpu)
    } else if word == "cuda".to_owned() {
        Ok(Accelerator::Cuda)
    } else if word == "tensor-rt".to_owned() || word == "tensorrt".to_owned() {
        Ok(Accelerator::TensorRt)
    } else {
        let mut message = "unknown accelerator ".to_owned();
        push_text(&mut message, to_quoted(word.as_str()).as_str());
        Err(message)
    }
}

/// What the user is told once everything is open.
pub open spec fn banner_lines(
    key: Seq<char>,
    microphone: Seq<char>,
    rate: nat,
    transcriber: Seq<char>,
    injection: Seq<char>,
    hands_free: bool,
) -> Seq<Seq<char>> {
    seq![
        "murmur \u{2014} hold "@ + key + " and speak"@,
        "  microphone  "@ + microphone + " ("@ + decimal(rate) + " Hz)"@,
        "  transcriber "@ + transcriber,
        "  injection   "@ + injection,
        "  partials    live text while you speak, from the same model\n"@,
    ] + (if hands_free {
        seq!["  double-tap "@ + key + " for hands-free; press again to stop."@]
    } else {
        Seq::empty()
    }) + seq!["  Ctrl-C to quit.\n"@]
}

/// What the user is told once everything is open, line by line.
pub fn banner(
    key: &str,
    microphone: &str,
    rate: u32,
    transcriber: &str,
    injection: &str,
    hands_free: bool,
) -> (r: Vec<String>)
    ensures
        name_views(r@) == banner_lines(
            key@,
            microphone@,
            rate as nat,
            transcriber@,
            injection@,
            hands_free,
        ),
{
    let mut hold = "murmur \u{2014} hold ".to_owned();
    push_text(&mut hold, key);
    push_text(&mut hold, " and speak");
    let mut mic = "  microphone  ".to_owned();
    push_text(&mut mic, microphone);
    push_text(&mut mic, " (");
    push_decimal(&mut mic, rate as u128);
    push_text(&mut mic, " Hz)");
    let mut engine = "  transcriber ".to_owned();
    push_text(&mut engine, transcriber);
    let mut sink = "  injection   ".to_owned();
    push_text(&mut sink, injection);
    let mut out = vec![
        hold,
        mic,
        engine,
        sink,
        "  partials    live text while you speak, from the same model\n".to_owned(),
    ];
    if hands_free {
        let mut tap = "  double-tap ".to_owned();
        push_text(&mut tap, key);
        push_text(&mut tap, " for hands-free; press again to stop.");
        out.push(tap);
    }
    out.push("  Ctrl-C to quit.\n".to_owned());
    assert(name_views(out@) =~= banner_lines(
        key@,
        microphone@,
        rate as nat,
        transcriber@,
        injection@,
        hands_free,
    ));
    out
}

/// Which words name which accelerator.
pub proof fn law_which_words_name_accelerators(word: Seq<char>)
    ensures
        named_accelerator(word) == Some(Accelerator::Cpu) <==> word == "cpu"@,
        named_accelerator(word) == Some(Accelerator::Cuda) <==> word == "cuda"@,
        named_accelerator(word) == Some(Accelerator::TensorRt) <==> word == "tensor-rt"@ || word
            == "tensorrt"@,
{
    reveal_strlit("cpu");
    reveal_strlit("cuda");
    reveal_strlit("tensor-rt");
    reveal_strlit("tensorrt");
    assert("cpu"@.len() == 3 && "cuda"@.len() == 4 && "tensor-rt"@.len() == 9 && "tensorrt"@.len()
        == 8);
}

/// The user is told which key to hold, the microphone and its rate, the transcriber
/// and where text goes, each on a line of its own; and of hands-free capture exactly
/// where it is allowed.
pub proof fn law_what_the_user_is_told(
    key: Seq<char>,
    microphone: Seq<char>,
    rate: nat,
    transcriber: Seq<char>,
    injection: Seq<char>,
    hands_free: bool,
)
    ensures
        ({
            let lines = banner_lines(key, microphone, rate, transcriber, injection, hands_free);
            &&& lines.len() == (if hands_free {
                7nat
            } else {
                6
            })
            &&& lines[0] == "murmur \u{2014} hold "@ + key + " and speak"@
            &&& lines[1] == "  microphone  "@ + microphone + " ("@ + decimal(rate) + " Hz)"@
            &&& lines[2] == "  transcriber "@ + transcriber
            &&& lines[3] == "  injection   "@ + injection
            &&& hands_free ==> lines[5] == "  double-tap "@ + key
                + " for hands-free; press again to stop."@
            &&& lines.last() == "  Ctrl-C to quit.\n"@
        }),
{
}

} // verus!
