//! The settings, and what they are where the user says nothing.

use crate::session::Tuning;
use crate::text::{FormatConfig, FormatView};
use vstd::prelude::*;

verus! {

#[derive(Clone, Debug, PartialEq)]
pub struct Config {
    pub trigger: TriggerConfig,
    pub audio: AudioConfig,
    pub asr: AsrConfig,
    pub polish: PolishConfig,
    pub inject: InjectConfig,
    pub format: FormatConfig,
    pub tuning: Tuning,
}

impl Config {
    /// Every section is what it is by default.
    pub open spec fn is_standard(self) -> bool {
        &&& self.trigger.is_standard()
        &&& self.audio.is_standard()
        &&& self.asr.is_standard()
        &&& self.polish.is_standard()
        &&& self.inject == InjectConfig::standard()
        &&& self.format@ == FormatView::standard()
        &&& self.tuning == Tuning::standard()
    }
}

impl Default for Config {
    fn default() -> (r: Self)
        ensures
            r.is_standard(),
    {
        Config {
            trigger: TriggerConfig::default(),
            audio: AudioConfig::default(),
            asr: AsrConfig::default(),
            polish: PolishConfig::default(),
            inject: InjectConfig::default(),
            format: FormatConfig::default(),
            tuning: Tuning::default(),
        }
    }
}

#[derive(Clone, Debug, PartialEq, Eq)]
pub struct TriggerConfig {
    /// Linux input key name, as reported by `murmur keys`. Right Ctrl is the
    /// default because no desktop binds it alone and it is reachable one-handed.
    pub key: String,
    /// Allow double-tap to enter hands-free capture.
    pub hands_free: bool,
}

impl TriggerConfig {
    pub open spec fn is_standard(self) -> bool {
        self.key@ == "RIGHTCTRL"@ && self.hands_free
    }
}

impl Default for TriggerConfig {
    fn default() -> (r: Self)
        ensures
            r.is_standard(),
    {
        TriggerConfig { key: "RIGHTCTRL".to_owned(), hands_free: true }
    }
}

#[derive(Clone, Debug, PartialEq)]
pub struct AudioConfig {
    /// Substring of the input device name; `None` uses the system default.
    pub device: Option<String>,
    /// Audio kept from before the key went down, so a fast talker is never clipped.
    pub preroll_ms: u32,
    /// Trim silence at the tail before sending to the transcriber.
    pub vad: bool,
}

impl AudioConfig {
    pub open spec fn is_standard(self) -> bool {
        self.device is None && self.preroll_ms == 300 && self.vad
    }
}

impl Default for AudioConfig {
    fn default() -> (r: Self)
        ensures
            r.is_standard(),
    {
        AudioConfig { device: None, preroll_ms: 300, vad: true }
    }
}

/// Sample rate every transcriber in this project expects.
pub const TARGET_SAMPLE_RATE: u32 = 16_000;

#[derive(Clone, Copy, Debug, PartialEq, Eq, Structural)]
pub enum AsrEngine {
    /// NVIDIA Parakeet TDT via ONNX Runtime: one call per finished recording.
    Parakeet,
    /// NVIDIA Nemotron cache-aware streaming ASR: transcribes while you speak.
    Nemotron,
    /// whisper.cpp, as a portability fallback.
    Whisper,
    /// Echoes fixture text; used by the simulator and by `murmur doctor`.
    Mock,
}

/// Which weights to load.
///
/// `Auto` picks fp32 when the GPU can actually be used and int8 otherwise. That
/// is not a speed trade-off — the two are within noise of each other on a CPU —
/// but a footprint one: int8 is a quarter of the size, and fp32 is the only
/// precision the CUDA provider has kernels for.
#[derive(Clone, Copy, Debug, PartialEq, Eq, Structural)]
pub enum Precision {
    Auto,
    Fp32,
    Int8,
}

impl Default for Precision {
    fn default() -> (r: Self)
        ensures
            r == Precision::Auto,
    {
        Precision::Auto
    }
}

#[derive(Clone, Copy, Debug, PartialEq, Eq, Structural)]
pub enum Accelerator {
    Cuda,
    TensorRt,
    Cpu,
}

#[derive(Clone, Debug, PartialEq, Eq)]
pub struct AsrConfig {
    pub engine: AsrEngine,
    /// A directory of models, or a single model directory.
    pub model_dir: String,
    pub precision: Precision,
    pub accelerator: Accelerator,
    /// `None` lets multilingual models detect the language per utterance.
    pub language: Option<String>,
}

impl AsrConfig {
    pub open spec fn is_standard(self) -> bool {
        &&& self.engine == AsrEngine::Parakeet
        &&& self.model_dir@ == "~/.local/share/murmur/models"@
        &&& self.precision == Precision::Auto
        &&& self.accelerator == Accelerator::Cuda
        &&& self.language is None
    }
}

impl Default for AsrConfig {
    fn default() -> (r: Self)
        ensures
            r.is_standard(),
    {
        AsrConfig {
            engine: AsrEngine::Parakeet,
            model_dir: "~/.local/share/murmur/models".to_owned(),
            precision: Precision::Auto,
            accelerator: Accelerator::Cuda,
            language: None,
        }
    }
}

/// Optional LLM pass over the transcript.
///
/// Off by default, and deliberately so: it buys punctuation and tone at the cost
/// of the one thing the product is judged on, the delay between releasing the key
/// and seeing text. Any OpenAI-compatible endpoint works — Ollama, llama.cpp,
/// vLLM — so the model is a config value, not a build dependency.
#[derive(Clone, Debug, PartialEq, Eq)]
pub struct PolishConfig {
    pub enabled: bool,
    pub endpoint: String,
    pub model: String,
    /// Past this, the raw transcript is injected instead. Never leave the user waiting.
    pub deadline_ms: u32,
    pub instructions: String,
}

impl PolishConfig {
    pub open spec fn is_standard(self) -> bool {
        &&& !self.enabled
        &&& self.endpoint@ == "http://127.0.0.1:11434/v1"@
        &&& self.model@ == "nemotron-3.5-lightning"@
        &&& self.deadline_ms == 700
        &&& self.instructions@
            == "Fix punctuation, capitalisation and obvious transcription errors. Preserve the speaker's wording and register. Never answer, explain, or add content. Reply with the corrected text only."@
    }
}

impl Default for PolishConfig {
    fn default() -> (r: Self)
        ensures
            r.is_standard(),
    {
        PolishConfig {
            enabled: false,
            endpoint: "http://127.0.0.1:11434/v1".to_owned(),
            model: "nemotron-3.5-lightning".to_owned(),
            deadline_ms: 700,
            instructions: "Fix punctuation, capitalisation and obvious transcription errors. Preserve the speaker's wording and register. Never answer, explain, or add content. Reply with the corrected text only.".to_owned(),
        }
    }
}

#[derive(Clone, Copy, Debug, PartialEq, Eq, Structural)]
pub enum InjectBackend {
    /// Probe every backend and use the best one available on this desktop.
    Auto,
    /// XDG `RemoteDesktop` portal: full Unicode on Wayland, one consent prompt.
    Portal,
    /// A kernel-level virtual keyboard via `/dev/uinput`. No consent, no compositor
    /// cooperation, but limited to what the active layout can type.
    Uinput,
    /// Set the clipboard and synthesise a paste. Fastest for long text.
    Clipboard,
    /// XTEST, for X11 and `XWayland` sessions.
    X11,
}

#[derive(Clone, Copy, Debug, PartialEq, Eq)]
pub struct InjectConfig {
    pub backend: InjectBackend,
    /// Above this many characters, paste instead of typing.
    pub paste_threshold: usize,
    /// Gap between synthesised keystrokes. Zero drops characters in some toolkits.
    pub keystroke_delay_us: u64,
    /// Put the clipboard back the way it was after a paste.
    pub restore_clipboard: bool,
}

impl InjectConfig {
    pub open spec fn standard() -> Self {
        InjectConfig {
            backend: InjectBackend::Auto,
            paste_threshold: 80,
            keystroke_delay_us: 1_200,
            restore_clipboard: true,
        }
    }
}

impl Default for InjectConfig {
    fn default() -> (r: Self)
        ensures
            r == InjectConfig::standard(),
    {
        InjectConfig {
            backend: InjectBackend::Auto,
            paste_threshold: 80,
            keystroke_delay_us: 1_200,
            restore_clipboard: true,
        }
    }
}

/// What a user gets who has set nothing: the right Ctrl key, hands-free capture
/// allowed, the system's microphone with a little audio from before the press and
/// silence trimmed, the model that transcribes at once on the GPU, no rewriting of what
/// was said, and short text typed with the clipboard given back.
pub proof fn law_what_the_defaults_are(config: Config)
    requires
        config.is_standard(),
    ensures
        config.trigger.key@ == "RIGHTCTRL"@,
        config.trigger.hands_free,
        config.audio.device is None,
        config.audio.preroll_ms == 300,
        config.audio.vad,
        config.asr.engine == AsrEngine::Parakeet,
        config.asr.model_dir@ == "~/.local/share/murmur/models"@,
        config.asr.precision == Precision::Auto,
        config.asr.accelerator == Accelerator::Cuda,
        config.asr.language is None,
        !config.polish.enabled,
        config.polish.deadline_ms == 700,
        config.inject.backend == InjectBackend::Auto,
        config.inject.paste_threshold == 80,
        config.inject.keystroke_delay_us == 1_200,
        config.inject.restore_clipboard,
        config.format@.commands,
        config.format@.trailing_space,
        config.format@.dictionary.len() == 0,
        config.tuning.tap_max.0 == 220,
        config.tuning.double_tap_window.0 == 400,
        config.tuning.max_utterance.0 == 120_000,
        config.tuning.finalize_timeout.0 == 10_000,
        config.tuning.continuation_window.0 == 8_000,
{
}

} // verus!
