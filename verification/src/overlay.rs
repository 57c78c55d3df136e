//! Murmur's overlay: a single bar that says what is happening, while it happens.
//!
//! The design constraint that shapes everything here is that this window must
//! never take keyboard focus. Text is injected into whichever window the
//! compositor considers focused, so a HUD that steals focus would type into
//! itself. Wayland offers no way for a client to refuse focus, and GNOME
//! implements no layer-shell protocol, so the window is created once at
//! start-up, never mapped or unmapped, and simply changes what it draws.

use crate::chars::{chars_of, push_text, string_of, trim, trimmed, Class};
use crate::config::AsrEngine;
use crate::cuda::text_of;
use crate::listen::Backend;
use crate::paths::{join_path, joined_path};
use crate::session::{Hud, HudView, Mode};
use crate::single::Single;
use crate::time::Millis;
use vstd::prelude::*;

verus! {

/// Everything the interface needs to know before the first dictation.
#[derive(Debug, Clone, PartialEq, Eq)]
pub struct Ready {
    pub trigger: String,
    pub microphone: String,
    pub transcriber: String,
}

/// What the interface knows before the first dictation.
#[verifier::ext_equal]
pub struct ReadyView {
    pub trigger: Seq<char>,
    pub microphone: Seq<char>,
    pub transcriber: Seq<char>,
}

impl View for Ready {
    type V = ReadyView;

    open spec fn view(&self) -> ReadyView {
        ReadyView {
            trigger: self.trigger@,
            microphone: self.microphone@,
            transcriber: self.transcriber@,
        }
    }
}

/// The interface's own view of what the engine is doing.
///
/// Deliberately not the session's: the HUD keeps a level, live text and the last
/// result at the same time, where the core emits them as separate events.
/// Mapping once here keeps the view a pure function of one value.
#[derive(Debug, PartialEq, Eq)]
pub enum Phase {
    Starting,
    Idle,
    Listening { locked: bool },
    Thinking,
    Failed(String),
}

/// What the engine is doing.
#[verifier::ext_equal]
pub enum PhaseView {
    Starting,
    Idle,
    Listening { locked: bool },
    Thinking,
    Failed(Seq<char>),
}

impl View for Phase {
    type V = PhaseView;

    open spec fn view(&self) -> PhaseView {
        match self {
            Phase::Starting => PhaseView::Starting,
            Phase::Idle => PhaseView::Idle,
            Phase::Listening { locked } => PhaseView::Listening { locked: *locked },
            Phase::Thinking => PhaseView::Thinking,
            Phase::Failed(reason) => PhaseView::Failed(reason@),
        }
    }
}

impl Clone for Phase {
    fn clone(&self) -> (r: Self)
        ensures
            r@ == self@,
    {
        match self {
            Phase::Starting => Phase::Starting,
            Phase::Idle => Phase::Idle,
            Phase::Listening { locked } => Phase::Listening { locked: *locked },
            Phase::Thinking => Phase::Thinking,
            Phase::Failed(reason) => Phase::Failed(reason.clone()),
        }
    }
}

impl Default for Phase {
    fn default() -> (r: Self)
        ensures
            r == Phase::Starting,
    {
        Phase::Starting
    }
}

impl PhaseView {
    /// What the engine is doing once the overlay was told `hud`.
    pub open spec fn told(self, hud: HudView) -> Self {
        match hud {
            HudView::Hidden => PhaseView::Idle,
            HudView::Listening { mode } => PhaseView::Listening { locked: mode == Mode::Locked },
            HudView::Partial { .. } => self,
            HudView::Thinking => PhaseView::Thinking,
            HudView::Error { message } => PhaseView::Failed(message),
        }
    }
}

impl Phase {
    #[must_use]
    pub fn from_hud(hud: &Hud, previous: &Self) -> (r: Self)
        ensures
            r@ == previous@.told(hud@),
    {
        match hud {
            Hud::Hidden => Phase::Idle,
            Hud::Listening { mode } => Phase::Listening { locked: *mode == Mode::Locked },
            // Live text arrives while listening and must not change the phase,
            // or the meter would vanish the moment the first word appeared.
            Hud::Partial { .. } => previous.clone(),
            Hud::Thinking => Phase::Thinking,
            Hud::Error { message } => Phase::Failed(message.clone()),
        }
    }
}

/// The most recent completed dictation, shown briefly after it lands.
#[derive(Debug, Clone, PartialEq, Eq)]
pub struct Landed {
    pub text: String,
    pub release_to_text: Option<Millis>,
}

/// A completed dictation.
#[verifier::ext_equal]
pub struct LandedView {
    pub text: Seq<char>,
    pub release_to_text: Option<Millis>,
}

impl View for Landed {
    type V = LandedView;

    open spec fn view(&self) -> LandedView {
        LandedView { text: self.text@, release_to_text: self.release_to_text }
    }
}

/// Everything that can change what the overlay shows.
#[derive(Debug, Clone)]
pub enum Message {
    Ready { trigger: String, microphone: String, transcriber: String },
    Hud(Hud),
    Level(Single),
    Emitted(String),
    Completed(Millis),
    Fatal(String),
}

/// What a message says.
pub enum MessageView {
    Ready { trigger: Seq<char>, microphone: Seq<char>, transcriber: Seq<char> },
    Hud(HudView),
    Level(Single),
    Emitted(Seq<char>),
    Completed(Millis),
    Fatal(Seq<char>),
}

impl View for Message {
    type V = MessageView;

    open spec fn view(&self) -> MessageView {
        match self {
            Message::Ready { trigger, microphone, transcriber } => MessageView::Ready {
                trigger: trigger@,
                microphone: microphone@,
                transcriber: transcriber@,
            },
            Message::Hud(hud) => MessageView::Hud(hud@),
            Message::Level(level) => MessageView::Level(*level),
            Message::Emitted(text) => MessageView::Emitted(text@),
            Message::Completed(latency) => MessageView::Completed(*latency),
            Message::Fatal(reason) => MessageView::Fatal(reason@),
        }
    }
}

/// Everything the overlay remembers.
#[verifier::ext_equal]
pub struct MurmurView {
    pub phase: PhaseView,
    pub ready: Option<ReadyView>,
    pub level: Single,
    pub partial: Seq<char>,
    pub landed: Option<LandedView>,
}

impl MurmurView {
    pub open spec fn fresh() -> Self {
        MurmurView {
            phase: PhaseView::Starting,
            ready: None,
            level: Single { mant: 0, exp: 0 },
            partial: Seq::empty(),
            landed: None,
        }
    }

    /// What a message changes.
    pub open spec fn updated(self, message: MessageView) -> Self {
        match message {
            MessageView::Ready { trigger, microphone, transcriber } => MurmurView {
                phase: PhaseView::Idle,
                ready: Some(ReadyView { trigger, microphone, transcriber }),
                ..self
            },
            MessageView::Hud(hud) => MurmurView {
                phase: self.phase.told(hud),
                partial: match hud {
                    HudView::Partial { text } => text,
                    _ => Seq::empty(),
                },
                landed: if hud is Listening {
                    None
                } else {
                    self.landed
                },
                ..self
            },
            MessageView::Level(level) => MurmurView { level, ..self },
            MessageView::Emitted(text) => MurmurView {
                landed: Some(LandedView { text, release_to_text: None }),
                ..self
            },
            MessageView::Completed(latency) => MurmurView {
                landed: match self.landed {
                    Some(landed) => Some(LandedView { release_to_text: Some(latency), ..landed }),
                    None => None,
                },
                ..self
            },
            MessageView::Fatal(reason) => MurmurView { phase: PhaseView::Failed(reason), ..self },
        }
    }

    /// What the bar shows.
    pub open spec fn shows(self) -> BarView {
        match self.phase {
            PhaseView::Starting => BarView::Hint("starting\u{2026}"@),
            PhaseView::Failed(reason) => BarView::Failed(reason),
            PhaseView::Thinking => BarView::Thinking("transcribing\u{2026}"@),
            PhaseView::Listening { locked } => BarView::Listening {
                level: self.level,
                words: if self.partial.len() == 0 {
                    None
                } else {
                    Some(self.partial)
                },
                hint: if locked {
                    "hands-free \u{2014} press again to stop"@
                } else {
                    "speak\u{2026}"@
                },
            },
            PhaseView::Idle => match self.landed {
                Some(landed) => BarView::Landed {
                    text: trim(landed.text, Class::White),
                    timing: match landed.release_to_text {
                        Some(latency) => latency.text(),
                        None => Seq::empty(),
                    },
                },
                None => BarView::Idle(
                    match self.ready {
                        Some(ready) => "hold "@ + ready.trigger + " and speak"@,
                        None => "waiting for the engine"@,
                    },
                ),
            },
        }
    }
}

/// What the bar shows.
#[derive(Debug, PartialEq)]
pub enum Bar {
    /// A word on what is going on, and no light.
    Hint(String),
    Failed(String),
    Thinking(String),
    /// The meter at a level, and beside it the words so far or, where there are
    /// none, what to do.
    Listening { level: Single, words: Option<String>, hint: &'static str },
    /// The last result and how long it took.
    Landed { text: String, timing: String },
    /// How to start.
    Idle(String),
}

/// What the bar shows.
#[verifier::ext_equal]
pub enum BarView {
    Hint(Seq<char>),
    Failed(Seq<char>),
    Thinking(Seq<char>),
    Listening { level: Single, words: Option<Seq<char>>, hint: Seq<char> },
    Landed { text: Seq<char>, timing: Seq<char> },
    Idle(Seq<char>),
}

impl View for Bar {
    type V = BarView;

    open spec fn view(&self) -> BarView {
        match self {
            Bar::Hint(text) => BarView::Hint(text@),
            Bar::Failed(reason) => BarView::Failed(reason@),
            Bar::Thinking(text) => BarView::Thinking(text@),
            Bar::Listening { level, words, hint } => BarView::Listening {
                level: *level,
                words: match words {
                    Some(w) => Some(w@),
                    None => None,
                },
                hint: hint@,
            },
            Bar::Landed { text, timing } => BarView::Landed { text: text@, timing: timing@ },
            Bar::Idle(text) => BarView::Idle(text@),
        }
    }
}

/// The overlay.
#[derive(Debug)]
pub struct Murmur {
    phase: Phase,
    ready: Option<Ready>,
    level: Single,
    partial: String,
    landed: Option<Landed>,
}

impl View for Murmur {
    type V = MurmurView;

    closed spec fn view(&self) -> MurmurView {
        MurmurView {
            phase: self.phase@,
            ready: match self.ready {
                Some(ready) => Some(ready@),
                None => None,
            },
            level: self.level,
            partial: self.partial@,
            landed: match self.landed {
                Some(landed) => Some(landed@),
                None => None,
            },
        }
    }
}

impl Default for Murmur {
    fn default() -> (r: Self)
        ensures
            r@ == MurmurView::fresh(),
    {
        Murmur {
            phase: Phase::default(),
            ready: None,
            level: Single { mant: 0, exp: 0 },
            partial: String::new(),
            landed: None,
        }
    }
}

impl Murmur {
    #[must_use]
    pub fn phase(&self) -> (r: &Phase)
        ensures
            r@ == self@.phase,
    {
        &self.phase
    }

    #[must_use]
    pub fn partial(&self) -> (r: &str)
        ensures
            r@ == self@.partial,
    {
        self.partial.as_str()
    }

    #[must_use]
    pub fn landed(&self) -> (r: &Option<Landed>)
        ensures
            match (*r, self@.landed) {
                (Some(a), Some(b)) => a@ == b,
                (None, None) => true,
                _ => false,
            },
    {
        &self.landed
    }

    pub fn update(&mut self, message: Message)
        ensures
            final(self)@ == old(self)@.updated(message@),
    {
        match message {
            Message::Ready { trigger, microphone, transcriber } => {
                self.phase = Phase::Idle;
                self.ready = Some(Ready { trigger, microphone, transcriber });
            },
            Message::Hud(hud) => {
                self.partial = match &hud {
                    Hud::Partial { text } => text.clone(),
                    _ => String::new(),
                };
                if matches!(hud, Hud::Listening { .. }) {
                    // A new utterance replaces the last result rather than
                    // sitting beside it.
                    self.landed = None;
                }
                self.phase = Phase::from_hud(&hud, &self.phase);
            },
            Message::Level(level) => {
                self.level = level;
            },
            Message::Emitted(text) => {
                self.landed = Some(Landed { text, release_to_text: None });
            },
            Message::Completed(latency) => {
                let landed = match &self.landed {
                    Some(landed) => Some(
                        Landed { text: landed.text.clone(), release_to_text: Some(latency) },
                    ),
                    None => None,
                };
                self.landed = landed;
            },
            Message::Fatal(reason) => {
                self.phase = Phase::Failed(reason);
            },
        }
    }

    /// What the bar shows now.
    pub fn view_bar(&self) -> (r: Bar)
        ensures
            r@ == self@.shows(),
    {
        match &self.phase {
            Phase::Starting => Bar::Hint("starting\u{2026}".to_owned()),
            Phase::Failed(reason) => Bar::Failed(reason.clone()),
            Phase::Thinking => Bar::Thinking("transcribing\u{2026}".to_owned()),
            Phase::Listening { locked } => self.speech_or_hint(*locked),
            Phase::Idle => self.idle_view(),
        }
    }

    /// While listening: the words so far, or what to do if there are none yet.
    fn speech_or_hint(&self, locked: bool) -> (r: Bar)
        requires
            self@.phase == (PhaseView::Listening { locked }),
        ensures
            r@ == self@.shows(),
    {
        let hint = if locked {
            "hands-free \u{2014} press again to stop"
        } else {
            "speak\u{2026}"
        };
        let words = if self.partial.as_str().unicode_len() == 0 {
            None
        } else {
            Some(self.partial.clone())
        };
        Bar::Listening { level: self.level, words, hint }
    }

    /// While idle: the last result if there is one, otherwise how to start.
    fn idle_view(&self) -> (r: Bar)
        requires
            self@.phase == PhaseView::Idle,
        ensures
            r@ == self@.shows(),
    {
        match &self.landed {
            Some(landed) => {
                let text = string_of(
                    trimmed(chars_of(landed.text.as_str()).as_slice(), Class::White).as_slice(),
                );
                let timing = match landed.release_to_text {
                    Some(latency) => latency.to_text(),
                    None => String::new(),
                };
                Bar::Landed { text, timing }
            },
            None => {
                let hint = match &self.ready {
                    Some(ready) => {
                        let mut out = "hold ".to_owned();
                        push_text(&mut out, ready.trigger.as_str());
                        push_text(&mut out, " and speak");
                        out
                    },
                    None => "waiting for the engine".to_owned(),
                };
                Bar::Idle(hint)
            },
        }
    }

    #[must_use]
    pub fn title(&self) -> (r: String)
        ensures
            r@ == "Murmur"@,
    {
        "Murmur".to_owned()
    }
}

/// Live text is shown while it is arriving and never outlives its utterance: any
/// other change of state drops it.
pub proof fn law_live_text_never_outlives_its_utterance(overlay: MurmurView, hud: HudView)
    ensures
        overlay.updated(MessageView::Hud(hud)).partial == (match hud {
            HudView::Partial { text } => text,
            _ => Seq::<char>::empty(),
        }),
        hud is Partial ==> overlay.updated(MessageView::Hud(hud)).phase == overlay.phase,
        hud is Listening ==> overlay.updated(MessageView::Hud(hud)).landed is None,
{
}

/// Timing attaches to the text it belongs to, and is never shown alone.
pub proof fn law_timing_belongs_to_text(overlay: MurmurView, text: Seq<char>, latency: Millis)
    ensures
        overlay.updated(MessageView::Emitted(text)).updated(
            MessageView::Completed(latency),
        ).landed == Some(LandedView { text, release_to_text: Some(latency) }),
        overlay.landed is None ==> overlay.updated(MessageView::Completed(latency)) == overlay,
{
}

/// Where the overlay looks for its settings.
pub fn config_path(config_home: Option<String>, home: Option<String>) -> (r: String)
    ensures
        r@ == joined_path(
            match (text_of(config_home), text_of(home)) {
                (Some(dir), _) => dir,
                (None, Some(h)) => joined_path(h, ".config"@),
                (None, None) => Seq::<char>::empty(),
            },
            "murmur/config.toml"@,
        ),
{
    let base = match config_home {
        Some(dir) => dir,
        None => match home {
            Some(h) => join_path(h.as_str(), ".config"),
            None => String::new(),
        },
    };
    join_path(base.as_str(), "murmur/config.toml")
}

pub open spec fn engine_text(engine: AsrEngine) -> Seq<char> {
    match engine {
        AsrEngine::Parakeet => "Parakeet"@,
        AsrEngine::Nemotron => "Nemotron"@,
        AsrEngine::Whisper => "Whisper"@,
        AsrEngine::Mock => "Mock"@,
    }
}

/// Which transcriber the overlay loads, going by the config.
pub fn transcriber(engine: AsrEngine) -> (r: Result<Backend, String>)
    ensures
        match r {
            Ok(Backend::Mock) => engine == AsrEngine::Mock,
            Ok(Backend::Parakeet) => engine == AsrEngine::Parakeet,
            Err(message) => (engine == AsrEngine::Nemotron || engine == AsrEngine::Whisper)
                && message@ == "the "@ + engine_text(engine)
                + " engine cannot be used for dictation yet"@,
        },
{
    let name = match engine {
        AsrEngine::Mock => {
            return Ok(Backend::Mock);
        },
        AsrEngine::Parakeet => {
            return Ok(Backend::Parakeet);
        },
        AsrEngine::Nemotron => "Nemotron",
        AsrEngine::Whisper => "Whisper",
    };
    let mut message = "the ".to_owned();
    push_text(&mut message, name);
    push_text(&mut message, " engine cannot be used for dictation yet");
    Err(message)
}

/// What each message changes, and that it changes nothing else: being ready ends the
/// start, a level moves the meter, emitted text lands, its timing is put with it, and
/// what is fatal is shown as a failure.
pub proof fn law_what_messages_change(
    overlay: MurmurView,
    ready: ReadyView,
    level: Single,
    text: Seq<char>,
    latency: Millis,
    reason: Seq<char>,
)
    ensures
        overlay.updated(
            MessageView::Ready {
                trigger: ready.trigger,
                microphone: ready.microphone,
                transcriber: ready.transcriber,
            },
        ) == (MurmurView { phase: PhaseView::Idle, ready: Some(ready), ..overlay }),
        overlay.updated(MessageView::Level(level)) == (MurmurView { level, ..overlay }),
        overlay.updated(MessageView::Emitted(text)) == (MurmurView {
            landed: Some(LandedView { text, release_to_text: None }),
            ..overlay
        }),
        overlay.landed matches Some(landed) ==> overlay.updated(MessageView::Completed(latency))
            == (MurmurView {
            landed: Some(LandedView { text: landed.text, release_to_text: Some(latency) }),
            ..overlay
        }),
        overlay.updated(MessageView::Fatal(reason)) == (MurmurView {
            phase: PhaseView::Failed(reason),
            ..overlay
        }),
{
}

/// What a change of state means for the overlay: it follows the dictation from
/// listening to transcribing and back to idle, or to a failure; live text leaves it
/// listening. What landed is cleared when the next utterance begins and at no other
/// time.
pub proof fn law_the_overlay_follows_the_dictation(
    overlay: MurmurView,
    mode: Mode,
    text: Seq<char>,
    message: Seq<char>,
)
    ensures
        overlay.updated(MessageView::Hud(HudView::Hidden)) == (MurmurView {
            phase: PhaseView::Idle,
            partial: Seq::empty(),
            ..overlay
        }),
        overlay.updated(MessageView::Hud(HudView::Listening { mode })) == (MurmurView {
            phase: PhaseView::Listening { locked: mode == Mode::Locked },
            partial: Seq::empty(),
            landed: None,
            ..overlay
        }),
        overlay.updated(MessageView::Hud(HudView::Partial { text })) == (MurmurView {
            partial: text,
            ..overlay
        }),
        overlay.updated(MessageView::Hud(HudView::Thinking)) == (MurmurView {
            phase: PhaseView::Thinking,
            partial: Seq::empty(),
            ..overlay
        }),
        overlay.updated(MessageView::Hud(HudView::Error { message })) == (MurmurView {
            phase: PhaseView::Failed(message),
            partial: Seq::empty(),
            ..overlay
        }),
{
}

/// What the bar shows in each phase: while listening the level, the live text if there
/// is any and how to stop; while idle the text that landed last with its timing, or how
/// to begin.
pub proof fn law_what_the_bar_shows(overlay: MurmurView)
    ensures
        overlay.phase == PhaseView::Starting ==> overlay.shows() == BarView::Hint(
            "starting\u{2026}"@,
        ),
        overlay.phase == PhaseView::Thinking ==> overlay.shows() == BarView::Thinking(
            "transcribing\u{2026}"@,
        ),
        overlay.phase matches PhaseView::Failed(reason) ==> overlay.shows() == BarView::Failed(
            reason,
        ),
        overlay.phase matches PhaseView::Listening { locked } ==> {
            &&& overlay.shows() matches BarView::Listening { level, words, hint }
            &&& level == overlay.level
            &&& words is None <==> overlay.partial.len() == 0
            &&& words matches Some(live) ==> live == overlay.partial
            &&& locked ==> hint == "hands-free \u{2014} press again to stop"@
            &&& !locked ==> hint == "speak\u{2026}"@
        },
        overlay.phase == PhaseView::Idle && overlay.landed is Some ==> {
            let landed = overlay.landed->0;
            &&& overlay.shows() matches BarView::Landed { text, timing }
            &&& text == trim(landed.text, Class::White)
            &&& landed.release_to_text is None ==> timing.len() == 0
            &&& landed.release_to_text matches Some(latency) ==> timing == latency.text()
        },
        overlay.phase == PhaseView::Idle && overlay.landed is None && overlay.ready is None
            ==> overlay.shows() == BarView::Idle("waiting for the engine"@),
        overlay.phase == PhaseView::Idle && overlay.landed is None && overlay.ready is Some
            ==> overlay.shows() == BarView::Idle(
            "hold "@ + overlay.ready->0.trigger + " and speak"@,
        ),
{
}

/// What each engine is called.
pub proof fn law_what_engines_are_called()
    ensures
        engine_text(AsrEngine::Parakeet) == "Parakeet"@,
        engine_text(AsrEngine::Nemotron) == "Nemotron"@,
        engine_text(AsrEngine::Whisper) == "Whisper"@,
        engine_text(AsrEngine::Mock) == "Mock"@,
{
}

} // verus!
