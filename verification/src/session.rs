//! The dictation state machine.

use crate::chars::push_text;
use crate::text::{EmitContext, FormatView, Formatter};
use crate::time::Millis;
use vstd::prelude::*;

verus! {

pub type UtteranceId = u64;

/// How the current capture will be ended.
#[derive(Clone, Copy, Debug, PartialEq, Eq, Structural)]
pub enum Mode {
    /// Push-to-talk: the capture ends when the key is released.
    Hold,
    /// Hands-free: entered by double-tapping, ended by the next press.
    Locked,
}

#[derive(Clone, Copy, Debug, PartialEq, Eq, Structural)]
pub enum Phase {
    Idle,
    Capturing { id: UtteranceId, mode: Mode },
    Finalizing { id: UtteranceId },
    Injecting { id: UtteranceId },
}

impl Phase {
    /// The utterance in flight, if there is one.
    pub open spec fn current(self) -> Option<UtteranceId> {
        match self {
            Phase::Idle => None,
            Phase::Capturing { id, .. } => Some(id),
            Phase::Finalizing { id } => Some(id),
            Phase::Injecting { id } => Some(id),
        }
    }
}

impl Default for Phase {
    fn default() -> (r: Self)
        ensures
            r == Phase::Idle,
    {
        Phase::Idle
    }
}

#[derive(Clone, Copy, Debug, PartialEq, Eq, Structural)]
pub enum Stage {
    Capture,
    Transcribe,
    Inject,
}

impl Stage {
    pub open spec fn text(self) -> Seq<char> {
        match self {
            Stage::Capture => "Capture"@,
            Stage::Transcribe => "Transcribe"@,
            Stage::Inject => "Inject"@,
        }
    }

    /// The stage's name.
    pub fn name(self) -> (r: &'static str)
        ensures
            r@ == self.text(),
    {
        match self {
            Stage::Capture => "Capture",
            Stage::Transcribe => "Transcribe",
            Stage::Inject => "Inject",
        }
    }
}

#[derive(Clone, Debug, PartialEq)]
pub enum Event {
    TriggerDown(Millis),
    TriggerUp(Millis),
    /// A streaming hypothesis, shown in the HUD but never injected.
    Partial { at: Millis, id: UtteranceId, text: String },
    Final { at: Millis, id: UtteranceId, text: String },
    Injected { at: Millis, id: UtteranceId },
    Failed { at: Millis, id: UtteranceId, stage: Stage, message: String },
    /// Abandon the utterance in flight without emitting anything.
    Cancel(Millis),
    Tick(Millis),
}

/// What an event says.
pub enum EventView {
    TriggerDown(Millis),
    TriggerUp(Millis),
    Partial { at: Millis, id: UtteranceId, text: Seq<char> },
    Final { at: Millis, id: UtteranceId, text: Seq<char> },
    Injected { at: Millis, id: UtteranceId },
    Failed { at: Millis, id: UtteranceId, stage: Stage, message: Seq<char> },
    Cancel(Millis),
    Tick(Millis),
}

impl View for Event {
    type V = EventView;

    open spec fn view(&self) -> EventView {
        match self {
            Event::TriggerDown(at) => EventView::TriggerDown(*at),
            Event::TriggerUp(at) => EventView::TriggerUp(*at),
            Event::Partial { at, id, text } => EventView::Partial { at: *at, id: *id, text: text@ },
            Event::Final { at, id, text } => EventView::Final { at: *at, id: *id, text: text@ },
            Event::Injected { at, id } => EventView::Injected { at: *at, id: *id },
            Event::Failed { at, id, stage, message } => EventView::Failed {
                at: *at,
                id: *id,
                stage: *stage,
                message: message@,
            },
            Event::Cancel(at) => EventView::Cancel(*at),
            Event::Tick(at) => EventView::Tick(*at),
        }
    }
}

#[derive(Clone, Debug, PartialEq)]
pub enum Hud {
    Hidden,
    Listening { mode: Mode },
    Partial { text: String },
    Thinking,
    Error { message: String },
}

/// What the overlay is told.
#[verifier::ext_equal]
pub enum HudView {
    Hidden,
    Listening { mode: Mode },
    Partial { text: Seq<char> },
    Thinking,
    Error { message: Seq<char> },
}

impl View for Hud {
    type V = HudView;

    open spec fn view(&self) -> HudView {
        match self {
            Hud::Hidden => HudView::Hidden,
            Hud::Listening { mode } => HudView::Listening { mode: *mode },
            Hud::Partial { text } => HudView::Partial { text: text@ },
            Hud::Thinking => HudView::Thinking,
            Hud::Error { message } => HudView::Error { message: message@ },
        }
    }
}

#[derive(Clone, Debug, PartialEq)]
pub enum Command {
    StartCapture { id: UtteranceId },
    StopCapture { id: UtteranceId },
    Discard { id: UtteranceId },
    Inject { id: UtteranceId, text: String },
    Hud(Hud),
}

/// What a command asks for.
#[verifier::ext_equal]
pub enum CommandView {
    StartCapture { id: UtteranceId },
    StopCapture { id: UtteranceId },
    Discard { id: UtteranceId },
    Inject { id: UtteranceId, text: Seq<char> },
    Hud(HudView),
}

impl View for Command {
    type V = CommandView;

    open spec fn view(&self) -> CommandView {
        match self {
            Command::StartCapture { id } => CommandView::StartCapture { id: *id },
            Command::StopCapture { id } => CommandView::StopCapture { id: *id },
            Command::Discard { id } => CommandView::Discard { id: *id },
            Command::Inject { id, text } => CommandView::Inject { id: *id, text: text@ },
            Command::Hud(hud) => CommandView::Hud(hud@),
        }
    }
}

pub open spec fn command_views(commands: Seq<Command>) -> Seq<CommandView> {
    commands.map_values(|c: Command| c@)
}

#[derive(Clone, Copy, Debug, PartialEq, Eq)]
pub struct Tuning {
    /// A press shorter than this emits nothing; it only arms the double-tap.
    pub tap_max: Millis,
    pub double_tap_window: Millis,
    /// Hard cap on a single capture, so a stuck key cannot record forever.
    pub max_utterance: Millis,
    /// How long to wait for a transcript before giving up on the utterance.
    pub finalize_timeout: Millis,
    /// Utterances closer together than this are treated as one flowing dictation.
    pub continuation_window: Millis,
}

impl Tuning {
    pub open spec fn standard() -> Self {
        Tuning {
            tap_max: Millis(220),
            double_tap_window: Millis(400),
            max_utterance: Millis(120_000),
            finalize_timeout: Millis(10_000),
            continuation_window: Millis(8_000),
        }
    }
}

impl Default for Tuning {
    fn default() -> (r: Self)
        ensures
            r == Tuning::standard(),
    {
        Tuning {
            tap_max: Millis(220),
            double_tap_window: Millis(400),
            max_utterance: Millis::from_secs(120),
            finalize_timeout: Millis::from_secs(10),
            continuation_window: Millis::from_secs(8),
        }
    }
}

/// Where the time went for one utterance.
///
/// `release_to_text` is the number this product lives or dies by: the gap the
/// user actually perceives between letting go of the key and seeing their words.
#[derive(Clone, Copy, Debug, PartialEq, Eq)]
pub struct Latency {
    pub speaking: Millis,
    pub transcribe: Millis,
    pub inject: Millis,
    pub release_to_text: Millis,
}

/// When the current utterance reached each point so far.
#[derive(Clone, Copy, Debug)]
pub struct Marks {
    pub down: Millis,
    pub up: Millis,
    pub transcript: Millis,
}

impl Marks {
    pub open spec fn from_press(at: Millis) -> Self {
        Marks { down: at, up: Millis(0), transcript: Millis(0) }
    }
}

/// Everything a session remembers.
#[verifier::ext_equal]
pub struct SessionView {
    pub tuning: Tuning,
    pub format: FormatView,
    /// May a double-tap enter hands-free capture?
    pub hands_free: bool,
    pub phase: Phase,
    pub next_id: UtteranceId,
    pub marks: Marks,
    pub last_tap: Option<Millis>,
    pub last_emit: Option<Millis>,
    pub last_latency: Option<Latency>,
}

impl SessionView {
    /// A session that has seen nothing yet.
    pub open spec fn fresh(tuning: Tuning, format: FormatView) -> Self {
        SessionView {
            tuning,
            format,
            hands_free: true,
            phase: Phase::Idle,
            next_id: 0,
            marks: Marks::from_press(Millis(0)),
            last_tap: None,
            last_emit: None,
            last_latency: None,
        }
    }

    /// The utterance in flight, if any, is the one most recently started.
    pub open spec fn valid(self) -> bool {
        self.phase.current() matches Some(id) ==> id == self.next_id
    }

    /// There is an id left for one more utterance.
    pub open spec fn can_start(self) -> bool {
        self.next_id < u64::MAX
    }

    pub open spec fn idle(self) -> Self {
        SessionView { phase: Phase::Idle, ..self }
    }

    /// `at` is within `window` of an earlier moment, if there is one.
    pub open spec fn soon_after(at: Millis, earlier: Option<Millis>, window: Millis) -> bool {
        earlier matches Some(t) && at.after(t).0 <= window.0
    }

    pub open spec fn start_capture(self, at: Millis, mode: Mode) -> (Self, Seq<CommandView>) {
        let id = (self.next_id + 1) as u64;
        (
            SessionView {
                next_id: id,
                phase: Phase::Capturing { id, mode },
                marks: Marks::from_press(at),
                ..self
            },
            seq![CommandView::StartCapture { id }, CommandView::Hud(HudView::Listening { mode })],
        )
    }

    pub open spec fn stop_capture(self, at: Millis, id: UtteranceId) -> (Self, Seq<CommandView>) {
        (
            SessionView {
                marks: Marks { up: at, ..self.marks },
                phase: Phase::Finalizing { id },
                ..self
            },
            seq![CommandView::StopCapture { id }, CommandView::Hud(HudView::Thinking)],
        )
    }

    /// The utterance in flight is dropped and the overlay is told `hud`.
    pub open spec fn discard(self, id: UtteranceId, hud: HudView) -> (Self, Seq<CommandView>) {
        (self.idle(), seq![CommandView::Discard { id }, CommandView::Hud(hud)])
    }

    pub open spec fn unchanged(self) -> (Self, Seq<CommandView>) {
        (self, Seq::empty())
    }

    pub open spec fn down(self, at: Millis) -> (Self, Seq<CommandView>) {
        match self.phase {
            Phase::Idle => {
                let double_tapped = Self::soon_after(
                    at,
                    self.last_tap,
                    self.tuning.double_tap_window,
                );
                let mode = if double_tapped && self.hands_free {
                    Mode::Locked
                } else {
                    Mode::Hold
                };
                (SessionView { last_tap: None, ..self }).start_capture(at, mode)
            },
            Phase::Capturing { id, mode: Mode::Locked } => self.stop_capture(at, id),
            _ => self.unchanged(),
        }
    }

    pub open spec fn up(self, at: Millis) -> (Self, Seq<CommandView>) {
        match self.phase {
            Phase::Capturing { id, mode: Mode::Hold } => {
                if at.after(self.marks.down).0 <= self.tuning.tap_max.0 {
                    (SessionView { last_tap: Some(at), ..self }).discard(id, HudView::Hidden)
                } else {
                    self.stop_capture(at, id)
                }
            },
            _ => self.unchanged(),
        }
    }

    pub open spec fn partial(self, id: UtteranceId, text: Seq<char>) -> (Self, Seq<CommandView>) {
        if self.phase is Capturing && self.phase.current() == Some(id) && text.len() > 0 {
            (self, seq![CommandView::Hud(HudView::Partial { text })])
        } else {
            self.unchanged()
        }
    }

    pub open spec fn finalized(self, at: Millis, id: UtteranceId, text: Seq<char>) -> (
        Self,
        Seq<CommandView>,
    ) {
        if self.phase == (Phase::Finalizing { id }) {
            let continuation = Self::soon_after(
                at,
                self.last_emit,
                self.tuning.continuation_window,
            );
            let marks = Marks { transcript: at, ..self.marks };
            match self.format.formats(text, continuation) {
                Some(text) => (
                    SessionView { marks, phase: Phase::Injecting { id }, ..self },
                    seq![CommandView::Inject { id, text }],
                ),
                None => (
                    SessionView { marks, phase: Phase::Idle, ..self },
                    seq![CommandView::Hud(HudView::Hidden)],
                ),
            }
        } else {
            self.unchanged()
        }
    }

    pub open spec fn injected(self, at: Millis, id: UtteranceId) -> (Self, Seq<CommandView>) {
        if self.phase == (Phase::Injecting { id }) {
            (
                SessionView {
                    phase: Phase::Idle,
                    last_emit: Some(at),
                    last_latency: Some(
                        Latency {
                            speaking: self.marks.up.after(self.marks.down),
                            transcribe: self.marks.transcript.after(self.marks.up),
                            inject: at.after(self.marks.transcript),
                            release_to_text: at.after(self.marks.up),
                        },
                    ),
                    ..self
                },
                seq![CommandView::Hud(HudView::Hidden)],
            )
        } else {
            self.unchanged()
        }
    }

    pub open spec fn failed(self, id: UtteranceId, stage: Stage, message: Seq<char>) -> (
        Self,
        Seq<CommandView>,
    ) {
        if self.phase.current() == Some(id) {
            self.discard(id, HudView::Error { message: stage.text() + " failed: "@ + message })
        } else {
            self.unchanged()
        }
    }

    pub open spec fn cancelled(self) -> (Self, Seq<CommandView>) {
        match self.phase.current() {
            Some(id) => self.discard(id, HudView::Hidden),
            None => self.unchanged(),
        }
    }

    pub open spec fn ticked(self, at: Millis) -> (Self, Seq<CommandView>) {
        match self.phase {
            Phase::Capturing { id, .. } => {
                if at.after(self.marks.down).0 >= self.tuning.max_utterance.0 {
                    self.stop_capture(at, id)
                } else {
                    self.unchanged()
                }
            },
            Phase::Finalizing { id } => {
                if at.after(self.marks.up).0 >= self.tuning.finalize_timeout.0 {
                    self.discard(id, HudView::Error { message: "transcription timed out"@ })
                } else {
                    self.unchanged()
                }
            },
            _ => self.unchanged(),
        }
    }

    /// What one event does: the session after it, and the commands it gives.
    pub open spec fn step(self, event: EventView) -> (Self, Seq<CommandView>) {
        match event {
            EventView::TriggerDown(at) => self.down(at),
            EventView::TriggerUp(at) => self.up(at),
            EventView::Partial { id, text, .. } => self.partial(id, text),
            EventView::Final { at, id, text } => self.finalized(at, id, text),
            EventView::Injected { at, id } => self.injected(at, id),
            EventView::Failed { id, stage, message, .. } => self.failed(id, stage, message),
            EventView::Cancel(_) => self.cancelled(),
            EventView::Tick(at) => self.ticked(at),
        }
    }

    /// The event completes the utterance in flight: its text reached the cursor.
    pub open spec fn completes(self, event: EventView) -> bool {
        event matches EventView::Injected { id, .. } && self.phase == (Phase::Injecting { id })
    }

    /// The event would start an utterance.
    pub open spec fn starts(self, event: EventView) -> bool {
        self.phase is Idle && event is TriggerDown
    }
}

/// The dictation state machine.
///
/// Deliberately free of IO, threads and clocks: every input is an [`Event`]
/// carrying its own timestamp, and every output is a [`Command`] for the daemon
/// to carry out. A whole session is therefore a pure function of its event log,
/// which is what makes the simulator possible.
#[derive(Debug)]
pub struct Session {
    tuning: Tuning,
    formatter: Formatter,
    hands_free: bool,
    phase: Phase,
    next_id: UtteranceId,
    marks: Marks,
    last_tap: Option<Millis>,
    last_emit: Option<Millis>,
    last_latency: Option<Latency>,
}

impl View for Session {
    type V = SessionView;

    closed spec fn view(&self) -> SessionView {
        SessionView {
            tuning: self.tuning,
            format: self.formatter@,
            hands_free: self.hands_free,
            phase: self.phase,
            next_id: self.next_id,
            marks: self.marks,
            last_tap: self.last_tap,
            last_emit: self.last_emit,
            last_latency: self.last_latency,
        }
    }
}

impl Default for Session {
    fn default() -> (r: Self)
        ensures
            r@ == SessionView::fresh(Tuning::standard(), FormatView::standard()),
            r@.valid(),
    {
        Session::new(Tuning::default(), Formatter::default())
    }
}

impl Clone for Session {
    fn clone(&self) -> (r: Self)
        ensures
            r@ == self@,
    {
        Session {
            tuning: self.tuning,
            formatter: self.formatter.clone(),
            hands_free: self.hands_free,
            phase: self.phase,
            next_id: self.next_id,
            marks: self.marks,
            last_tap: self.last_tap,
            last_emit: self.last_emit,
            last_latency: self.last_latency,
        }
    }
}

fn no_commands() -> (r: Vec<Command>)
    ensures
        command_views(r@) == Seq::<CommandView>::empty(),
{
    let out: Vec<Command> = Vec::new();
    assert(command_views(out@) =~= Seq::<CommandView>::empty());
    out
}

fn one_command(command: Command) -> (r: Vec<Command>)
    ensures
        command_views(r@) == seq![command@],
{
    let out = vec![command];
    assert(command_views(out@) =~= seq![command@]);
    out
}

fn two_commands(first: Command, second: Command) -> (r: Vec<Command>)
    ensures
        command_views(r@) == seq![first@, second@],
{
    let out = vec![first, second];
    assert(command_views(out@) =~= seq![first@, second@]);
    out
}

/// Is `at` within `window` of the earlier moment, if there is one?
fn is_soon_after(at: Millis, earlier: Option<Millis>, window: Millis) -> (r: bool)
    ensures
        r == SessionView::soon_after(at, earlier, window),
{
    match earlier {
        Some(t) => at.since(t).0 <= window.0,
        None => false,
    }
}

impl Session {
    #[must_use]
    pub fn new(tuning: Tuning, formatter: Formatter) -> (r: Self)
        ensures
            r@ == SessionView::fresh(tuning, formatter@),
            r@.valid(),
    {
        Session {
            tuning,
            formatter,
            hands_free: true,
            phase: Phase::default(),
            next_id: 0,
            marks: Marks { down: Millis(0), up: Millis(0), transcript: Millis(0) },
            last_tap: None,
            last_emit: None,
            last_latency: None,
        }
    }

    /// The session with hands-free capture allowed or not.
    #[must_use]
    pub fn with_hands_free(self, hands_free: bool) -> (r: Self)
        ensures
            r@ == (SessionView { hands_free, ..self@ }),
            self@.valid() ==> r@.valid(),
    {
        let mut out = self;
        out.hands_free = hands_free;
        out
    }

    #[must_use]
    pub fn phase(&self) -> (r: Phase)
        ensures
            r == self@.phase,
    {
        self.phase
    }

    #[must_use]
    pub fn is_capturing(&self) -> (r: bool)
        ensures
            r == (self@.phase is Capturing),
    {
        matches!(self.phase, Phase::Capturing { .. })
    }

    /// Is there an id left for one more utterance?
    #[must_use]
    pub fn can_start(&self) -> (r: bool)
        ensures
            r == self@.can_start(),
    {
        self.next_id < u64::MAX
    }

    /// Timing of the most recently completed utterance, if any.
    #[must_use]
    pub fn last_latency(&self) -> (r: Option<Latency>)
        ensures
            r == self@.last_latency,
    {
        self.last_latency
    }

    pub fn handle(&mut self, event: Event) -> (r: Vec<Command>)
        requires
            old(self)@.starts(event@) ==> old(self)@.can_start(),
        ensures
            final(self)@ == old(self)@.step(event@).0,
            command_views(r@) == old(self)@.step(event@).1,
            old(self)@.valid() ==> final(self)@.valid(),
    {
        match event {
            Event::TriggerDown(at) => self.on_down(at),
            Event::TriggerUp(at) => self.on_up(at),
            Event::Partial { id, text, .. } => self.on_partial(id, &text),
            Event::Final { at, id, text } => self.on_final(at, id, &text),
            Event::Injected { at, id } => self.on_injected(at, id),
            Event::Failed { id, stage, message, .. } => self.on_failed(id, stage, &message),
            Event::Cancel(_) => self.on_cancel(),
            Event::Tick(at) => self.on_tick(at),
        }
    }

    fn on_down(&mut self, at: Millis) -> (r: Vec<Command>)
        requires
            old(self)@.phase is Idle ==> old(self)@.can_start(),
        ensures
            final(self)@ == old(self)@.down(at).0,
            command_views(r@) == old(self)@.down(at).1,
    {
        match self.phase {
            Phase::Idle => {
                let double_tapped = is_soon_after(
                    at,
                    self.last_tap,
                    self.tuning.double_tap_window,
                );
                let mode = if double_tapped && self.hands_free {
                    Mode::Locked
                } else {
                    Mode::Hold
                };
                self.last_tap = None;
                self.start_capture(at, mode)
            },
            // In hands-free mode the next press is the stop signal.
            Phase::Capturing { id, mode: Mode::Locked } => self.stop_capture(at, id),
            _ => no_commands(),
        }
    }

    fn on_up(&mut self, at: Millis) -> (r: Vec<Command>)
        ensures
            final(self)@ == old(self)@.up(at).0,
            command_views(r@) == old(self)@.up(at).1,
    {
        match self.phase {
            Phase::Capturing { id, mode: Mode::Hold } => {
                if at.since(self.marks.down).0 <= self.tuning.tap_max.0 {
                    // Too short to be speech. Arm the double-tap instead of emitting noise.
                    self.last_tap = Some(at);
                    self.phase = Phase::Idle;
                    two_commands(Command::Discard { id }, Command::Hud(Hud::Hidden))
                } else {
                    self.stop_capture(at, id)
                }
            },
            _ => no_commands(),
        }
    }

    fn start_capture(&mut self, at: Millis, mode: Mode) -> (r: Vec<Command>)
        requires
            old(self)@.can_start(),
        ensures
            final(self)@ == old(self)@.start_capture(at, mode).0,
            command_views(r@) == old(self)@.start_capture(at, mode).1,
    {
        self.next_id += 1;
        let id: u64 = self.next_id;
        self.phase = Phase::Capturing { id, mode };
        self.marks = Marks { down: at, up: Millis(0), transcript: Millis(0) };
        two_commands(Command::StartCapture { id }, Command::Hud(Hud::Listening { mode }))
    }

    fn stop_capture(&mut self, at: Millis, id: UtteranceId) -> (r: Vec<Command>)
        ensures
            final(self)@ == old(self)@.stop_capture(at, id).0,
            command_views(r@) == old(self)@.stop_capture(at, id).1,
    {
        self.marks.up = at;
        self.phase = Phase::Finalizing { id };
        two_commands(Command::StopCapture { id }, Command::Hud(Hud::Thinking))
    }

    /// Live text is only ever shown *while capturing*.
    ///
    /// A partial pass started before the key came up can finish after it, and
    /// showing it then repaints a stale guess over "transcribing…" — or worse,
    /// over the final text. The utterance id is not enough to catch this,
    /// because it is still the current utterance; the phase is what matters.
    fn on_partial(&mut self, id: UtteranceId, text: &String) -> (r: Vec<Command>)
        ensures
            final(self)@ == old(self)@.partial(id, text@).0,
            command_views(r@) == old(self)@.partial(id, text@).1,
    {
        let capturing = match self.phase {
            Phase::Capturing { id: current, .. } => current == id,
            _ => false,
        };
        if capturing && text.as_str().unicode_len() > 0 {
            one_command(Command::Hud(Hud::Partial { text: text.clone() }))
        } else {
            no_commands()
        }
    }

    fn on_final(&mut self, at: Millis, id: UtteranceId, text: &String) -> (r: Vec<Command>)
        ensures
            final(self)@ == old(self)@.finalized(at, id, text@).0,
            command_views(r@) == old(self)@.finalized(at, id, text@).1,
    {
        if self.phase != (Phase::Finalizing { id }) {
            return no_commands();
        }
        self.marks.transcript = at;
        let continuation = is_soon_after(at, self.last_emit, self.tuning.continuation_window);
        match self.formatter.format(text.as_str(), EmitContext { continuation }) {
            Some(text) => {
                self.phase = Phase::Injecting { id };
                one_command(Command::Inject { id, text })
            },
            None => {
                self.phase = Phase::Idle;
                one_command(Command::Hud(Hud::Hidden))
            },
        }
    }

    fn on_injected(&mut self, at: Millis, id: UtteranceId) -> (r: Vec<Command>)
        ensures
            final(self)@ == old(self)@.injected(at, id).0,
            command_views(r@) == old(self)@.injected(at, id).1,
    {
        if self.phase != (Phase::Injecting { id }) {
            return no_commands();
        }
        self.phase = Phase::Idle;
        self.last_emit = Some(at);
        self.last_latency = Some(
            Latency {
                speaking: self.marks.up.since(self.marks.down),
                transcribe: self.marks.transcript.since(self.marks.up),
                inject: at.since(self.marks.transcript),
                release_to_text: at.since(self.marks.up),
            },
        );
        one_command(Command::Hud(Hud::Hidden))
    }

    fn on_failed(&mut self, id: UtteranceId, stage: Stage, message: &String) -> (r: Vec<Command>)
        ensures
            final(self)@ == old(self)@.failed(id, stage, message@).0,
            command_views(r@) == old(self)@.failed(id, stage, message@).1,
    {
        let current = match self.current_id() {
            Some(current) => current == id,
            None => false,
        };
        if !current {
            return no_commands();
        }
        self.phase = Phase::Idle;
        let mut line = String::new();
        push_text(&mut line, stage.name());
        push_text(&mut line, " failed: ");
        push_text(&mut line, message.as_str());
        assert(line@ =~= stage.text() + " failed: "@ + message@);
        two_commands(Command::Discard { id }, Command::Hud(Hud::Error { message: line }))
    }

    fn on_cancel(&mut self) -> (r: Vec<Command>)
        ensures
            final(self)@ == old(self)@.cancelled().0,
            command_views(r@) == old(self)@.cancelled().1,
    {
        match self.current_id() {
            Some(id) => {
                self.phase = Phase::Idle;
                two_commands(Command::Discard { id }, Command::Hud(Hud::Hidden))
            },
            None => no_commands(),
        }
    }

    fn on_tick(&mut self, at: Millis) -> (r: Vec<Command>)
        ensures
            final(self)@ == old(self)@.ticked(at).0,
            command_views(r@) == old(self)@.ticked(at).1,
    {
        match self.phase {
            Phase::Capturing { id, .. } => {
                if at.since(self.marks.down).0 >= self.tuning.max_utterance.0 {
                    self.stop_capture(at, id)
                } else {
                    no_commands()
                }
            },
            Phase::Finalizing { id } => {
                if at.since(self.marks.up).0 >= self.tuning.finalize_timeout.0 {
                    self.phase = Phase::Idle;
                    two_commands(
                        Command::Discard { id },
                        Command::Hud(Hud::Error { message: "transcription timed out".to_owned() }),
                    )
                } else {
                    no_commands()
                }
            },
            _ => no_commands(),
        }
    }

    fn current_id(&self) -> (r: Option<UtteranceId>)
        ensures
            r == self@.phase.current(),
    {
        match self.phase {
            Phase::Idle => None,
            Phase::Capturing { id, .. } | Phase::Finalizing { id } | Phase::Injecting { id } => Some(
                id,
            ),
        }
    }
}

} // verus!
