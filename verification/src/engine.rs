//! The dictation loop: trigger edges in, text at the cursor out.
//!
//! All the decisions about an utterance live in the session, which is pure. What is
//! here queues the commands that come back, says which is to be performed next, and
//! turns what came of performing it into the next event. Keeping the split honest is
//! what makes the timing numbers trustworthy — the devices are measured, the core
//! decides.

use crate::asr::{AsrError, Transcript};
use crate::audio::AudioError;
use crate::hotkey::Edge;
use crate::inject::InjectError;
use crate::partials::{Partials, PartialsView, Reply, Request, DUTY};
use crate::recorder::Recorded;
use crate::session::{
    command_views, Command, CommandView, Event, EventView, Hud, HudView, Latency, Phase, Session,
    SessionView, Stage, UtteranceId,
};
use crate::stats::{Stats, StatsView};
use crate::time::{Millis, Span, SECOND};
use std::collections::VecDeque;
use vstd::prelude::*;

verus! {

/// How often the session is ticked when no key is moving, in milliseconds.
///
/// This is the resolution of the utterance cap and the transcription timeout,
/// and it is also the HUD's meter refresh, so it wants to be smooth to the eye
/// rather than merely correct.
pub const TICK_MS: u64 = 50;

/// Why the loop could not go on.
#[derive(Clone, Debug, PartialEq, Eq)]
pub enum EngineError {
    Audio(AudioError),
    Inject(InjectError),
}

impl EngineError {
    pub open spec fn says(self) -> Seq<char> {
        match self {
            EngineError::Audio(e) => e.says(),
            EngineError::Inject(e) => e.says(),
        }
    }

    /// What the error says: what the error underneath it says.
    pub fn message(&self) -> (r: String)
        ensures
            r@ == self.says(),
    {
        match self {
            EngineError::Audio(e) => e.message(),
            EngineError::Inject(e) => e.message(),
        }
    }
}

/// What waiting for the trigger came to.
#[derive(Clone, Copy, Debug, PartialEq, Eq)]
pub enum Poll {
    Trigger(Edge),
    /// Nothing moved for one tick.
    Timeout,
    /// The trigger source went away.
    Disconnected,
}

/// What to do about it.
#[derive(Clone, Copy, Debug, PartialEq, Eq)]
pub enum Turn {
    /// Pump the edge.
    Edge(Edge),
    /// Show the level and offer the audio so far for the utterance, if one is being
    /// captured; then show the live text that is ready, and pump a tick.
    Idle { capturing: Option<UtteranceId> },
    /// Stop.
    Stop,
}

/// What performing a command came to.
#[derive(Clone, Debug, PartialEq, Eq)]
pub enum Outcome {
    /// It is done, and there is nothing to report.
    Done,
    /// The recording was transcribed, and `at` is when. `spent` holds how long the
    /// audio lasted and how long inference took, unless there was no audio.
    Transcribed { at: Millis, text: String, spent: Option<(Span, Span)> },
    /// The text reached the cursor, and `at` is when.
    Injected { at: Millis },
    /// It failed, and `at` is when it was begun.
    Failed { at: Millis, message: String },
}

/// What performing a command came to.
pub enum OutcomeView {
    Done,
    Transcribed { at: Millis, text: Seq<char>, spent: Option<(Span, Span)> },
    Injected { at: Millis },
    Failed { at: Millis, message: Seq<char> },
}

impl View for Outcome {
    type V = OutcomeView;

    open spec fn view(&self) -> OutcomeView {
        match self {
            Outcome::Done => OutcomeView::Done,
            Outcome::Transcribed { at, text, spent } => OutcomeView::Transcribed {
                at: *at,
                text: text@,
                spent: *spent,
            },
            Outcome::Injected { at } => OutcomeView::Injected { at: *at },
            Outcome::Failed { at, message } => OutcomeView::Failed { at: *at, message: message@ },
        }
    }
}

/// The outcome is one that performing the command can have.
pub open spec fn fits(command: CommandView, outcome: OutcomeView) -> bool {
    match command {
        CommandView::StopCapture { .. } => outcome is Transcribed || outcome is Failed,
        CommandView::Inject { .. } => outcome is Injected || outcome is Failed,
        _ => outcome is Done,
    }
}

/// The event that an outcome gives rise to, if any.
pub open spec fn fact(command: CommandView, outcome: OutcomeView) -> Option<EventView> {
    match (command, outcome) {
        (
            CommandView::StopCapture { id },
            OutcomeView::Transcribed { at, text, .. },
        ) => Some(EventView::Final { at, id, text }),
        (CommandView::StopCapture { id }, OutcomeView::Failed { at, message }) => Some(
            EventView::Failed { at, id, stage: Stage::Transcribe, message },
        ),
        (CommandView::Inject { id, .. }, OutcomeView::Injected { at }) => Some(
            EventView::Injected { at, id },
        ),
        (CommandView::Inject { id, .. }, OutcomeView::Failed { at, message }) => Some(
            EventView::Failed { at, id, stage: Stage::Inject, message },
        ),
        _ => None,
    }
}

/// Everything the loop remembers.
#[verifier::ext_equal]
pub struct EngineView {
    pub session: SessionView,
    pub partials: PartialsView,
    pub stats: StatsView,
    /// How long the utterance that was completed last took, until it is counted.
    pub pending: Option<Latency>,
    /// Events not yet handled.
    pub events: Seq<EventView>,
    /// Commands not yet performed.
    pub commands: Seq<CommandView>,
}

pub open spec fn event_views(events: Seq<Event>) -> Seq<EventView> {
    events.map_values(|e: Event| e@)
}

/// How many of the events are presses of the trigger.
pub open spec fn presses(events: Seq<EventView>) -> nat
    decreases events.len(),
{
    if events.len() == 0 {
        0
    } else {
        presses(events.drop_last()) + (if events.last() is TriggerDown {
            1nat
        } else {
            0nat
        })
    }
}

impl EngineView {
    pub open spec fn fresh(session: SessionView) -> Self {
        EngineView {
            session,
            partials: PartialsView::fresh(),
            stats: StatsView::empty(),
            pending: None,
            events: Seq::empty(),
            commands: Seq::empty(),
        }
    }

    pub open spec fn valid(self) -> bool {
        &&& self.session.valid()
        &&& self.partials.valid()
        &&& self.stats.valid()
        &&& self.session.next_id + presses(self.events) <= u64::MAX
    }

    /// Nothing is left to do.
    pub open spec fn settled(self) -> bool {
        self.events.len() == 0 && self.commands.len() == 0
    }

    /// An event is handled: the session takes it in, its commands are queued, and an
    /// utterance that it completes is to be counted.
    pub open spec fn handled(self, event: EventView) -> Self {
        let (session, commands) = self.session.step(event);
        EngineView {
            session,
            commands,
            pending: if self.session.completes(event) {
                session.last_latency
            } else {
                self.pending
            },
            ..self
        }
    }

    /// The next command to perform, and the loop without it: commands come in the
    /// order they were given, and an event is handled once none is left.
    pub open spec fn next(self) -> (Self, Option<CommandView>)
        decreases self.events.len(),
    {
        if self.commands.len() > 0 {
            (EngineView { commands: self.commands.skip(1), ..self }, Some(self.commands[0]))
        } else if self.events.len() > 0 {
            (EngineView { events: self.events.skip(1), ..self.handled(self.events[0]) }).next()
        } else {
            (self, None)
        }
    }

    /// What performing a command does to the totals: an utterance is counted when the
    /// overlay is hidden after it.
    pub open spec fn counted(
        stats: StatsView,
        pending: Option<Latency>,
        command: CommandView,
        outcome: OutcomeView,
        after: StatsView,
    ) -> bool {
        match (command, outcome) {
            (
                CommandView::StopCapture { .. },
                OutcomeView::Transcribed { spent: Some((audio, inference)), .. },
            ) => {
                &&& after == (StatsView {
                    audio: after.audio,
                    inference: after.inference,
                    ..stats
                })
                &&& after.audio.valid() && after.audio.total() == stats.audio.total()
                    + audio.total()
                &&& after.inference.valid() && after.inference.total() == stats.inference.total()
                    + inference.total()
            },
            (CommandView::Inject { text, .. }, OutcomeView::Injected { .. }) => after == (
            StatsView { characters: stats.characters + text.len(), ..stats }),
            (CommandView::Hud(HudView::Hidden), _) => after == (match pending {
                Some(latency) => stats.with_latency(latency),
                None => stats,
            }),
            _ => after == stats,
        }
    }

    /// The totals have room for what performing the command adds to them.
    pub open spec fn has_room(self, command: CommandView, outcome: OutcomeView) -> bool {
        match (command, outcome) {
            (
                CommandView::StopCapture { .. },
                OutcomeView::Transcribed { spent: Some((audio, inference)), .. },
            ) => self.stats.has_time_for(audio, inference),
            (
                CommandView::Inject { text, .. },
                OutcomeView::Injected { .. },
            ) => self.stats.characters + text.len() <= usize::MAX,
            _ => true,
        }
    }

    /// `after` is the loop once a command was performed.
    pub open spec fn performed(
        self,
        command: CommandView,
        outcome: OutcomeView,
        after: Self,
    ) -> bool {
        &&& after.session == self.session
        &&& after.commands == self.commands
        &&& after.events == (match fact(command, outcome) {
            Some(event) => self.events.push(event),
            None => self.events,
        })
        &&& after.partials == (if command is StartCapture {
            PartialsView { last_request: None, ..self.partials }
        } else {
            self.partials
        })
        &&& after.pending == (if command == CommandView::Hud(HudView::Hidden) {
            None
        } else {
            self.pending
        })
        &&& Self::counted(
            self.stats,
            self.pending,
            command,
            outcome,
            after.stats,
        )
    }
}

/// What a finished recording calls for.
#[derive(Debug)]
pub enum Take<S> {
    /// There is nothing to transcribe, or the recording failed.
    Settled(Result<String, String>),
    Transcribe(Recorded<S>),
}

/// Take the recording, reporting failure as a message rather than an error so one
/// bad utterance cannot end the session.
pub fn take<S>(finished: Result<Recorded<S>, String>) -> (r: Take<S>)
    ensures
        match finished {
            Err(reason) => r == Take::<S>::Settled(Err(reason)),
            Ok(recorded) => if recorded.samples@.len() == 0 {
                r matches Take::Settled(Ok(text)) && text@ == Seq::<char>::empty()
            } else {
                r == Take::Transcribe(recorded)
            },
        },
{
    match finished {
        Err(reason) => Take::Settled(Err(reason)),
        Ok(recorded) => {
            if recorded.is_empty() {
                Take::Settled(Ok(String::new()))
            } else {
                Take::Transcribe(recorded)
            }
        },
    }
}

/// What came of a recording that called for nothing more.
pub fn settled(result: Result<String, String>, begun: Millis, now: Millis) -> (r: Outcome)
    ensures
        match result {
            Ok(text) => r@ == (OutcomeView::Transcribed { at: now, text: text@, spent: None }),
            Err(message) => r@ == (OutcomeView::Failed { at: begun, message: message@ }),
        },
{
    match result {
        Ok(text) => Outcome::Transcribed { at: now, text, spent: None },
        Err(message) => Outcome::Failed { at: begun, message },
    }
}

/// What came of transcribing a recording that lasted `duration`; `None` where the
/// transcriber could not be reached.
pub fn transcribe(
    duration: Span,
    heard: Option<Result<Transcript, AsrError>>,
    begun: Millis,
    now: Millis,
) -> (r: Outcome)
    ensures
        match heard {
            None => r@ == (OutcomeView::Failed {
                at: begun,
                message: "transcriber lock poisoned"@,
            }),
            Some(Err(e)) => r@ == (OutcomeView::Failed { at: begun, message: e@.says() }),
            Some(Ok(transcript)) => r@ == (OutcomeView::Transcribed {
                at: now,
                text: transcript.text@,
                spent: Some((duration, transcript.elapsed)),
            }),
        },
{
    match heard {
        None => Outcome::Failed { at: begun, message: "transcriber lock poisoned".to_owned() },
        Some(Err(e)) => Outcome::Failed { at: begun, message: e.message() },
        Some(Ok(transcript)) => Outcome::Transcribed {
            at: now,
            text: transcript.text,
            spent: Some((duration, transcript.elapsed)),
        },
    }
}

/// The dictation loop.
#[derive(Debug)]
pub struct Engine {
    session: Session,
    partials: Partials,
    stats: Stats,
    pending: Option<Latency>,
    events: VecDeque<Event>,
    commands: Vec<Command>,
}

impl View for Engine {
    type V = EngineView;

    closed spec fn view(&self) -> EngineView {
        EngineView {
            session: self.session@,
            partials: self.partials@,
            stats: self.stats@,
            pending: self.pending,
            events: event_views(self.events@),
            commands: command_views(self.commands@),
        }
    }
}

proof fn lemma_presses_pop(events: Seq<EventView>)
    requires
        events.len() > 0,
    ensures
        presses(events) == presses(events.skip(1)) + (if events[0] is TriggerDown {
            1nat
        } else {
            0nat
        }),
    decreases events.len(),
{
    if events.len() > 1 {
        lemma_presses_pop(events.drop_last());
        assert(events.drop_last().skip(1) =~= events.skip(1).drop_last());
    } else {
        assert(events.skip(1) =~= Seq::<EventView>::empty());
        assert(events.drop_last() =~= Seq::<EventView>::empty());
    }
}

impl Engine {
    #[must_use]
    pub fn new(session: Session) -> (r: Self)
        requires
            session@.valid(),
        ensures
            r@ == EngineView::fresh(session@),
            r@.valid(),
            r@.settled(),
    {
        let r = Engine {
            session,
            partials: Partials::new(),
            stats: Stats::default(),
            pending: None,
            events: VecDeque::new(),
            commands: Vec::new(),
        };
        assert(r@.events =~= Seq::<EventView>::empty());
        assert(r@.commands =~= Seq::<CommandView>::empty());
        r
    }

    #[must_use]
    pub fn stats(&self) -> (r: &Stats)
        ensures
            r@ == self@.stats,
    {
        &self.stats
    }

    #[must_use]
    pub fn phase(&self) -> (r: Phase)
        ensures
            r == self@.session.phase,
    {
        self.session.phase()
    }

    /// Is there an id left for one more utterance?
    #[must_use]
    pub fn can_start(&self) -> (r: bool)
        ensures
            r == self@.session.can_start(),
    {
        self.session.can_start()
    }

    /// What to do about what waiting for the trigger came to.
    pub fn run(&self, poll: Poll) -> (r: Turn)
        ensures
            r == (match poll {
                Poll::Trigger(edge) => Turn::Edge(edge),
                Poll::Timeout => Turn::Idle {
                    capturing: match self@.session.phase {
                        Phase::Capturing { id, .. } => Some(id),
                        _ => None,
                    },
                },
                Poll::Disconnected => Turn::Stop,
            }),
    {
        match poll {
            Poll::Trigger(edge) => Turn::Edge(edge),
            Poll::Timeout => Turn::Idle {
                capturing: match self.session.phase() {
                    Phase::Capturing { id, .. } => Some(id),
                    _ => None,
                },
            },
            Poll::Disconnected => Turn::Stop,
        }
    }

    /// The event for an edge of the trigger.
    pub fn edge_event(edge: Edge, at: Millis) -> (r: Event)
        ensures
            r@ == (match edge {
                Edge::Down => EventView::TriggerDown(at),
                Edge::Up => EventView::TriggerUp(at),
            }),
    {
        match edge {
            Edge::Down => Event::TriggerDown(at),
            Edge::Up => Event::TriggerUp(at),
        }
    }

    /// Hand the worker the audio recorded so far, if it is ready for more: what is
    /// returned is to be sent to it.
    pub fn request_partial<S>(
        &mut self,
        snapshot: Option<Recorded<S>>,
        busy: bool,
        now: Span,
    ) -> (r: Option<Request<S>>)
        requires
            old(self)@.valid(),
        ensures
            ({
                let capturing = old(self)@.session.phase is Capturing;
                let before = old(self)@.partials;
                match (snapshot, r) {
                    (Some(recorded), Some(request)) => {
                        &&& capturing && recorded.samples@.len() > 0 && !busy && before.due(
                            now.total(),
                        )
                        &&& Some(request.id) == old(self)@.session.phase.current()
                        &&& request.samples == recorded.samples
                        &&& final(self)@ == (EngineView {
                            partials: PartialsView { last_request: Some(now.total()), ..before },
                            ..old(self)@
                        })
                    },
                    (Some(recorded), None) => {
                        &&& !capturing || recorded.samples@.len() == 0 || busy || !before.due(
                            now.total(),
                        )
                        &&& final(self)@ == old(self)@
                    },
                    (None, None) => final(self)@ == old(self)@,
                    (None, Some(_)) => false,
                }
            }),
            final(self)@.valid(),
    {
        let id: u64 = match self.session.phase() {
            Phase::Capturing { id, .. } => id,
            _ => {
                return None;
            },
        };
        match snapshot {
            Some(recorded) => self.partials.offer(id, recorded.samples, busy, now),
            None => None,
        }
    }

    /// Take in what the worker finished, adjusting the pace. Each reply is then to be
    /// pumped as an event of its own; stale text is dropped by the session, which
    /// knows which utterance is current.
    pub fn deliver_partials(&mut self, replies: &[Reply])
        requires
            old(self)@.valid(),
            forall|i: int|
                0 <= i < replies@.len() ==> (#[trigger] replies@[i]).took.total() * DUTY < (u64::MAX
                    + 1) * SECOND,
        ensures
            final(self)@ == (EngineView {
                partials: if replies@.len() == 0 {
                    old(self)@.partials
                } else {
                    PartialsView {
                        interval: crate::partials::gap_after(replies@.last().took.total()),
                        ..old(self)@.partials
                    }
                },
                ..old(self)@
            }),
            final(self)@.valid(),
    {
        self.partials.collect(replies);
    }

    /// The event for live text.
    pub fn partial_event(reply: Reply, at: Millis) -> (r: Event)
        ensures
            r@ == (EventView::Partial { at, id: reply.id, text: reply.text@ }),
    {
        Event::Partial { at, id: reply.id, text: reply.text }
    }

    /// Feed one event in. The resulting work is then performed command by command,
    /// until [`Engine::next_command`] has no more.
    ///
    /// Commands can produce further events — a finished transcription becomes a
    /// `Final`, which becomes an `Inject`, which becomes an `Injected` — so this
    /// fills a queue rather than recursing.
    pub fn pump(&mut self, event: Event)
        requires
            old(self)@.valid(),
            old(self)@.settled(),
            event is TriggerDown ==> old(self)@.session.can_start(),
        ensures
            final(self)@ == (EngineView { events: seq![event@], ..old(self)@ }),
            final(self)@.valid(),
    {
        let ghost before = self@;
        assert(event_views(self.events@).len() == self.events@.len());
        self.events.push_back(event);
        proof {
            assert(self@.events =~= seq![event@]);
            assert(self@.events.drop_last() =~= Seq::<EventView>::empty());
            assert(presses(self@.events.drop_last()) == 0);
            assert(self@ =~= (EngineView { events: seq![event@], ..before }));
        }
    }

    /// The next command to perform, if there is one.
    pub fn next_command(&mut self) -> (r: Option<Command>)
        requires
            old(self)@.valid(),
        ensures
            final(self)@ == old(self)@.next().0,
            match r {
                Some(command) => old(self)@.next().1 == Some(command@),
                None => old(self)@.next().1 is None && final(self)@.settled(),
            },
            final(self)@.valid(),
    {
        while self.commands.len() == 0
            invariant
                self@.valid(),
                old(self)@.next() == self@.next(),
            decreases self.events@.len(),
        {
            assert(event_views(self.events@).len() == self.events@.len());
            assert(command_views(self.commands@).len() == self.commands@.len());
            let ghost before = self@;
            let Some(event) = self.events.pop_front() else {
                return None;
            };
            proof {
                lemma_presses_pop(before.events);
                assert(event_views(self.events@) =~= before.events.skip(1));
                assert(before.events[0] == event@);
            }
            let completes = match (&event, self.session.phase()) {
                (Event::Injected { id, .. }, Phase::Injecting { id: current }) => *id == current,
                _ => false,
            };
            self.commands = self.session.handle(event);
            if completes {
                self.pending = self.session.last_latency();
            }
            proof {
                assert(self@ =~= (EngineView {
                    events: before.events.skip(1),
                    ..before.handled(before.events[0])
                }));
            }
        }
        let ghost before = self@;
        assert(command_views(self.commands@).len() == self.commands@.len());
        let command = self.commands.remove(0);
        proof {
            assert(command_views(self.commands@) =~= before.commands.skip(1));
            assert(before.commands[0] == command@);
            assert(self@ =~= (EngineView { commands: before.commands.skip(1), ..before }));
        }
        Some(command)
    }

    /// Can the outcome be taken in: is it one the command can have, and do the totals
    /// have room for it?
    pub fn can_execute(&self, command: &Command, outcome: &Outcome) -> (r: bool)
        requires
            self@.valid(),
        ensures
            r == (fits(command@, outcome@) && self@.has_room(command@, outcome@)),
    {
        match (command, outcome) {
            (Command::StopCapture { .. }, Outcome::Transcribed { spent, .. }) => match spent {
                Some((audio, inference)) => self.stats.has_time(*audio, *inference),
                None => true,
            },
            (Command::StopCapture { .. }, Outcome::Failed { .. }) => true,
            (Command::StopCapture { .. }, _) => false,
            (Command::Inject { text, .. }, Outcome::Injected { .. }) => self.stats.characters()
                <= usize::MAX - text.as_str().unicode_len(),
            (Command::Inject { .. }, Outcome::Failed { .. }) => true,
            (Command::Inject { .. }, _) => false,
            (_, Outcome::Done) => true,
            _ => false,
        }
    }

    /// Take in what came of performing a command. Returns whether one more utterance
    /// was completed, so that the report is worth showing: the overlay was hidden after
    /// text that reached the cursor and was not counted yet.
    ///
    /// Infallible on purpose: a device failure is an event for the session to act on,
    /// not an error that ends the loop.
    pub fn execute(&mut self, command: Command, outcome: Outcome) -> (completed: bool)
        requires
            old(self)@.valid(),
            fits(command@, outcome@),
            old(self)@.has_room(command@, outcome@),
        ensures
            old(self)@.performed(command@, outcome@, final(self)@),
            completed == (command@ == CommandView::Hud(HudView::Hidden)
                && old(self)@.pending is Some),
            final(self)@.valid(),
    {
        let ghost before = self@;
        let mut completed = false;
        match (command, outcome) {
            (Command::StartCapture { .. }, _) => {
                self.partials.reset();
            },
            (Command::StopCapture { id }, Outcome::Transcribed { at, text, spent }) => {
                if let Some((audio, inference)) = spent {
                    self.stats.record_audio(audio, inference);
                }
                self.report(Event::Final { at, id, text });
            },
            (Command::StopCapture { id }, Outcome::Failed { at, message }) => {
                self.report(Event::Failed { at, id, stage: Stage::Transcribe, message });
            },
            (Command::Inject { id, text }, Outcome::Injected { at }) => {
                self.stats.record_emission(text.as_str().unicode_len());
                self.report(Event::Injected { at, id });
            },
            (Command::Inject { id, .. }, Outcome::Failed { at, message }) => {
                self.report(Event::Failed { at, id, stage: Stage::Inject, message });
            },
            (Command::Hud(Hud::Hidden), _) => {
                if let Some(latency) = self.pending {
                    self.stats.record_latency(latency);
                    self.pending = None;
                    completed = true;
                }
            },
            _ => {},
        }
        completed
    }

    /// Queues a fact.
    fn report(&mut self, event: Event)
        requires
            old(self)@.valid(),
            !(event is TriggerDown),
        ensures
            final(self)@ == (EngineView { events: old(self)@.events.push(event@), ..old(self)@ }),
            final(self)@.valid(),
    {
        let ghost before = self@;
        self.events.push_back(event);
        proof {
            assert(self@.events =~= before.events.push(event@));
            assert(before.events.push(event@).drop_last() =~= before.events);
            assert(self@ =~= (EngineView { events: before.events.push(event@), ..before }));
        }
    }
}

} // verus!
