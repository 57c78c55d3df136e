//! What holds of the dictation loop, whatever the devices do.

use crate::engine::{fact, fits, EngineView, OutcomeView};
use crate::session::{
    CommandView, EventView, HudView, Latency, Phase, SessionView, Stage, UtteranceId,
};
use crate::time::Millis;
use vstd::prelude::*;

verus! {

/// The most work an event can lead to, itself counted.
pub open spec fn event_work(event: EventView) -> nat {
    match event {
        EventView::TriggerDown(_) => 8,
        EventView::TriggerUp(_) => 8,
        EventView::Tick(_) => 8,
        EventView::Final { .. } => 5,
        EventView::Failed { .. } => 3,
        EventView::Cancel(_) => 3,
        EventView::Injected { .. } => 2,
        EventView::Partial { .. } => 2,
    }
}

/// The most work a command can lead to, itself counted.
pub open spec fn command_work(command: CommandView) -> nat {
    match command {
        CommandView::StopCapture { .. } => 6,
        CommandView::Inject { .. } => 4,
        _ => 1,
    }
}

pub open spec fn events_work(events: Seq<EventView>) -> nat
    decreases events.len(),
{
    if events.len() == 0 {
        0
    } else {
        events_work(events.drop_last()) + event_work(events.last())
    }
}

pub open spec fn commands_work(commands: Seq<CommandView>) -> nat
    decreases commands.len(),
{
    if commands.len() == 0 {
        0
    } else {
        commands_work(commands.drop_last()) + command_work(commands.last())
    }
}

/// The most work that can be left.
pub open spec fn work_left(engine: EngineView) -> nat {
    events_work(engine.events) + commands_work(engine.commands)
}

proof fn lemma_events_front(events: Seq<EventView>)
    requires
        events.len() > 0,
    ensures
        events_work(events) == event_work(events[0]) + events_work(events.skip(1)),
    decreases events.len(),
{
    if events.len() > 1 {
        lemma_events_front(events.drop_last());
        assert(events.drop_last().skip(1) =~= events.skip(1).drop_last());
    } else {
        assert(events.skip(1) =~= Seq::<EventView>::empty());
        assert(events.drop_last() =~= Seq::<EventView>::empty());
        assert(events_work(events.drop_last()) == 0);
    }
}

proof fn lemma_commands_front(commands: Seq<CommandView>)
    requires
        commands.len() > 0,
    ensures
        commands_work(commands) == command_work(commands[0]) + commands_work(commands.skip(1)),
    decreases commands.len(),
{
    if commands.len() > 1 {
        lemma_commands_front(commands.drop_last());
        assert(commands.drop_last().skip(1) =~= commands.skip(1).drop_last());
    } else {
        assert(commands.skip(1) =~= Seq::<CommandView>::empty());
        assert(commands.drop_last() =~= Seq::<CommandView>::empty());
        assert(commands_work(commands.drop_last()) == 0);
    }
}

/// Handling an event leads to less work than the event stood for.
proof fn lemma_handling_uses_up_work(engine: EngineView, event: EventView)
    ensures
        commands_work(engine.session.step(event).1) < event_work(event),
{
    let commands = engine.session.step(event).1;
    assert(commands.len() <= 2);
    reveal_with_fuel(commands_work, 3);
    if commands.len() == 1 {
        assert(commands.drop_last() =~= Seq::<CommandView>::empty());
    } else if commands.len() == 2 {
        assert(commands.drop_last() =~= seq![commands[0]]);
        assert(seq![commands[0]].drop_last() =~= Seq::<CommandView>::empty());
    }
}

proof fn lemma_next_uses_up_work(engine: EngineView)
    ensures
        match engine.next() {
            (after, Some(command)) => work_left(after) + command_work(command) <= work_left(engine),
            (after, None) => work_left(after) <= work_left(engine),
        },
    decreases engine.events.len(),
{
    if engine.commands.len() > 0 {
        lemma_commands_front(engine.commands);
    } else if engine.events.len() > 0 {
        let handled = EngineView {
            events: engine.events.skip(1),
            ..engine.handled(engine.events[0])
        };
        lemma_events_front(engine.events);
        lemma_handling_uses_up_work(engine, engine.events[0]);
        lemma_next_uses_up_work(handled);
    }
}

/// Every command performed leaves less work than there was, whatever comes of
/// performing it, so the loop always comes to rest.
pub proof fn law_the_loop_comes_to_rest(
    before: EngineView,
    middle: EngineView,
    command: CommandView,
    outcome: OutcomeView,
    after: EngineView,
)
    requires
        before.next() == (middle, Some(command)),
        fits(command, outcome),
        middle.performed(command, outcome, after),
    ensures
        work_left(after) < work_left(before),
{
    lemma_next_uses_up_work(before);
    if let Some(event) = fact(command, outcome) {
        assert(middle.events.push(event).drop_last() =~= middle.events);
    }
}

/// One event leads to at most eight steps.
pub proof fn law_one_event_is_little_work(engine: EngineView, event: EventView)
    requires
        engine.settled(),
    ensures
        work_left(EngineView { events: seq![event], ..engine }) <= 8,
{
    assert(seq![event].drop_last() =~= Seq::<EventView>::empty());
    assert(events_work(seq![event].drop_last()) == 0);
    assert(commands_work(engine.commands) == 0);
}

/// A device that fails is reported and the session is released: the recording is
/// dropped, the user is told, and the next dictation can begin.
pub proof fn law_a_failure_releases_the_session(
    engine: EngineView,
    at: Millis,
    id: UtteranceId,
    stage: Stage,
    message: Seq<char>,
)
    requires
        engine.commands.len() == 0,
        engine.events == seq![EventView::Failed { at, id, stage, message }],
        engine.session.phase.current() == Some(id),
    ensures
        ({
            let (after, command) = engine.next();
            &&& command == Some(CommandView::Discard { id })
            &&& after.session.phase is Idle
            &&& after.next().1 == Some(
                CommandView::Hud(
                    HudView::Error { message: stage.text() + " failed: "@ + message },
                ),
            )
            &&& after.next().0.settled()
        }),
{
    let commands = engine.session.step(engine.events[0]).1;
    let handled = EngineView { events: engine.events.skip(1), ..engine.handled(engine.events[0]) };
    assert(engine.events.skip(1) =~= Seq::<EventView>::empty());
    assert(engine.next() == handled.next());
    let after = handled.next().0;
    assert(after.commands =~= commands.skip(1));
    assert(after.next().0.commands =~= Seq::<CommandView>::empty());
}

/// A transcript in hand becomes text at the cursor: the awaited transcript is
/// injected as it is formatted, and once it has arrived the utterance is counted and
/// the loop is at rest in the idle phase.
pub proof fn law_a_transcript_reaches_the_cursor(
    engine: EngineView,
    heard: Millis,
    typed: Millis,
    id: UtteranceId,
    text: Seq<char>,
    injected: EngineView,
    finished: EngineView,
)
    requires
        engine.commands.len() == 0,
        engine.events == seq![EventView::Final { at: heard, id, text }],
        engine.session.phase == (Phase::Finalizing { id }),
        engine.session.finalized(heard, id, text).1[0] is Inject,
        engine.next().0.performed(
            engine.next().1->0,
            OutcomeView::Injected { at: typed },
            injected,
        ),
        injected.next().0.performed(
            CommandView::Hud(HudView::Hidden),
            OutcomeView::Done,
            finished,
        ),
    ensures
        engine.next().1 == Some(engine.session.finalized(heard, id, text).1[0]),
        injected.next().1 == Some(CommandView::Hud(HudView::Hidden)),
        finished.settled(),
        finished.session.phase is Idle,
        finished.session.last_emit == Some(typed),
        finished.stats.release_to_text == engine.stats.release_to_text.push(
            typed.after(engine.session.marks.up),
        ),
        finished.pending is None,
{
    assert(engine.events.skip(1) =~= Seq::<EventView>::empty());
    let handled = EngineView { events: engine.events.skip(1), ..engine.handled(engine.events[0]) };
    assert(engine.next() == handled.next());
    let waiting = engine.next().0;
    assert(waiting.commands =~= Seq::<CommandView>::empty());
    let event = EventView::Injected { at: typed, id };
    assert(injected.events =~= seq![event]);
    assert(injected.events.skip(1) =~= Seq::<EventView>::empty());
    let answered = EngineView { events: injected.events.skip(1), ..injected.handled(event) };
    assert(injected.next() == answered.next());
    assert(answered.next().0.commands =~= Seq::<CommandView>::empty());
}

/// One move of the loop.
pub enum Move {
    /// An event is fed in while nothing is left to do.
    Pump(EventView),
    /// The next command is performed, and this comes of it.
    Perform(OutcomeView),
    /// There is no next command.
    Rest,
    /// Live text is requested or taken in, which sets the pace and nothing else.
    Pace,
}

/// The move takes the loop from `before` to `after`.
pub open spec fn moved(before: EngineView, step: Move, after: EngineView) -> bool {
    match step {
        Move::Pump(event) => before.settled() && after == (EngineView {
            events: seq![event],
            ..before
        }),
        Move::Perform(outcome) => before.next().1 matches Some(command) && fits(command, outcome)
            && before.next().0.performed(command, outcome, after),
        Move::Rest => before.next().1 is None && after == before.next().0,
        Move::Pace => after == (EngineView { partials: after.partials, ..before }),
    }
}

/// The loop went through these states by these moves.
pub open spec fn is_run(states: Seq<EngineView>, moves: Seq<Move>) -> bool {
    &&& states.len() == moves.len() + 1
    &&& forall|i: int|
        0 <= i < moves.len() ==> moved(states[i], #[trigger] moves[i], states[i + 1])
}

/// The utterances that are completed while the next command is sought: those whose
/// awaited `Injected` event is handled.
pub open spec fn completed_next(engine: EngineView) -> Seq<Latency>
    decreases engine.events.len(),
{
    if engine.commands.len() > 0 || engine.events.len() == 0 {
        Seq::empty()
    } else {
        let event = engine.events[0];
        let handled = EngineView { events: engine.events.skip(1), ..engine.handled(event) };
        (if engine.session.completes(event) {
            seq![handled.session.last_latency->0]
        } else {
            Seq::empty()
        }) + completed_next(handled)
    }
}

/// The utterances that a run completes, in order: one for each `Injected` event that
/// the session was waiting for.
pub open spec fn completions(states: Seq<EngineView>, moves: Seq<Move>) -> Seq<Latency>
    decreases moves.len(),
{
    if moves.len() == 0 {
        Seq::empty()
    } else {
        completions(states.drop_last(), moves.drop_last()) + (match moves.last() {
            Move::Perform(_) | Move::Rest => completed_next(states[moves.len() - 1]),
            _ => Seq::empty(),
        })
    }
}

/// Seeking the next command completes at most one utterance, and if it does, the
/// command hides the overlay.
proof fn lemma_completed_next(engine: EngineView)
    requires
        engine.pending is None,
    ensures
        ({
            let (after, command) = engine.next();
            let done = completed_next(engine);
            &&& after.stats == engine.stats
            &&& after.pending is None ==> done == Seq::<Latency>::empty()
            &&& after.pending matches Some(latency) ==> done == seq![latency] && command == Some(
                CommandView::Hud(HudView::Hidden),
            )
        }),
    decreases engine.events.len(),
{
    if engine.commands.len() == 0 && engine.events.len() > 0 {
        let event = engine.events[0];
        let handled = EngineView { events: engine.events.skip(1), ..engine.handled(event) };
        assert(engine.next() == handled.next());
        if engine.session.completes(event) {
            assert(handled.commands == seq![CommandView::Hud(HudView::Hidden)]);
            assert(handled.pending == handled.session.last_latency);
            assert(handled.next().1 == Some(CommandView::Hud(HudView::Hidden)));
            assert(handled.next().0.pending == handled.pending);
            assert(completed_next(handled) =~= Seq::<Latency>::empty());
            assert(completed_next(engine) =~= seq![handled.session.last_latency->0]);
        } else {
            lemma_completed_next(handled);
            assert(completed_next(engine) =~= completed_next(handled));
        }
    }
}

/// Every utterance is counted once, when it is completed: over any run of a new loop
/// the samples recorded, and the one still to be recorded if there is one, are as many
/// as the `Injected` events that were accepted, and they are the latencies of those in
/// order. Taps, cancelled utterances and empty transcripts count nothing.
pub proof fn law_every_utterance_is_counted_once(states: Seq<EngineView>, moves: Seq<Move>)
    requires
        is_run(states, moves),
        states[0] == EngineView::fresh(states[0].session),
    ensures
        ({
            let engine = states.last();
            let all = completions(states, moves);
            &&& engine.stats.release_to_text.len() + (if engine.pending is Some {
                1nat
            } else {
                0nat
            }) == all.len()
            &&& engine.pending is None
            &&& engine.stats.release_to_text == all.map_values(|l: Latency| l.release_to_text)
            &&& engine.stats.transcribe == all.map_values(|l: Latency| l.transcribe)
            &&& engine.stats.inject == all.map_values(|l: Latency| l.inject)
        }),
    decreases moves.len(),
{
    let engine = states.last();
    let all = completions(states, moves);
    if moves.len() > 0 {
        let front = states.drop_last();
        let n = moves.len() - 1;
        assert(is_run(front, moves.drop_last())) by {
            assert forall|i: int| 0 <= i < n implies moved(
                front[i],
                #[trigger] moves.drop_last()[i],
                front[i + 1],
            ) by {
                assert(moved(states[i], moves[i], states[i + 1]));
            }
        }
        law_every_utterance_is_counted_once(front, moves.drop_last());
        assert(moved(states[n], moves[n], states[n + 1]));
        let before = states[n];
        assert(front.last() == before);
        lemma_completed_next(before);
        let earlier = completions(front, moves.drop_last());
        let done = completed_next(before);
        match moves.last() {
            Move::Perform(_) | Move::Rest => {
                if done.len() == 0 {
                    assert(all =~= earlier);
                } else {
                    assert(all =~= earlier.push(done[0]));
                }
            },
            _ => {
                assert(all =~= earlier);
            },
        }
    }
    assert(engine.stats.release_to_text =~= all.map_values(|l: Latency| l.release_to_text));
    assert(engine.stats.transcribe =~= all.map_values(|l: Latency| l.transcribe));
    assert(engine.stats.inject =~= all.map_values(|l: Latency| l.inject));
}

/// What performing a command reports back: a recording that was stopped gives its
/// transcript, text that was to be injected gives its arrival, and either may fail at
/// its own stage. Nothing else reports anything.
pub proof fn law_what_outcomes_report(command: CommandView, outcome: OutcomeView)
    requires
        fits(command, outcome),
    ensures
        match command {
            CommandView::StopCapture { id } => match outcome {
                OutcomeView::Transcribed { at, text, .. } => fact(command, outcome) == Some(
                    EventView::Final { at, id, text },
                ),
                OutcomeView::Failed { at, message } => fact(command, outcome) == Some(
                    EventView::Failed { at, id, stage: Stage::Transcribe, message },
                ),
                _ => false,
            },
            CommandView::Inject { id, .. } => match outcome {
                OutcomeView::Injected { at } => fact(command, outcome) == Some(
                    EventView::Injected { at, id },
                ),
                OutcomeView::Failed { at, message } => fact(command, outcome) == Some(
                    EventView::Failed { at, id, stage: Stage::Inject, message },
                ),
                _ => false,
            },
            _ => outcome is Done && fact(command, outcome) is None,
        },
{
}

/// What performing a command changes: what it reports is queued behind what is queued
/// already, live text is paced afresh for a new recording, and the totals grow by what
/// was spent, typed or completed. The session and the commands in hand stay as they
/// are.
pub proof fn law_what_performing_changes(
    before: EngineView,
    command: CommandView,
    outcome: OutcomeView,
    after: EngineView,
)
    requires
        before.performed(command, outcome, after),
    ensures
        after.session == before.session,
        after.commands == before.commands,
        fact(command, outcome) is None ==> after.events == before.events,
        fact(command, outcome) matches Some(event) ==> after.events == before.events.push(event),
        after.partials.interval == before.partials.interval,
        command is StartCapture ==> after.partials.last_request is None,
        command !is StartCapture ==> after.partials.last_request == before.partials.last_request,
        ({
            let hides = command == CommandView::Hud(HudView::Hidden);
            &&& hides ==> after.pending is None
            &&& !hides ==> after.pending == before.pending
            &&& hides && before.pending is Some ==> {
                let l = before.pending->0;
                &&& after.stats.release_to_text == before.stats.release_to_text.push(
                    l.release_to_text,
                )
                &&& after.stats.transcribe == before.stats.transcribe.push(l.transcribe)
                &&& after.stats.inject == before.stats.inject.push(l.inject)
            }
            &&& !(hides && before.pending is Some) ==> {
                &&& after.stats.release_to_text == before.stats.release_to_text
                &&& after.stats.transcribe == before.stats.transcribe
                &&& after.stats.inject == before.stats.inject
            }
        }),
        match (command, outcome) {
            (CommandView::Inject { text, .. }, OutcomeView::Injected { .. }) =>
            after.stats.characters == before.stats.characters + text.len(),
            _ => after.stats.characters == before.stats.characters,
        },
        match (command, outcome) {
            (
                CommandView::StopCapture { .. },
                OutcomeView::Transcribed { spent: Some((audio, inference)), .. },
            ) => after.stats.audio.total() == before.stats.audio.total() + audio.total()
                && after.stats.inference.total() == before.stats.inference.total()
                + inference.total(),
            _ => after.stats.audio == before.stats.audio && after.stats.inference
                == before.stats.inference,
        },
{
}

/// Work comes in order: first the commands in hand, then the next event, whose
/// commands are then in hand. Nothing else moves.
pub proof fn law_work_comes_in_order(engine: EngineView)
    ensures
        engine.commands.len() > 0 ==> engine.next() == (
            EngineView { commands: engine.commands.skip(1), ..engine },
            Some(engine.commands[0]),
        ),
        engine.commands.len() == 0 && engine.events.len() == 0 ==> engine.next() == (
            engine,
            None::<CommandView>,
        ),
        engine.commands.len() == 0 && engine.events.len() > 0 ==> {
            let event = engine.events[0];
            let (session, commands) = engine.session.step(event);
            let completes = event matches EventView::Injected { id, .. } && engine.session.phase
                == (Phase::Injecting { id });
            engine.next() == (EngineView {
                session,
                commands,
                events: engine.events.skip(1),
                pending: if completes {
                    session.last_latency
                } else {
                    engine.pending
                },
                ..engine
            }).next()
        },
{
    if engine.commands.len() == 0 && engine.events.len() > 0 {
        let event = engine.events[0];
        let (session, commands) = engine.session.step(event);
        let completes = event matches EventView::Injected { id, .. } && engine.session.phase
            == (Phase::Injecting { id });
        assert((EngineView {
            events: engine.events.skip(1),
            ..engine.handled(event)
        }) =~= (EngineView {
            session,
            commands,
            events: engine.events.skip(1),
            pending: if completes {
                session.last_latency
            } else {
                engine.pending
            },
            ..engine
        }));
    }
}

/// A new loop has nothing to do and has counted nothing.
pub proof fn law_a_new_loop_is_at_rest(session: SessionView)
    ensures
        ({
            let engine = EngineView::fresh(session);
            &&& engine.session == session
            &&& engine.events.len() == 0 && engine.commands.len() == 0
            &&& engine.pending is None
            &&& engine.stats.release_to_text.len() == 0 && engine.stats.transcribe.len() == 0
            &&& engine.stats.inject.len() == 0 && engine.stats.characters == 0
            &&& engine.stats.audio.total() == 0 && engine.stats.inference.total() == 0
            &&& engine.partials.last_request is None
        }),
{
}

} // verus!
