//! What a session does on an event, told from what has happened to it so far rather
//! than from what it remembers.

use crate::session::{
    CommandView, EventView, HudView, Mode, Phase, SessionView, Tuning, UtteranceId,
};
use crate::phase_laws::gap;
use crate::session_laws::{has_ids_for, law_a_log_can_be_replayed_in_parts, run};
use crate::text::FormatView;
use crate::time::Millis;
use vstd::prelude::*;

verus! {

/// When the event happened.
pub open spec fn time_of(event: EventView) -> Millis {
    match event {
        EventView::TriggerDown(at) => at,
        EventView::TriggerUp(at) => at,
        EventView::Partial { at, .. } => at,
        EventView::Final { at, .. } => at,
        EventView::Injected { at, .. } => at,
        EventView::Failed { at, .. } => at,
        EventView::Cancel(at) => at,
        EventView::Tick(at) => at,
    }
}

/// `at` is no more than `window` after an earlier moment, if there is one.
pub open spec fn within(at: Millis, earlier: Option<Millis>, window: Millis) -> bool {
    earlier matches Some(t) && gap(at, t) <= window.0
}

/// The event reports something about this utterance.
pub open spec fn reports_on(event: EventView, id: UtteranceId) -> bool {
    ||| event matches EventView::Partial { id: of, .. } && of == id
    ||| event matches EventView::Final { id: of, .. } && of == id
    ||| event matches EventView::Injected { id: of, .. } && of == id
    ||| event matches EventView::Failed { id: of, .. } && of == id
}

/// A session that is fed a log one event at a time: where it stands before each event
/// and at the end, and how it answers each.
pub open spec fn is_replay(
    states: Seq<SessionView>,
    answers: Seq<Seq<CommandView>>,
    log: Seq<EventView>,
) -> bool {
    &&& states.len() == log.len() + 1
    &&& answers.len() == log.len()
    &&& forall|i: int|
        0 <= i < log.len() ==> (states[i + 1], answers[i]) == (#[trigger] states[i]).step(log[i])
}

/// Two sessions that begin alike and are fed the same log answer it alike and end
/// alike: the commands are a function of the tuning, the formatting and the log.
pub proof fn law_the_same_log_is_answered_alike(
    tuning: Tuning,
    format: FormatView,
    log: Seq<EventView>,
    a: Seq<SessionView>,
    a_answers: Seq<Seq<CommandView>>,
    b: Seq<SessionView>,
    b_answers: Seq<Seq<CommandView>>,
)
    requires
        is_replay(a, a_answers, log),
        is_replay(b, b_answers, log),
        a[0] == SessionView::fresh(tuning, format),
        b[0] == SessionView::fresh(tuning, format),
    ensures
        a_answers == b_answers,
        a.last() == b.last(),
        a.last().phase == b.last().phase,
        a.last().last_latency == b.last().last_latency,
{
    lemma_replays_agree(log, a, a_answers, b, b_answers, log.len());
    assert forall|i: int| 0 <= i < log.len() implies a_answers[i] == b_answers[i] by {
        lemma_replays_agree(log, a, a_answers, b, b_answers, i as nat);
        assert((a[i + 1], a_answers[i]) == a[i].step(log[i]));
        assert((b[i + 1], b_answers[i]) == b[i].step(log[i]));
    }
    assert(a_answers =~= b_answers);
}

proof fn lemma_replays_agree(
    log: Seq<EventView>,
    a: Seq<SessionView>,
    a_answers: Seq<Seq<CommandView>>,
    b: Seq<SessionView>,
    b_answers: Seq<Seq<CommandView>>,
    n: nat,
)
    requires
        is_replay(a, a_answers, log),
        is_replay(b, b_answers, log),
        a[0] == b[0],
        n <= log.len(),
    ensures
        a[n as int] == b[n as int],
    decreases n,
{
    if n > 0 {
        lemma_replays_agree(log, a, a_answers, b, b_answers, (n - 1) as nat);
        assert((a[n as int], a_answers[n - 1]) == a[n - 1].step(log[n - 1]));
        assert((b[n as int], b_answers[n - 1]) == b[n - 1].step(log[n - 1]));
    }
}

/// Commands go with changes of phase. A capture starts exactly where an idle session
/// begins to capture, stops exactly where a capture is to be finalized, and text is
/// injected exactly where finalizing turns into injecting. Every other change is back
/// to idle, and only an utterance in flight is discarded.
pub proof fn law_commands_go_with_changes_of_phase(
    session: SessionView,
    event: EventView,
    id: UtteranceId,
)
    ensures
        ({
            let (after, out) = session.step(event);
            let starts = session.phase is Idle && after.phase is Capturing
                && after.phase.current() == Some(id);
            let stops = session.phase is Capturing && session.phase.current() == Some(id)
                && after.phase == (Phase::Finalizing { id });
            let injects = session.phase == (Phase::Finalizing { id }) && after.phase
                == (Phase::Injecting { id });
            &&& out.contains(CommandView::StartCapture { id }) <==> starts
            &&& out.contains(CommandView::StopCapture { id }) <==> stops
            &&& (exists|text: Seq<char>| #[trigger]
                out.contains(CommandView::Inject { id, text })) <==> injects
            &&& out.contains(CommandView::Discard { id }) ==> session.phase.current() == Some(id)
                && after.phase is Idle
        }),
{
    let (after, out) = session.step(event);
    if out.len() > 0 {
        assert(out.contains(out[0]));
    }
    if session.phase == (Phase::Finalizing { id }) && after.phase == (Phase::Injecting { id }) {
        assert(out[0] is Inject);
        assert(out.contains(CommandView::Inject { id, text: out[0]->Inject_text }));
    }
}

/// A phase changes only from idle to capturing, from capturing to finalizing, from
/// finalizing to injecting, each for one utterance, or back to idle.
pub proof fn law_phases_follow_one_another(session: SessionView, event: EventView)
    ensures
        ({
            let after = session.step(event).0.phase;
            after != session.phase ==> {
                ||| after is Idle
                ||| session.phase is Idle && after is Capturing
                ||| session.phase is Capturing && after is Finalizing && session.phase.current()
                    == after.current()
                ||| session.phase is Finalizing && after is Injecting && session.phase.current()
                    == after.current()
            }
        }),
{
}

/// A report on an utterance that is not in flight gives no command. An event that
/// gives none leaves the session as it was, and everything later is answered as if it
/// had never arrived.
pub proof fn law_an_event_without_an_answer_leaves_no_trace(
    session: SessionView,
    event: EventView,
    id: UtteranceId,
    later: Seq<EventView>,
)
    ensures
        reports_on(event, id) && session.phase.current() != Some(id) ==> session.step(event).1.len()
            == 0,
        session.step(event).1.len() == 0 ==> {
            &&& session.step(event).0 == session
            &&& run(session, seq![event] + later) == run(session, later)
        },
{
    if session.step(event).1.len() == 0 {
        assert(session.step(event).0 == session);
        lemma_one_event(session, event);
        law_a_log_can_be_replayed_in_parts(session, seq![event], later);
        assert(run(session, seq![event]).1 + run(session, later).1 =~= run(session, later).1);
    }
}

proof fn lemma_one_event(session: SessionView, event: EventView)
    ensures
        run(session, seq![event]) == session.step(event),
{
    let log = seq![event];
    assert(log.drop_last() =~= Seq::<EventView>::empty());
    assert(run(session, log.drop_last()) == (session, Seq::<CommandView>::empty()));
    assert(Seq::<CommandView>::empty() + session.step(event).1 =~= session.step(event).1);
}

/// Text is injected only in answer to the transcript that is awaited, and alone: never
/// for a partial one, nor on any other event.
pub proof fn law_an_injection_is_the_whole_answer_to_a_transcript(
    session: SessionView,
    event: EventView,
    id: UtteranceId,
    text: Seq<char>,
)
    requires
        session.step(event).1.contains(CommandView::Inject { id, text }),
    ensures
        event matches EventView::Final { id: of, .. } && of == id,
        session.phase == (Phase::Finalizing { id }),
        session.step(event).1 == seq![CommandView::Inject { id, text }],
{
    let out = session.step(event).1;
    assert(out =~= seq![CommandView::Inject { id, text }]);
}

/// A session that has seen nothing yet, with hands-free capture allowed or not.
pub open spec fn is_new(session: SessionView) -> bool {
    session == SessionView {
        hands_free: session.hands_free,
        ..SessionView::fresh(session.tuning, session.format)
    }
}

/// The event is a release, and what it released is discarded: a tap.
pub open spec fn is_tap(session: SessionView, event: EventView) -> bool {
    event is TriggerUp && session.step(event).1.len() > 0 && session.step(event).1[0] is Discard
}

/// When the last tap was released, unless a press has come after it.
pub open spec fn unused_tap(start: SessionView, log: Seq<EventView>) -> Option<Millis>
    decreases log.len(),
{
    if log.len() == 0 {
        None
    } else if is_tap(run(start, log.drop_last()).0, log.last()) {
        Some(time_of(log.last()))
    } else if log.last() is TriggerDown {
        None
    } else {
        unused_tap(start, log.drop_last())
    }
}

/// When text last reached the cursor: the time of the last injection that the session
/// was waiting for.
pub open spec fn last_accepted(start: SessionView, log: Seq<EventView>) -> Option<Millis>
    decreases log.len(),
{
    if log.len() == 0 {
        None
    } else if run(start, log.drop_last()).0.completes(log.last()) {
        Some(time_of(log.last()))
    } else {
        last_accepted(start, log.drop_last())
    }
}

/// The utterances that the commands start, in order.
pub open spec fn started(commands: Seq<CommandView>) -> Seq<UtteranceId>
    decreases commands.len(),
{
    if commands.len() == 0 {
        Seq::empty()
    } else {
        match commands.last() {
            CommandView::StartCapture { id } => started(commands.drop_last()).push(id),
            _ => started(commands.drop_last()),
        }
    }
}

/// A point that an utterance reaches.
pub enum Point {
    Started,
    Stopped,
    Transcribed,
}

/// The answer takes the utterance to the point.
pub open spec fn reaches(answer: Seq<CommandView>, point: Point, id: UtteranceId) -> bool {
    answer.len() > 0 && match point {
        Point::Started => answer[0] == CommandView::StartCapture { id },
        Point::Stopped => answer[0] == CommandView::StopCapture { id },
        Point::Transcribed => answer[0] matches CommandView::Inject { id: of, .. } && of == id,
    }
}

/// When the utterance reached the point: the time of the event whose answer took it
/// there.
pub open spec fn reached(
    start: SessionView,
    log: Seq<EventView>,
    point: Point,
    id: UtteranceId,
) -> Option<Millis>
    decreases log.len(),
{
    if log.len() == 0 {
        None
    } else if reaches(run(start, log.drop_last()).0.step(log.last()).1, point, id) {
        Some(time_of(log.last()))
    } else {
        reached(start, log.drop_last(), point, id)
    }
}

proof fn lemma_started_apart(a: Seq<CommandView>, b: Seq<CommandView>)
    ensures
        started(a + b) == started(a) + started(b),
    decreases b.len(),
{
    if b.len() == 0 {
        assert(a + b =~= a);
        assert(started(a) + started(b) =~= started(a));
    } else {
        lemma_started_apart(a, b.drop_last());
        assert((a + b).drop_last() =~= a + b.drop_last());
        assert(started(a + b) =~= started(a) + started(b));
    }
}

proof fn lemma_started_by(session: SessionView, event: EventView)
    ensures
        started(session.step(event).1) == (if session.starts(event) {
            seq![(session.next_id + 1) as u64]
        } else {
            Seq::empty()
        }),
        session.step(event).0.next_id == (if session.starts(event) {
            (session.next_id + 1) as u64
        } else {
            session.next_id
        }),
{
    let out = session.step(event).1;
    reveal_with_fuel(started, 3);
    if out.len() == 1 {
        assert(out.drop_last() =~= Seq::<CommandView>::empty());
    } else if out.len() == 2 {
        assert(out.drop_last().drop_last() =~= Seq::<CommandView>::empty());
        assert(out.drop_last().last() == out[0]);
    }
    assert(started(out) =~= if session.starts(event) {
        seq![(session.next_id + 1) as u64]
    } else {
        Seq::empty()
    });
}

/// A session remembers what has happened to it: the tap that no press has used, when
/// text last reached the cursor, how many utterances it started, and when the one in
/// flight reached each point. What it was made with never changes.
pub proof fn law_a_session_remembers_its_log(start: SessionView, log: Seq<EventView>)
    requires
        is_new(start),
        has_ids_for(start, log),
    ensures
        ({
            let (session, commands) = run(start, log);
            &&& session.tuning == start.tuning
            &&& session.format == start.format
            &&& session.hands_free == start.hands_free
            &&& session.valid()
            &&& session.last_tap == unused_tap(start, log)
            &&& session.phase !is Idle ==> unused_tap(start, log) is None
            &&& session.last_emit == last_accepted(start, log)
            &&& session.next_id == started(commands).len()
            &&& session.next_id <= log.len()
            &&& session.phase.current() matches Some(id) ==> reached(
                start,
                log,
                Point::Started,
                id,
            ) == Some(session.marks.down)
            &&& session.phase matches Phase::Finalizing { id } ==> reached(
                start,
                log,
                Point::Stopped,
                id,
            ) == Some(session.marks.up)
            &&& session.phase matches Phase::Injecting { id } ==> reached(
                start,
                log,
                Point::Stopped,
                id,
            ) == Some(session.marks.up) && reached(start, log, Point::Transcribed, id) == Some(
                session.marks.transcript,
            )
        }),
    decreases log.len(),
{
    if log.len() > 0 {
        let (before, commands) = run(start, log.drop_last());
        law_a_session_remembers_its_log(start, log.drop_last());
        lemma_started_by(before, log.last());
        lemma_started_apart(commands, before.step(log.last()).1);
    }
}

/// Utterance ids run one, two, three and so on, whatever becomes of the utterances.
pub proof fn law_utterance_ids_count_up_from_one(start: SessionView, log: Seq<EventView>)
    requires
        is_new(start),
        has_ids_for(start, log),
    ensures
        forall|k: int|
            0 <= k < started(run(start, log).1).len() ==> #[trigger] started(run(start, log).1)[k]
                == k + 1,
    decreases log.len(),
{
    if log.len() > 0 {
        let (before, commands) = run(start, log.drop_last());
        law_utterance_ids_count_up_from_one(start, log.drop_last());
        law_a_session_remembers_its_log(start, log.drop_last());
        lemma_started_by(before, log.last());
        lemma_started_apart(commands, before.step(log.last()).1);
    }
}

/// What a press does. On an idle session it starts the next utterance, hands-free
/// exactly when that is allowed and a tap that no press has used was released no
/// longer ago than the window; the tap is then used up. On a hands-free capture it
/// stops it. Anywhere else it does nothing.
pub proof fn law_what_a_press_does(start: SessionView, log: Seq<EventView>, at: Millis)
    requires
        is_new(start),
        has_ids_for(start, log.push(EventView::TriggerDown(at))),
    ensures
        ({
            let press = EventView::TriggerDown(at);
            let (session, commands) = run(start, log);
            let (after, out) = session.step(press);
            match session.phase {
                Phase::Idle => {
                    let id = (started(commands).len() + 1) as u64;
                    let mode = if start.hands_free && within(
                        at,
                        unused_tap(start, log),
                        start.tuning.double_tap_window,
                    ) {
                        Mode::Locked
                    } else {
                        Mode::Hold
                    };
                    &&& id == started(commands).len() + 1
                    &&& out == seq![
                        CommandView::StartCapture { id },
                        CommandView::Hud(HudView::Listening { mode }),
                    ]
                    &&& after.phase == (Phase::Capturing { id, mode })
                    &&& unused_tap(start, log.push(press)) is None
                },
                Phase::Capturing { id, mode: Mode::Locked } => {
                    &&& out == seq![
                        CommandView::StopCapture { id },
                        CommandView::Hud(HudView::Thinking),
                    ]
                    &&& after.phase == (Phase::Finalizing { id })
                },
                _ => out.len() == 0 && after == session,
            }
        }),
{
    let all = log.push(EventView::TriggerDown(at));
    assert(all.drop_last() =~= log);
    law_a_session_remembers_its_log(start, log);
}

/// What the awaited transcript does: it is formatted, as a continuation exactly when
/// text last reached the cursor no longer ago than the window, and injected if
/// anything is left of it. Only an injection that was awaited moves that moment.
pub proof fn law_what_a_transcript_does(
    start: SessionView,
    log: Seq<EventView>,
    at: Millis,
    text: Seq<char>,
)
    requires
        is_new(start),
        has_ids_for(start, log),
        run(start, log).0.phase is Finalizing,
    ensures
        ({
            let session = run(start, log).0;
            let id = session.phase->Finalizing_id;
            let (after, out) = session.step(EventView::Final { at, id, text });
            let continuation = within(
                at,
                last_accepted(start, log),
                start.tuning.continuation_window,
            );
            match start.format.formats(text, continuation) {
                Some(typed) => {
                    &&& out == seq![CommandView::Inject { id, text: typed }]
                    &&& after.phase == (Phase::Injecting { id })
                },
                None => {
                    &&& out == seq![CommandView::Hud(HudView::Hidden)]
                    &&& after.phase is Idle
                },
            }
        }),
{
    law_a_session_remembers_its_log(start, log);
}

/// What the awaited injection does: it hides the overlay, and the time the utterance
/// took is split at its press, its stop and its transcript. Where the clock does not
/// run backwards, transcribing and injecting add up to what the user waits.
pub proof fn law_what_an_injection_does(start: SessionView, log: Seq<EventView>, at: Millis)
    requires
        is_new(start),
        has_ids_for(start, log),
        run(start, log).0.phase is Injecting,
    ensures
        ({
            let session = run(start, log).0;
            let id = session.phase->Injecting_id;
            let (after, out) = session.step(EventView::Injected { at, id });
            &&& out == seq![CommandView::Hud(HudView::Hidden)]
            &&& after.phase is Idle
            &&& reached(start, log, Point::Started, id) matches Some(down)
            &&& reached(start, log, Point::Stopped, id) matches Some(up)
            &&& reached(start, log, Point::Transcribed, id) matches Some(transcript)
            &&& after.last_latency matches Some(l)
            &&& l.speaking.0 == gap(up, down)
            &&& l.transcribe.0 == gap(transcript, up)
            &&& l.inject.0 == gap(at, transcript)
            &&& l.release_to_text.0 == gap(at, up)
            &&& down.0 <= up.0 <= transcript.0 <= at.0 ==> {
                &&& l.speaking.0 == up.0 - down.0
                &&& l.transcribe.0 == transcript.0 - up.0
                &&& l.inject.0 == at.0 - transcript.0
                &&& l.release_to_text.0 == l.transcribe.0 + l.inject.0
            }
        }),
{
    law_a_session_remembers_its_log(start, log);
}

/// The latency that was measured last changes on no event but an awaited injection.
pub proof fn law_only_an_injection_is_timed(session: SessionView, event: EventView)
    requires
        !session.completes(event),
    ensures
        session.step(event).0.last_latency == session.last_latency,
{
}

} // verus!
