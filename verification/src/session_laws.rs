//! What holds of every dictation session, whatever events it is fed.

use crate::session::{CommandView, EventView, HudView, Mode, Phase, SessionView, UtteranceId};
use crate::time::Millis;
use vstd::prelude::*;

verus! {

/// A whole event log: the session after it, and every command it gave, in order.
pub open spec fn run(session: SessionView, log: Seq<EventView>) -> (SessionView, Seq<CommandView>)
    decreases log.len(),
{
    if log.len() == 0 {
        (session, Seq::empty())
    } else {
        let (before, commands) = run(session, log.drop_last());
        let (after, more) = before.step(log.last());
        (after, commands + more)
    }
}

/// There are ids left for every utterance the log could start.
pub open spec fn has_ids_for(session: SessionView, log: Seq<EventView>) -> bool {
    session.next_id + log.len() <= u64::MAX
}

/// Replaying a log in two parts is replaying it whole.
pub proof fn law_a_log_can_be_replayed_in_parts(
    session: SessionView,
    first: Seq<EventView>,
    second: Seq<EventView>,
)
    ensures
        run(session, first + second).0 == run(run(session, first).0, second).0,
        run(session, first + second).1 == run(session, first).1 + run(
            run(session, first).0,
            second,
        ).1,
    decreases second.len(),
{
    if second.len() == 0 {
        assert(first + second =~= first);
        assert(run(session, first).1 + Seq::<CommandView>::empty() =~= run(session, first).1);
    } else {
        law_a_log_can_be_replayed_in_parts(session, first, second.drop_last());
        assert((first + second).drop_last() =~= first + second.drop_last());
        assert((first + second).last() == second.last());
        let middle = run(session, first);
        let (before, commands) = run(middle.0, second.drop_last());
        let more = before.step(second.last()).1;
        assert((middle.1 + commands) + more =~= middle.1 + (commands + more));
    }
}

/// An event gives at most one injection, and only a transcript for the utterance
/// being finalized gives one: what is injected is that transcript, formatted.
pub proof fn law_only_the_awaited_transcript_is_injected(
    session: SessionView,
    event: EventView,
    i: int,
)
    requires
        0 <= i < session.step(event).1.len(),
        session.step(event).1[i] is Inject,
    ensures
        ({
            let command = session.step(event).1[i];
            &&& session.step(event).1.len() == 1
            &&& event matches EventView::Final { at, id, text }
            &&& session.phase == (Phase::Finalizing { id })
            &&& session.step(event).0.phase == (Phase::Injecting { id })
            &&& command->Inject_id == id
            &&& session.format.formats(
                text,
                SessionView::soon_after(at, session.last_emit, session.tuning.continuation_window),
            ) == Some(command->Inject_text)
        }),
{
}

/// Live text is shown only while capturing, only for the current utterance, and
/// never when there is none.
pub proof fn law_live_text_is_shown_only_while_capturing(
    session: SessionView,
    event: EventView,
    i: int,
)
    requires
        0 <= i < session.step(event).1.len(),
        session.step(event).1[i] matches CommandView::Hud(hud) && hud is Partial,
    ensures
        event matches EventView::Partial { id, text, .. } && session.phase is Capturing
            && session.phase.current() == Some(id) && text.len() > 0 && session.step(event).1
            == seq![CommandView::Hud(HudView::Partial { text })] && session.step(event).0
            == session,
{
}

/// Events that make no sense in the idle phase change nothing and give nothing.
pub proof fn law_an_idle_session_answers_only_the_trigger(session: SessionView, event: EventView)
    requires
        session.phase is Idle,
        !(event is TriggerDown),
    ensures
        session.step(event) == (session, Seq::<CommandView>::empty()),
{
}

/// An event about another utterance than the one in flight changes nothing and
/// gives nothing.
pub proof fn law_events_for_other_utterances_are_ignored(
    session: SessionView,
    event: EventView,
    id: UtteranceId,
)
    requires
        session.phase.current() != Some(id),
        event matches EventView::Partial { id: of, .. } ==> of == id,
        event matches EventView::Final { id: of, .. } ==> of == id,
        event matches EventView::Injected { id: of, .. } ==> of == id,
        event matches EventView::Failed { id: of, .. } ==> of == id,
        !(event is TriggerDown || event is TriggerUp || event is Cancel || event is Tick),
    ensures
        session.step(event) == (session, Seq::<CommandView>::empty()),
{
}

/// Every session stays valid: whatever is in flight is the utterance started last.
pub proof fn law_sessions_stay_valid(session: SessionView, log: Seq<EventView>)
    requires
        session.valid(),
        has_ids_for(session, log),
    ensures
        run(session, log).0.valid(),
        session.next_id <= run(session, log).0.next_id <= session.next_id + log.len(),
    decreases log.len(),
{
    if log.len() > 0 {
        law_sessions_stay_valid(session, log.drop_last());
    }
}

/// Every utterance in a session has an id of its own: captures start with ever
/// larger ids.
pub proof fn law_utterance_ids_are_unique(
    session: SessionView,
    log: Seq<EventView>,
    i: int,
    j: int,
)
    requires
        session.valid(),
        has_ids_for(session, log),
        0 <= i < j < run(session, log).1.len(),
        run(session, log).1[i] is StartCapture,
        run(session, log).1[j] is StartCapture,
    ensures
        run(session, log).1[i]->StartCapture_id < run(session, log).1[j]->StartCapture_id,
    decreases log.len(),
{
    let (before, commands) = run(session, log.drop_last());
    let (after, more) = before.step(log.last());
    let all = commands + more;
    law_sessions_stay_valid(session, log.drop_last());
    if j < commands.len() {
        assert(all[i] == commands[i]);
        assert(all[j] == commands[j]);
        law_utterance_ids_are_unique(session, log.drop_last(), i, j);
    } else {
        assert(all[j] == more[j - commands.len()]);
        assert(more[0] is StartCapture);
        if i < commands.len() {
            assert(all[i] == commands[i]);
            lemma_started_ids(session, log.drop_last(), i);
        } else {
            assert(all[i] == more[i - commands.len()]);
        }
    }
}

/// The ids a log's captures start with lie between the ids before and after it.
proof fn lemma_started_ids(session: SessionView, log: Seq<EventView>, i: int)
    requires
        session.valid(),
        has_ids_for(session, log),
        0 <= i < run(session, log).1.len(),
        run(session, log).1[i] is StartCapture,
    ensures
        session.next_id < run(session, log).1[i]->StartCapture_id <= run(session, log).0.next_id,
    decreases log.len(),
{
    let (before, commands) = run(session, log.drop_last());
    let (after, more) = before.step(log.last());
    law_sessions_stay_valid(session, log.drop_last());
    law_sessions_stay_valid(session, log);
    if i < commands.len() {
        assert((commands + more)[i] == commands[i]);
        lemma_started_ids(session, log.drop_last(), i);
    } else {
        assert((commands + more)[i] == more[i - commands.len()]);
    }
}

/// The utterance is over: it was started, and is no longer in flight.
pub open spec fn is_over(session: SessionView, id: UtteranceId) -> bool {
    id <= session.next_id && session.phase.current() != Some(id)
}

/// An utterance that is over never comes back.
pub proof fn law_an_utterance_that_is_over_stays_over(
    session: SessionView,
    log: Seq<EventView>,
    id: UtteranceId,
)
    requires
        session.valid(),
        has_ids_for(session, log),
        is_over(session, id),
    ensures
        is_over(run(session, log).0, id),
    decreases log.len(),
{
    if log.len() > 0 {
        law_an_utterance_that_is_over_stays_over(session, log.drop_last(), id);
        law_sessions_stay_valid(session, log.drop_last());
    }
}

/// An utterance that was cancelled, discarded, failed or timed out never injects
/// anything, whatever arrives for it later.
pub proof fn law_an_utterance_that_is_over_never_injects(
    session: SessionView,
    log: Seq<EventView>,
    id: UtteranceId,
    i: int,
)
    requires
        session.valid(),
        has_ids_for(session, log),
        is_over(session, id),
        0 <= i < run(session, log).1.len(),
        run(session, log).1[i] is Inject,
    ensures
        run(session, log).1[i]->Inject_id != id,
    decreases log.len(),
{
    let (before, commands) = run(session, log.drop_last());
    let (after, more) = before.step(log.last());
    if i < commands.len() {
        assert((commands + more)[i] == commands[i]);
        law_an_utterance_that_is_over_never_injects(session, log.drop_last(), id, i);
    } else {
        assert((commands + more)[i] == more[i - commands.len()]);
        law_an_utterance_that_is_over_stays_over(session, log.drop_last(), id);
        law_only_the_awaited_transcript_is_injected(before, log.last(), i - commands.len());
    }
}

/// Once an utterance has been injected, it is being injected or over.
proof fn lemma_injected_once(session: SessionView, log: Seq<EventView>, i: int)
    requires
        session.valid(),
        has_ids_for(session, log),
        0 <= i < run(session, log).1.len(),
        run(session, log).1[i] is Inject,
    ensures
        ({
            let id = run(session, log).1[i]->Inject_id;
            let after = run(session, log).0;
            after.phase == (Phase::Injecting { id }) || is_over(after, id)
        }),
    decreases log.len(),
{
    let (before, commands) = run(session, log.drop_last());
    let (after, more) = before.step(log.last());
    law_sessions_stay_valid(session, log.drop_last());
    if i < commands.len() {
        assert((commands + more)[i] == commands[i]);
        lemma_injected_once(session, log.drop_last(), i);
    } else {
        assert((commands + more)[i] == more[i - commands.len()]);
        law_only_the_awaited_transcript_is_injected(before, log.last(), i - commands.len());
    }
}

/// No utterance is injected twice.
pub proof fn law_no_utterance_is_injected_twice(
    session: SessionView,
    log: Seq<EventView>,
    i: int,
    j: int,
)
    requires
        session.valid(),
        has_ids_for(session, log),
        0 <= i < j < run(session, log).1.len(),
        run(session, log).1[i] is Inject,
        run(session, log).1[j] is Inject,
    ensures
        run(session, log).1[i]->Inject_id != run(session, log).1[j]->Inject_id,
    decreases log.len(),
{
    let (before, commands) = run(session, log.drop_last());
    let (after, more) = before.step(log.last());
    let all = commands + more;
    if j < commands.len() {
        assert(all[i] == commands[i]);
        assert(all[j] == commands[j]);
        law_no_utterance_is_injected_twice(session, log.drop_last(), i, j);
    } else {
        assert(all[j] == more[j - commands.len()]);
        law_only_the_awaited_transcript_is_injected(before, log.last(), j - commands.len());
        assert(more.len() == 1);
        assert(all[i] == commands[i]);
        lemma_injected_once(session, log.drop_last(), i);
    }
}

/// A tap emits nothing: it drops the capture, hides the overlay, arms the
/// double-tap and leaves the session idle.
pub proof fn law_a_tap_emits_nothing(session: SessionView, at: Millis)
    requires
        session.phase matches Phase::Capturing { mode: Mode::Hold, .. },
        at.after(session.marks.down).0 <= session.tuning.tap_max.0,
    ensures
        ({
            let (after, commands) = session.step(EventView::TriggerUp(at));
            &&& after == (SessionView { phase: Phase::Idle, last_tap: Some(at), ..session })
            &&& commands == seq![
                CommandView::Discard { id: session.phase->Capturing_id },
                CommandView::Hud(HudView::Hidden),
            ]
        }),
{
}

/// A press within the window after a tap enters hands-free capture, releasing the
/// key does not end that, and the next press does.
pub proof fn law_a_double_tap_locks_and_the_next_press_ends_it(
    session: SessionView,
    tap: Millis,
    down: Millis,
    up: Millis,
    again: Millis,
)
    requires
        session.phase is Idle,
        session.can_start(),
        session.hands_free,
        session.last_tap == Some(tap),
        down.after(tap).0 <= session.tuning.double_tap_window.0,
    ensures
        ({
            let id = (session.next_id + 1) as u64;
            let locked = session.step(EventView::TriggerDown(down)).0;
            let released = locked.step(EventView::TriggerUp(up));
            let (after, commands) = released.0.step(EventView::TriggerDown(again));
            &&& locked.phase == (Phase::Capturing { id, mode: Mode::Locked })
            &&& released == (locked, Seq::<CommandView>::empty())
            &&& after.phase == (Phase::Finalizing { id })
            &&& commands[0] == (CommandView::StopCapture { id })
        }),
{
}

/// A double-tap is an ordinary hold where hands-free capture is not allowed.
pub proof fn law_hands_free_can_be_turned_off(session: SessionView, at: Millis)
    requires
        session.phase is Idle,
        !session.hands_free,
    ensures
        session.step(EventView::TriggerDown(at)).0.phase matches Phase::Capturing {
            mode: Mode::Hold,
            ..
        },
{
}

/// A stuck key cannot record forever: a tick at or past the cap ends the capture.
pub proof fn law_no_capture_outlasts_the_cap(session: SessionView, at: Millis)
    requires
        session.phase is Capturing,
        at.after(session.marks.down).0 >= session.tuning.max_utterance.0,
    ensures
        session.step(EventView::Tick(at)).0.phase == (Phase::Finalizing {
            id: session.phase->Capturing_id,
        }),
        session.step(EventView::Tick(at)).1[0] == (CommandView::StopCapture {
            id: session.phase->Capturing_id,
        }),
{
}

/// A hung transcriber cannot hold the session: a tick at or past the timeout
/// releases it.
pub proof fn law_no_transcription_outlasts_the_timeout(session: SessionView, at: Millis)
    requires
        session.phase is Finalizing,
        at.after(session.marks.up).0 >= session.tuning.finalize_timeout.0,
    ensures
        session.step(EventView::Tick(at)).0.phase is Idle,
        session.step(EventView::Tick(at)).1[0] == (CommandView::Discard {
            id: session.phase->Finalizing_id,
        }),
{
}

/// Cancelling always leaves the session idle and emits no text.
pub proof fn law_cancelling_always_ends_the_utterance(session: SessionView, at: Millis)
    requires
        session.valid(),
    ensures
        session.step(EventView::Cancel(at)).0.phase is Idle,
        session.phase.current() matches Some(id) ==> is_over(
            session.step(EventView::Cancel(at)).0,
            id,
        ) && session.step(EventView::Cancel(at)).1 == seq![
            CommandView::Discard { id },
            CommandView::Hud(HudView::Hidden),
        ],
{
}

/// From a release to its text, no time is unaccounted for: where the clock does
/// not run backwards, transcribing and injecting add up to the whole.
pub proof fn law_latency_adds_up(session: SessionView, at: Millis)
    requires
        session.phase is Injecting,
        session.marks.up.0 <= session.marks.transcript.0 <= at.0,
    ensures
        ({
            let id = session.phase->Injecting_id;
            let after = session.step(EventView::Injected { at, id }).0;
            &&& after.last_latency matches Some(l)
            &&& l.release_to_text.0 == l.transcribe.0 + l.inject.0
            &&& l.release_to_text.0 == at.0 - session.marks.up.0
        }),
{
}

/// Dictations close together flow into one another: a transcript is formatted as a
/// continuation exactly when the last text was emitted no longer ago than the
/// window allows.
pub proof fn law_close_dictations_flow_together(
    session: SessionView,
    at: Millis,
    text: Seq<char>,
)
    requires
        session.phase is Finalizing,
    ensures
        ({
            let id = session.phase->Finalizing_id;
            let window = session.tuning.continuation_window;
            let flows = session.last_emit matches Some(emit) && at.after(emit).0 <= window.0;
            session.step(EventView::Final { at, id, text }).1 == (match session.format.formats(
                text,
                flows,
            ) {
                Some(out) => seq![CommandView::Inject { id, text: out }],
                None => seq![CommandView::Hud(HudView::Hidden)],
            })
        }),
{
}

/// One dictation from start to end: a hold that is long enough, its transcript and
/// its injection give one injection, leave the session idle, and record where the
/// time went.
pub proof fn law_a_hold_produces_one_injection(
    session: SessionView,
    down: Millis,
    up: Millis,
    transcribed: Millis,
    typed: Millis,
    text: Seq<char>,
)
    requires
        session.phase is Idle,
        !(session.hands_free && SessionView::soon_after(
            down,
            session.last_tap,
            session.tuning.double_tap_window,
        )),
        session.can_start(),
        up.after(down).0 > session.tuning.tap_max.0,
        session.format.formats(
            text,
            SessionView::soon_after(
                transcribed,
                session.last_emit,
                session.tuning.continuation_window,
            ),
        ) is Some,
    ensures
        ({
            let id = (session.next_id + 1) as u64;
            let out = session.format.formats(
                text,
                SessionView::soon_after(
                    transcribed,
                    session.last_emit,
                    session.tuning.continuation_window,
                ),
            )->0;
            let log = seq![
                EventView::TriggerDown(down),
                EventView::TriggerUp(up),
                EventView::Final { at: transcribed, id, text },
                EventView::Injected { at: typed, id },
            ];
            let (after, commands) = run(session, log);
            &&& after.phase is Idle
            &&& after.last_emit == Some(typed)
            &&& after.last_latency matches Some(l)
            &&& l.speaking == up.after(down)
            &&& l.transcribe == transcribed.after(up)
            &&& l.inject == typed.after(transcribed)
            &&& l.release_to_text == typed.after(up)
            &&& commands == seq![
                CommandView::StartCapture { id },
                CommandView::Hud(HudView::Listening { mode: Mode::Hold }),
                CommandView::StopCapture { id },
                CommandView::Hud(HudView::Thinking),
                CommandView::Inject { id, text: out },
                CommandView::Hud(HudView::Hidden),
            ]
        }),
{
    let id = (session.next_id + 1) as u64;
    let e0 = EventView::TriggerDown(down);
    let e1 = EventView::TriggerUp(up);
    let e2 = EventView::Final { at: transcribed, id, text };
    let e3 = EventView::Injected { at: typed, id };
    let log = seq![e0, e1, e2, e3];
    let none = Seq::<EventView>::empty();
    assert(log.drop_last() =~= seq![e0, e1, e2]);
    assert(seq![e0, e1, e2].drop_last() =~= seq![e0, e1]);
    assert(seq![e0, e1].drop_last() =~= seq![e0]);
    assert(seq![e0].drop_last() =~= none);
    assert(run(session, none) == (session, Seq::<CommandView>::empty()));
    let s1 = session.step(e0);
    assert(run(session, seq![e0]) == (s1.0, s1.1)) by {
        assert(Seq::<CommandView>::empty() + s1.1 =~= s1.1);
    }
    let s2 = s1.0.step(e1);
    assert(run(session, seq![e0, e1]) == (s2.0, s1.1 + s2.1));
    let s3 = s2.0.step(e2);
    assert(run(session, seq![e0, e1, e2]) == (s3.0, s1.1 + s2.1 + s3.1));
    let s4 = s3.0.step(e3);
    assert(run(session, log) == (s4.0, s1.1 + s2.1 + s3.1 + s4.1));
    let out = session.format.formats(
        text,
        SessionView::soon_after(
            transcribed,
            session.last_emit,
            session.tuning.continuation_window,
        ),
    )->0;
    assert(s1.1 + s2.1 + s3.1 + s4.1 =~= seq![
        CommandView::StartCapture { id },
        CommandView::Hud(HudView::Listening { mode: Mode::Hold }),
        CommandView::StopCapture { id },
        CommandView::Hud(HudView::Thinking),
        CommandView::Inject { id, text: out },
        CommandView::Hud(HudView::Hidden),
    ]);
}

} // verus!
