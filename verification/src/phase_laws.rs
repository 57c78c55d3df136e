//! What each event does to a session in each phase, in plain arithmetic on the times
//! that the events carry.

use crate::session::{
    CommandView, EventView, HudView, Marks, Mode, Phase, SessionView, Stage, UtteranceId,
};
use crate::session_laws::run;
use crate::time::Millis;
use vstd::prelude::*;

verus! {

/// Milliseconds from `earlier` to `at`; none where the clock ran backwards.
pub open spec fn gap(at: Millis, earlier: Millis) -> int {
    if at.0 > earlier.0 {
        at.0 - earlier.0
    } else {
        0
    }
}

/// The event ends the listening: a release of a held key after more than a tap, a
/// press while hands-free, or a tick once the longest utterance is reached.
pub open spec fn ends_listening(session: SessionView, event: EventView) -> bool {
    session.phase matches Phase::Capturing { mode, .. } && match event {
        EventView::TriggerUp(at) => mode == Mode::Hold && gap(at, session.marks.down)
            > session.tuning.tap_max.0,
        EventView::TriggerDown(_) => mode == Mode::Locked,
        EventView::Tick(at) => gap(at, session.marks.down) >= session.tuning.max_utterance.0,
        _ => false,
    }
}

/// The event is the release of a held key soon enough to be a tap.
pub open spec fn taps(session: SessionView, event: EventView) -> bool {
    &&& session.phase matches Phase::Capturing { mode, .. }
    &&& mode == Mode::Hold
    &&& event matches EventView::TriggerUp(at)
    &&& gap(at, session.marks.down) <= session.tuning.tap_max.0
}

/// The event gives the utterance up: it is cancelled, a stage of it failed, or its
/// transcript is overdue.
pub open spec fn gives_up(session: SessionView, event: EventView) -> bool {
    match event {
        EventView::Cancel(_) => session.phase !is Idle,
        EventView::Failed { id, .. } => session.phase.current() == Some(id),
        EventView::Tick(at) => session.phase is Finalizing && gap(at, session.marks.up)
            >= session.tuning.finalize_timeout.0,
        _ => false,
    }
}

/// A capture is stopped by a release of a held key after more than a tap, by a press
/// while hands-free, or by a tick once the longest utterance is reached, and by
/// nothing else. Where it is, the time is noted and nothing else changes.
pub proof fn law_what_ends_the_listening(session: SessionView, event: EventView)
    ensures
        ends_listening(session, event) <==> session.phase is Capturing && session.step(
            event,
        ).0.phase is Finalizing,
        ends_listening(session, event) ==> {
            let id = session.phase->Capturing_id;
            let at = match event {
                EventView::TriggerUp(at) => at,
                EventView::TriggerDown(at) => at,
                EventView::Tick(at) => at,
                _ => Millis(0),
            };
            &&& session.step(event).1 == seq![
                CommandView::StopCapture { id },
                CommandView::Hud(HudView::Thinking),
            ]
            &&& session.step(event).0 == (SessionView {
                phase: Phase::Finalizing { id },
                marks: Marks { up: at, ..session.marks },
                ..session
            })
        },
{
}

/// Until something ends, drops or reports on it, a capture goes on: ticks before the
/// longest utterance is reached, a release while hands-free and a second press of a
/// held key change nothing and give nothing.
pub proof fn law_a_capture_goes_on(session: SessionView, event: EventView)
    requires
        session.phase is Capturing,
        !ends_listening(session, event),
        !taps(session, event),
        !gives_up(session, event),
    ensures
        session.step(event).0 == session,
        session.step(event).1 == (match event {
            EventView::Partial { id, text, .. } => if session.phase->Capturing_id == id
                && text.len() > 0 {
                seq![CommandView::Hud(HudView::Partial { text })]
            } else {
                Seq::empty()
            },
            _ => Seq::<CommandView>::empty(),
        }),
        event matches EventView::Tick(at) && gap(at, session.marks.down)
            < session.tuning.max_utterance.0 ==> session.step(event).1.len() == 0,
{
}

/// A tap drops the capture, hides the overlay and is remembered, and nothing else is.
pub proof fn law_a_tap_is_remembered(session: SessionView, event: EventView)
    requires
        taps(session, event),
    ensures
        session.step(event).0 == (SessionView {
            phase: Phase::Idle,
            last_tap: Some(event->TriggerUp_0),
            ..session
        }),
        session.step(event).1 == seq![
            CommandView::Discard { id: session.phase->Capturing_id },
            CommandView::Hud(HudView::Hidden),
        ],
{
}

/// An utterance that is given up is discarded, the overlay says why, and the session
/// is idle, remembering all else as it did.
pub proof fn law_what_giving_up_does(session: SessionView, event: EventView)
    requires
        gives_up(session, event),
    ensures
        session.step(event).0 == (SessionView { phase: Phase::Idle, ..session }),
        session.phase.current() is Some,
        session.step(event).1 == seq![
            CommandView::Discard { id: session.phase.current()->0 },
            CommandView::Hud(
                match event {
                    EventView::Failed { stage, message, .. } => HudView::Error {
                        message: (match stage {
                            Stage::Capture => "Capture"@,
                            Stage::Transcribe => "Transcribe"@,
                            Stage::Inject => "Inject"@,
                        }) + " failed: "@ + message,
                    },
                    EventView::Tick(_) => HudView::Error { message: "transcription timed out"@ },
                    _ => HudView::Hidden,
                },
            ),
        ],
{
}

/// An utterance is discarded only as a tap, or where it is given up.
pub proof fn law_what_discards_an_utterance(
    session: SessionView,
    event: EventView,
    id: UtteranceId,
)
    requires
        session.step(event).1.contains(CommandView::Discard { id }),
    ensures
        taps(session, event) || gives_up(session, event),
        session.phase.current() == Some(id),
{
}

/// An idle session answers a press and nothing else. The press starts the next
/// utterance: hands-free exactly when that is allowed and a tap is remembered that was
/// released no longer ago than the window. The tap is then forgotten.
pub proof fn law_what_starts_an_utterance(session: SessionView, event: EventView)
    requires
        session.phase is Idle,
        session.next_id < u64::MAX,
    ensures
        event !is TriggerDown ==> session.step(event) == (session, Seq::<CommandView>::empty()),
        event matches EventView::TriggerDown(at) ==> {
            let id = (session.next_id + 1) as u64;
            let locks = session.hands_free && (session.last_tap matches Some(tap) && gap(at, tap)
                <= session.tuning.double_tap_window.0);
            let mode = if locks {
                Mode::Locked
            } else {
                Mode::Hold
            };
            &&& id == session.next_id + 1
            &&& session.step(event).1 == seq![
                CommandView::StartCapture { id },
                CommandView::Hud(HudView::Listening { mode }),
            ]
            &&& session.step(event).0.phase == (Phase::Capturing { id, mode })
            &&& session.step(event).0.marks.down == at
            &&& session.step(event).0 == (SessionView {
                phase: Phase::Capturing { id, mode },
                next_id: id,
                last_tap: None,
                marks: session.step(event).0.marks,
                ..session
            })
        },
{
}

/// While a transcript is awaited, only that transcript and what gives the utterance up
/// make a difference. The transcript is formatted as a continuation exactly when text
/// last reached the cursor no longer ago than the window; what is left of it is
/// injected, and where nothing is, the overlay is hidden.
pub proof fn law_what_a_finalizing_session_does(session: SessionView, event: EventView)
    requires
        session.phase is Finalizing,
        !gives_up(session, event),
    ensures
        match event {
            EventView::Final { at, id, text } if id == session.phase->Finalizing_id => {
                let flows = session.last_emit matches Some(emit) && gap(at, emit)
                    <= session.tuning.continuation_window.0;
                let marks = Marks { transcript: at, ..session.marks };
                match session.format.formats(text, flows) {
                    Some(typed) => session.step(event) == (
                        SessionView { phase: Phase::Injecting { id }, marks, ..session },
                        seq![CommandView::Inject { id, text: typed }],
                    ),
                    None => session.step(event) == (
                        SessionView { phase: Phase::Idle, marks, ..session },
                        seq![CommandView::Hud(HudView::Hidden)],
                    ),
                }
            },
            _ => session.step(event) == (session, Seq::<CommandView>::empty()),
        },
{
}

/// While text is on its way to the cursor, only its arrival and what gives the
/// utterance up make a difference. On arrival the overlay is hidden, the moment is
/// remembered, and the time that the utterance took is measured.
pub proof fn law_what_an_injecting_session_does(session: SessionView, event: EventView)
    requires
        session.phase is Injecting,
        !gives_up(session, event),
    ensures
        match event {
            EventView::Injected { at, id } if id == session.phase->Injecting_id => {
                let marks = session.marks;
                let (after, out) = session.step(event);
                &&& out == seq![CommandView::Hud(HudView::Hidden)]
                &&& after == (SessionView {
                    phase: Phase::Idle,
                    last_emit: Some(at),
                    last_latency: after.last_latency,
                    ..session
                })
                &&& after.last_latency matches Some(l)
                &&& l.speaking.0 == gap(marks.up, marks.down)
                &&& l.transcribe.0 == gap(marks.transcript, marks.up)
                &&& l.inject.0 == gap(at, marks.transcript)
                &&& l.release_to_text.0 == gap(at, marks.up)
            },
            _ => session.step(event) == (session, Seq::<CommandView>::empty()),
        },
{
}

/// However often it ticks, a capture goes on until the longest utterance is reached.
pub proof fn law_ticking_does_not_end_a_capture(session: SessionView, ticks: Seq<Millis>)
    requires
        session.phase is Capturing,
        forall|i: int|
            0 <= i < ticks.len() ==> gap(#[trigger] ticks[i], session.marks.down)
                < session.tuning.max_utterance.0,
    ensures
        run(session, ticks.map_values(|at: Millis| EventView::Tick(at))) == (
            session,
            Seq::<CommandView>::empty(),
        ),
    decreases ticks.len(),
{
    let log = ticks.map_values(|at: Millis| EventView::Tick(at));
    if ticks.len() > 0 {
        let front = ticks.drop_last();
        assert forall|i: int| 0 <= i < front.len() implies gap(
            #[trigger] front[i],
            session.marks.down,
        ) < session.tuning.max_utterance.0 by {
            assert(front[i] == ticks[i]);
        }
        law_ticking_does_not_end_a_capture(session, front);
        assert(log.drop_last() =~= front.map_values(|at: Millis| EventView::Tick(at)));
        assert(log.last() == EventView::Tick(ticks[ticks.len() - 1]));
        law_a_capture_goes_on(session, log.last());
        assert(Seq::<CommandView>::empty() + session.step(log.last()).1 =~= Seq::<
            CommandView,
        >::empty());
    }
}

} // verus!
