//! Live text while the user is still speaking, from the batch transcriber.
//!
//! Streaming models exist for this, but the one available cannot flush its final
//! chunk, which loses the last word of a dictation — the worst possible place.
//! Batch transcription on a GPU is fast enough to simply be repeated: 11 seconds of
//! audio in 36 ms means re-transcribing the whole recording every few hundred
//! milliseconds costs a small fraction of one GPU. The same model produces the
//! partials and the final text, so what the user watches appear is what they end up
//! with.
//!
//! The one hard rule is that this must never delay the release. Inference
//! therefore happens on a worker thread, and the main loop only ever hands over
//! audio and picks up text. What is here is the pace at which it does so.

use crate::session::UtteranceId;
use crate::time::{Span, SECOND};
use vstd::prelude::*;

verus! {

/// Never re-transcribe more often than this, in nanoseconds, however fast the GPU is.
pub const MIN_INTERVAL: u128 = 300_000_000;

/// Nor less often than this, however slow it is.
pub const MAX_INTERVAL: u128 = 2_000_000_000;

/// Target duty cycle: a pass taking `d` earns a gap of `DUTY * d`.
///
/// Keeps the cost proportional rather than fixed, so a long dictation on a slow
/// machine backs off by itself instead of saturating the device it shares with
/// the final pass.
pub const DUTY: u128 = 5;

/// Audio for the worker to transcribe.
#[derive(Debug)]
pub struct Request<S> {
    pub id: UtteranceId,
    pub samples: Vec<S>,
}

#[derive(Clone, Debug, PartialEq, Eq)]
pub struct Reply {
    pub id: UtteranceId,
    pub text: String,
    pub took: Span,
}

/// The gap that a pass of `took` nanoseconds earns.
pub open spec fn gap_after(took: nat) -> nat {
    let gap = took * DUTY as nat;
    if gap < MIN_INTERVAL {
        MIN_INTERVAL as nat
    } else if gap > MAX_INTERVAL {
        MAX_INTERVAL as nat
    } else {
        gap
    }
}

/// The pace of live text: the gap between requests and when the last was made, in
/// nanoseconds.
#[verifier::ext_equal]
pub struct PartialsView {
    pub interval: nat,
    pub last_request: Option<nat>,
}

impl PartialsView {
    pub open spec fn fresh() -> Self {
        PartialsView { interval: MIN_INTERVAL as nat, last_request: None }
    }

    /// The gap is within its bounds.
    pub open spec fn valid(self) -> bool {
        MIN_INTERVAL <= self.interval <= MAX_INTERVAL
    }

    /// Audio would be taken at `now`: enough time has passed since the last request.
    pub open spec fn due(self, now: nat) -> bool {
        self.last_request matches Some(last) ==> (now >= last && now - last >= self.interval)
    }
}

/// The pace at which audio is handed to a background transcriber.
#[derive(Debug)]
pub struct Partials {
    interval: Span,
    last_request: Option<Span>,
}

impl View for Partials {
    type V = PartialsView;

    closed spec fn view(&self) -> PartialsView {
        PartialsView {
            interval: self.interval.total(),
            last_request: match self.last_request {
                Some(at) => Some(at.total()),
                None => None,
            },
        }
    }
}

impl Partials {
    #[verifier::type_invariant]
    spec fn inv(self) -> bool {
        MIN_INTERVAL <= self.interval.total() <= MAX_INTERVAL && self.interval.valid()
    }

    /// The pace before anything is known of the model.
    #[must_use]
    pub fn new() -> (r: Self)
        ensures
            r@ == PartialsView::fresh(),
            r@.valid(),
    {
        Partials { interval: Span::from_nanos(MIN_INTERVAL), last_request: None }
    }

    /// Forget any pacing state, at the start of an utterance.
    pub fn reset(&mut self)
        ensures
            final(self)@ == (PartialsView { last_request: None, ..old(self)@ }),
            final(self)@.valid(),
    {
        proof {
            use_type_invariant(&*self);
        }
        self.last_request = None;
    }

    /// Offer audio to the worker, if it is idle and enough time has passed.
    ///
    /// Dropping the request rather than queueing it is deliberate: a queued
    /// snapshot is stale by the time it is transcribed, and the next one is
    /// always better.
    pub fn offer<S>(&mut self, id: UtteranceId, samples: Vec<S>, busy: bool, now: Span) -> (r:
        Option<Request<S>>)
        ensures
            match r {
                Some(request) => {
                    &&& samples@.len() > 0 && !busy && old(self)@.due(now.total())
                    &&& request.id == id && request.samples == samples
                    &&& final(self)@ == (PartialsView {
                        last_request: Some(now.total()),
                        ..old(self)@
                    })
                },
                None => {
                    &&& samples@.len() == 0 || busy || !old(self)@.due(now.total())
                    &&& final(self)@ == old(self)@
                },
            },
            final(self)@.valid(),
    {
        proof {
            use_type_invariant(&*self);
        }
        if samples.len() == 0 || busy {
            return None;
        }
        let due = match self.last_request {
            Some(last) => {
                let then: u128 = last.as_nanos();
                let this: u128 = now.as_nanos();
                this >= then && this - then >= self.interval.as_nanos()
            },
            None => true,
        };
        if !due {
            return None;
        }
        self.last_request = Some(now);
        Some(Request { id, samples })
    }

    /// Take in what the worker has finished, adjusting the pace to suit.
    pub fn collect(&mut self, replies: &[Reply])
        requires
            forall|i: int|
                0 <= i < replies@.len() ==> (#[trigger] replies@[i]).took.total() * DUTY < (u64::MAX
                    + 1) * SECOND,
        ensures
            final(self)@ == (if replies@.len() == 0 {
                old(self)@
            } else {
                PartialsView {
                    interval: gap_after(replies@.last().took.total()),
                    ..old(self)@
                }
            }),
            final(self)@.valid(),
    {
        proof {
            use_type_invariant(&*self);
        }
        let n: usize = replies.len();
        if n == 0 {
            return;
        }
        assert(replies@[n - 1].took.total() * DUTY < (u64::MAX + 1) * SECOND);
        let took: u128 = replies[n - 1].took.as_nanos();
        let gap: u128 = took * DUTY;
        let interval = if gap < MIN_INTERVAL {
            Span::from_nanos(MIN_INTERVAL)
        } else if gap > MAX_INTERVAL {
            Span::from_nanos(MAX_INTERVAL)
        } else {
            Span::from_nanos(gap)
        };
        self.interval = interval;
    }

    #[must_use]
    pub fn interval(&self) -> (r: Span)
        ensures
            r.valid(),
            r.total() == self@.interval,
            MIN_INTERVAL <= r.total() <= MAX_INTERVAL,
    {
        proof {
            use_type_invariant(self);
        }
        self.interval
    }
}

/// A slower pass never earns a shorter gap, and the gap never leaves its bounds.
pub proof fn law_the_pace_backs_off(fast: nat, slow: nat)
    requires
        fast <= slow,
    ensures
        gap_after(fast) <= gap_after(slow),
        MIN_INTERVAL <= gap_after(fast) <= MAX_INTERVAL,
{
    assert(fast * DUTY <= slow * DUTY) by (nonlinear_arith)
        requires
            fast <= slow,
    ;
}

/// After a request, nothing is taken until the gap has passed.
pub proof fn law_requests_keep_their_distance(pace: PartialsView, first: nat, second: nat)
    requires
        pace.valid(),
        (PartialsView { last_request: Some(first), ..pace }).due(second),
    ensures
        second >= first + pace.interval,
        second >= first + MIN_INTERVAL,
{
}

/// Audio is taken for live text at once where none was taken yet, and otherwise
/// exactly when the gap has passed since.
pub proof fn law_when_live_text_is_due(pace: PartialsView, now: nat)
    ensures
        pace.due(now) <==> match pace.last_request {
            None => true,
            Some(last) => last + pace.interval <= now,
        },
{
}

/// A pass earns a gap of five times what it took, but no less than three tenths of a
/// second and no more than two seconds.
pub proof fn law_the_gap_a_pass_earns(took: nat)
    ensures
        60_000_000 <= took <= 400_000_000 ==> gap_after(took) == 5 * took,
        took <= 60_000_000 ==> gap_after(took) == 300_000_000,
        took >= 400_000_000 ==> gap_after(took) == 2_000_000_000,
        PartialsView::fresh().interval == 300_000_000,
        PartialsView::fresh().last_request is None,
{
}

} // verus!
