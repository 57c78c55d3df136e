//! A single-line status display for running Murmur in a terminal.

use crate::chars::{chars_of, part, push_repeated, push_text, repeated, string_of};
use crate::session::{Hud, HudView, Mode};
use crate::single::{
    half_up, lemma_power_order, lemma_rounded_exact, lemma_shortfall, rounded, shortfall, Single,
    FULL_RANGE,
};
use crate::single_laws::{law_products_keep_order, law_whole_numbers_keep_order};
use crate::stats::{
    law_percentiles_really_happened, law_the_hundredth_percentile_is_the_largest, nearest, percent,
    Stats, StatsView,
};
use crate::time::Millis;
use vstd::arithmetic::power2::{lemma2_to64, lemma_pow2_adds, lemma_pow2_pos, pow2};
use vstd::prelude::*;

verus! {

/// Longest run of live text shown. Beyond this the *end* is kept, because that
/// is where the words are still arriving.
pub const PARTIAL_WIDTH: usize = 56;

/// Cells in the meter.
pub const CELLS: u32 = 12;

/// How many of `cells` a level fills: the level's share of them in single
/// precision, to the nearest, and at most all of them.
pub open spec fn filled(level: Single, cells: u32) -> nat {
    let share = level.times_spec(Single { mant: cells, exp: 0 });
    let n = half_up(share.mant as nat, share.exp as int);
    if n < cells {
        n
    } else {
        cells as nat
    }
}

/// A row of cells, some of them filled.
pub open spec fn bar(level: Single, cells: u32) -> Seq<char> {
    repeated('\u{2588}', filled(level, cells)) + repeated(
        '\u{2591}',
        (cells - filled(level, cells)) as nat,
    )
}

/// A row of cells that a level in `0.0..=1.0` fills in part.
pub fn push_bar(out: &mut String, level: Single, cells: u32)
    requires
        level.ordinary(),
    ensures
        final(out)@ == old(out)@ + bar(level, cells),
{
    let share = level.times(Single { mant: cells, exp: 0 });
    let n: u32 = share.round_capped(cells);
    push_repeated(out, '\u{2588}', n as usize);
    push_repeated(out, '\u{2591}', (cells - n) as usize);
    assert(out@ =~= old(out)@ + bar(level, cells));
}

/// A twelve-cell meter. Fine enough to see speech, coarse enough not to flicker.
pub fn meter(level: Single) -> (r: String)
    requires
        level.ordinary(),
    ensures
        r@ == bar(level, CELLS),
        r@.len() == CELLS,
{
    let mut out = String::new();
    push_bar(&mut out, level, CELLS);
    assert(out@ =~= bar(level, CELLS));
    out
}

/// The last `width` characters, the first of them a sign that there are more.
pub open spec fn end_of(text: Seq<char>, width: nat) -> Seq<char> {
    if text.len() <= width {
        text
    } else if width == 0 {
        seq!['\u{2026}']
    } else {
        seq!['\u{2026}'] + text.skip(text.len() - width + 1)
    }
}

/// The last `width` characters, so live text scrolls with the speaker.
pub fn tail(text: &str, width: usize) -> (r: String)
    ensures
        r@ == end_of(text@, width as nat),
{
    let chars = chars_of(text);
    let count: usize = chars.len();
    if count <= width {
        return text.to_owned();
    }
    let mut out = String::new();
    out.push('\u{2026}');
    if width > 0 {
        let rest = string_of(part(chars.as_slice(), count - width + 1, count).as_slice());
        push_text(&mut out, rest.as_str());
        assert(rest@ =~= text@.skip(text@.len() - width + 1));
    }
    assert(out@ =~= end_of(text@, width as nat));
    out
}

/// Live text that is too long keeps its end, and takes up exactly the width.
pub proof fn law_the_tail_keeps_the_end(text: Seq<char>, width: nat)
    requires
        0 < width < text.len(),
    ensures
        end_of(text, width).len() == width,
        end_of(text, width)[0] == '\u{2026}',
        end_of(text, width).skip(1).is_suffix_of(text),
{
    assert(end_of(text, width).skip(1) =~= text.skip(text.len() - width + 1));
}

/// What the display shows: how wide the line on it is, and the live text.
#[verifier::ext_equal]
pub struct TerminalView {
    pub width: nat,
    pub partial: Seq<char>,
}

impl TerminalView {
    /// A line replaces the one before it: what to write, with spaces over what is
    /// left of that one.
    pub open spec fn with_line(self, text: Seq<char>) -> (Self, Seq<char>) {
        (
            TerminalView { width: text.len(), ..self },
            seq!['\r'] + text + repeated(
                ' ',
                if self.width > text.len() {
                    (self.width - text.len()) as nat
                } else {
                    0
                },
            ),
        )
    }

    /// The line is wiped, if there is one.
    pub open spec fn wiped(self) -> (Self, Seq<char>) {
        if self.width > 0 {
            (
                TerminalView { width: 0, ..self },
                seq!['\r'] + repeated(' ', self.width) + seq!['\r'],
            )
        } else {
            (self, Seq::empty())
        }
    }

    pub open spec fn forgetting(self) -> Self {
        TerminalView { partial: Seq::empty(), ..self }
    }

    /// The capture line: the meter, and the live text that has arrived.
    pub open spec fn capture_line(self, level: Single) -> Seq<char> {
        if self.partial.len() == 0 {
            "\u{25cf} listening  "@ + bar(level, CELLS)
        } else {
            "\u{25cf} "@ + bar(level, CELLS) + "  "@ + end_of(self.partial, PARTIAL_WIDTH as nat)
        }
    }

    /// What a change of state shows.
    pub open spec fn shown(self, hud: HudView) -> (Self, Seq<char>) {
        let silence = Single { mant: 0, exp: 0 };
        match hud {
            HudView::Hidden => self.forgetting().wiped(),
            HudView::Listening { mode } => self.forgetting().with_line(
                "\u{25cf} "@ + (match mode {
                    Mode::Hold => "listening"@,
                    Mode::Locked => "listening (hands-free \u{2014} press again to stop)"@,
                }) + "  "@ + bar(silence, CELLS),
            ),
            HudView::Partial { text } => {
                let next = TerminalView { partial: text, ..self };
                next.with_line(next.capture_line(silence))
            },
            HudView::Thinking => self.with_line("\u{25d0} transcribing\u{2026}"@),
            HudView::Error { message } => {
                let (next, out) = self.wiped();
                (next, out + "  ! "@ + message + "\n"@)
            },
        }
    }
}

/// A single-line status display for running Murmur in a terminal.
///
/// Stands in for the overlay until the iced HUD exists, and stays useful after:
/// it is the surface you want when running the daemon under a service manager
/// or watching latency while tuning. Each method returns what to write.
#[derive(Debug)]
pub struct Terminal {
    width: usize,
    partial: String,
}

impl View for Terminal {
    type V = TerminalView;

    closed spec fn view(&self) -> TerminalView {
        TerminalView { width: self.width as nat, partial: self.partial@ }
    }
}

impl Default for Terminal {
    fn default() -> (r: Self)
        ensures
            r@ == (TerminalView { width: 0, partial: Seq::empty() }),
    {
        Terminal { width: 0, partial: String::new() }
    }
}

impl Terminal {
    /// The live text being shown.
    #[must_use]
    pub fn partial(&self) -> (r: &str)
        ensures
            r@ == self@.partial,
    {
        self.partial.as_str()
    }

    fn line(&mut self, text: &str) -> (r: String)
        ensures
            final(self)@ == old(self)@.with_line(text@).0,
            r@ == old(self)@.with_line(text@).1,
    {
        let n: usize = text.unicode_len();
        let mut out = String::new();
        out.push('\r');
        push_text(&mut out, text);
        let padding: usize = if self.width > n {
            self.width - n
        } else {
            0
        };
        push_repeated(&mut out, ' ', padding);
        self.width = n;
        assert(out@ =~= old(self)@.with_line(text@).1);
        out
    }

    fn clear(&mut self) -> (r: String)
        ensures
            final(self)@ == old(self)@.wiped().0,
            r@ == old(self)@.wiped().1,
    {
        let mut out = String::new();
        if self.width > 0 {
            out.push('\r');
            push_repeated(&mut out, ' ', self.width);
            out.push('\r');
            self.width = 0;
        }
        assert(out@ =~= old(self)@.wiped().1);
        out
    }

    /// Repaint the capture line: meter first, then whatever text has arrived.
    ///
    /// Both live on one line on purpose. The meter is repainted every tick, so
    /// drawing them separately means the meter erases the text a moment after it
    /// appears — the feature looks broken precisely when it is working.
    fn capturing(&mut self, level: Single) -> (r: String)
        requires
            level.ordinary(),
        ensures
            final(self)@ == old(self)@.with_line(old(self)@.capture_line(level)).0,
            r@ == old(self)@.with_line(old(self)@.capture_line(level)).1,
    {
        let cells = meter(level);
        let mut text = String::new();
        if self.partial.as_str().unicode_len() == 0 {
            push_text(&mut text, "\u{25cf} listening  ");
            push_text(&mut text, cells.as_str());
        } else {
            push_text(&mut text, "\u{25cf} ");
            push_text(&mut text, cells.as_str());
            push_text(&mut text, "  ");
            push_text(&mut text, tail(self.partial.as_str(), PARTIAL_WIDTH).as_str());
        }
        assert(text@ =~= self@.capture_line(level));
        self.line(text.as_str())
    }

    /// What to write to the error stream when the state changes.
    pub fn show(&mut self, hud: &Hud) -> (r: String)
        ensures
            final(self)@ == old(self)@.shown(hud@).0,
            r@ == old(self)@.shown(hud@).1,
    {
        let silence = Single { mant: 0, exp: 0 };
        match hud {
            Hud::Hidden => {
                self.partial = String::new();
                self.clear()
            },
            Hud::Listening { mode } => {
                let label = match mode {
                    Mode::Hold => "listening",
                    Mode::Locked => "listening (hands-free \u{2014} press again to stop)",
                };
                self.partial = String::new();
                let mut text = "\u{25cf} ".to_owned();
                push_text(&mut text, label);
                push_text(&mut text, "  ");
                push_text(&mut text, meter(silence).as_str());
                self.line(text.as_str())
            },
            Hud::Partial { text } => {
                self.partial = text.clone();
                self.capturing(silence)
            },
            Hud::Thinking => self.line("\u{25d0} transcribing\u{2026}"),
            Hud::Error { message } => {
                let mut out = self.clear();
                push_text(&mut out, "  ! ");
                push_text(&mut out, message.as_str());
                push_text(&mut out, "\n");
                out
            },
        }
    }

    /// What to write to the error stream when the level changes.
    pub fn level(&mut self, level: Single) -> (r: String)
        requires
            level.ordinary(),
        ensures
            final(self)@ == old(self)@.with_line(old(self)@.capture_line(level)).0,
            final(self)@.partial == old(self)@.partial,
            r@ == old(self)@.with_line(old(self)@.capture_line(level)).1,
    {
        self.capturing(level)
    }

    /// What to write to the error stream before text that reached the cursor is
    /// written to the output.
    pub fn emitted(&mut self) -> (r: String)
        ensures
            final(self)@ == old(self)@.forgetting().wiped().0,
            r@ == old(self)@.forgetting().wiped().1,
    {
        self.partial = String::new();
        self.clear()
    }

    /// The line to print when an utterance has completed, if one has: the worst times
    /// of the session so far, this utterance among them.
    pub fn completed(&self, stats: &Stats) -> (r: Option<String>)
        requires
            stats@.valid(),
        ensures
            match r {
                Some(line) => stats@.release_to_text.len() > 0 && line@ == completion(stats@),
                None => stats@.release_to_text.len() == 0,
            },
    {
        let worst = Single { mant: 100, exp: 0 };
        if let (Some(total), Some(transcribe), Some(inject)) = (
            stats.release_to_text(worst),
            stats.transcribe(worst),
            stats.inject(worst),
        ) {
            let mut out = "  \u{2937} release \u{2192} text ".to_owned();
            push_text(&mut out, total.to_text().as_str());
            push_text(&mut out, " (transcribe ");
            push_text(&mut out, transcribe.to_text().as_str());
            push_text(&mut out, ", inject ");
            push_text(&mut out, inject.to_text().as_str());
            push_text(&mut out, ")");
            Some(out)
        } else {
            None
        }
    }
}

/// The report when an utterance has completed. Its figures are the worst of the
/// session, each on its own.
pub open spec fn completion(stats: StatsView) -> Seq<char> {
    "  \u{2937} release \u{2192} text "@ + nearest(stats.release_to_text, percent(100))->0.text()
        + " (transcribe "@ + nearest(stats.transcribe, percent(100))->0.text() + ", inject "@
        + nearest(stats.inject, percent(100))->0.text() + ")"@
}

/// The meter is monotonic in the level: a louder one never fills fewer cells.
pub proof fn law_louder_never_fills_less(quiet: Single, loud: Single, cells: u32)
    requires
        quiet.representable(),
        loud.representable(),
        quiet.at_most(loud),
    ensures
        filled(quiet, cells) <= filled(loud, cells) <= cells,
{
    let all = Single { mant: cells, exp: 0 };
    law_products_keep_order(quiet, loud, all);
    law_whole_numbers_keep_order(quiet.times_spec(all), loud.times_spec(all));
}

/// Live text survives a repaint of the meter, and no text of one utterance is seen
/// in the next.
pub proof fn law_live_text_lasts_as_long_as_its_utterance(
    display: TerminalView,
    level: Single,
    mode: Mode,
)
    ensures
        display.with_line(display.capture_line(level)).0.partial == display.partial,
        display.shown(HudView::Hidden).0.partial.len() == 0,
        display.shown(HudView::Listening { mode }).0.partial.len() == 0,
{
}

/// A line drawn over a longer one leaves nothing of it behind: what is written
/// covers the width of both.
pub proof fn law_a_new_line_covers_the_old(display: TerminalView, text: Seq<char>)
    ensures
        display.with_line(text).1.len() > display.width,
        display.with_line(text).1.len() > text.len(),
        display.wiped().0.width == 0,
{
}

/// The meter has a cell for each step, the filled ones first. Silence fills none.
pub proof fn law_the_meter_fills_from_the_left(level: Single, cells: u32)
    ensures
        bar(level, cells).len() == cells,
        filled(level, cells) <= cells,
        forall|i: int|
            0 <= i < cells ==> #[trigger] bar(level, cells)[i] == (if i < filled(level, cells) {
                '\u{2588}'
            } else {
                '\u{2591}'
            }),
        filled(Single { mant: 0, exp: 0 }, cells) == 0,
{
    lemma2_to64();
    let share = (Single { mant: 0, exp: 0 }).times_spec(Single { mant: cells, exp: 0 });
    assert(0 * cells == 0);
    assert(shortfall(0, 1) == 0);
    assert(0 * pow2(0) == 0);
    assert(rounded(0, 1) == 0);
    assert(share.mant == 0 && share.exp == 0);
    assert(0 * pow2(0) == 0);
}

/// A level fills its share of the cells, to the nearest, halves up, and never more
/// than there are.
pub proof fn law_the_meter_shows_the_share(level: Single, cells: u32, k: nat)
    requires
        level.exp == -k,
        k <= 100,
        cells > 0,
        level.mant > 0,
        level.mant * cells < FULL_RANGE,
    ensures
        ({
            let n = (2 * (level.mant * cells) + pow2(k)) / (2 * pow2(k) as int);
            filled(level, cells) == (if n < cells {
                n
            } else {
                cells as int
            })
        }),
{
    lemma2_to64();
    let n = (level.mant * cells) as nat;
    assert(n > 0) by (nonlinear_arith)
        requires
            n == level.mant * cells,
            level.mant > 0,
            cells > 0,
    ;
    let sf = shortfall(n, 1);
    lemma_shortfall(n, 1);
    let s = pow2(sf);
    lemma_pow2_pos(sf);
    lemma_pow2_pos(k);
    assert(s <= 0x100_0000) by (nonlinear_arith)
        requires
            n * s < 1 * 0x100_0000,
            n >= 1,
            s >= 0,
    ;
    lemma_power_order(sf, 24);
    lemma_rounded_exact(n * s, 1);
    assert((n * s) * 1 == n * s);
    let share = level.times_spec(Single { mant: cells, exp: 0 });
    assert(share.mant == n * s);
    assert(share.exp == -(sf as int) - k);
    let e = sf + k;
    lemma_pow2_adds(sf, k);
    let p = pow2(k);
    let d = pow2(e);
    if e > 0 {
        assert(half_up(n * s, -(e as int)) == ((2 * (n * s) + d) / (2 * d)) as nat);
        assert(2 * (n * s) + d == s * (2 * n + p) && 2 * d == s * (2 * p)) by (nonlinear_arith)
            requires
                d == s * p,
        ;
        vstd::arithmetic::div_mod::lemma_div_multiples_vanish_quotient(
            s as int,
            (2 * n + p) as int,
            (2 * p) as int,
        );
    } else {
        assert(s == 1 && p == 1);
        assert(half_up(n * s, 0) == n * 1 * 1) by {
            assert((n * 1) * pow2(0) == n);
        }
        assert((2 * n + 1) / 2 == n);
    }
}

/// What is shown for each state of a dictation. The live text goes with its utterance:
/// it is forgotten when one begins and when one is over, and an error is kept on a line
/// of its own.
pub proof fn law_what_each_state_shows(display: TerminalView, text: Seq<char>, message: Seq<char>)
    requires
        text.len() > 0,
    ensures
        ({
            let none = bar(Single { mant: 0, exp: 0 }, 12);
            let fresh = TerminalView { partial: Seq::empty(), ..display };
            &&& display.shown(HudView::Hidden) == fresh.wiped()
            &&& display.shown(HudView::Listening { mode: Mode::Hold }) == fresh.with_line(
                "\u{25cf} listening  "@ + none,
            )
            &&& display.shown(HudView::Listening { mode: Mode::Locked }) == fresh.with_line(
                "\u{25cf} listening (hands-free \u{2014} press again to stop)  "@ + none,
            )
            &&& display.shown(HudView::Partial { text }) == (TerminalView {
                partial: text,
                ..display
            }).with_line(
                "\u{25cf} "@ + none + "  "@ + (if text.len() <= PARTIAL_WIDTH {
                    text
                } else {
                    seq!['\u{2026}'] + text.skip(text.len() - PARTIAL_WIDTH + 1)
                }),
            )
            &&& display.shown(HudView::Thinking) == display.with_line(
                "\u{25d0} transcribing\u{2026}"@,
            )
            &&& display.shown(HudView::Error { message }).0 == display.wiped().0
            &&& display.shown(HudView::Error { message }).1 == display.wiped().1 + "  ! "@ + message
                + "\n"@
        }),
{
    reveal_strlit("\u{25cf} ");
    reveal_strlit("listening");
    reveal_strlit("listening (hands-free \u{2014} press again to stop)");
    reveal_strlit("  ");
    reveal_strlit("\u{25cf} listening  ");
    reveal_strlit("\u{25cf} listening (hands-free \u{2014} press again to stop)  ");
    assert("\u{25cf} "@ + "listening"@ + "  "@ =~= "\u{25cf} listening  "@);
    assert("\u{25cf} "@ + "listening (hands-free \u{2014} press again to stop)"@ + "  "@
        =~= "\u{25cf} listening (hands-free \u{2014} press again to stop)  "@);
}

/// While capturing, the meter shows the level, with the live text if there is any.
pub proof fn law_what_a_capture_shows(display: TerminalView, level: Single)
    ensures
        display.partial.len() == 0 ==> display.capture_line(level) == "\u{25cf} listening  "@ + bar(
            level,
            12,
        ),
        display.partial.len() > 0 ==> display.capture_line(level) == "\u{25cf} "@ + bar(level, 12)
            + "  "@ + end_of(display.partial, PARTIAL_WIDTH as nat),
{
}

/// What is written over a line: back to its start, the new text, and spaces over what
/// is left of the old. Wiping writes spaces over all of it and goes back again.
pub proof fn law_what_is_written_over_a_line(display: TerminalView, text: Seq<char>)
    ensures
        ({
            let (after, out) = display.with_line(text);
            let longer = if display.width > text.len() {
                display.width
            } else {
                text.len()
            };
            &&& after == (TerminalView { width: text.len(), ..display })
            &&& out.len() == 1 + longer
            &&& out[0] == '\r'
            &&& forall|i: int| 0 <= i < text.len() ==> out[1 + i] == #[trigger] text[i]
            &&& forall|i: int| 1 + text.len() <= i < out.len() ==> #[trigger] out[i] == ' '
        }),
        display.width > 0 ==> display.wiped() == (
            TerminalView { width: 0, ..display },
            seq!['\r'] + Seq::new(display.width, |i: int| ' ') + seq!['\r'],
        ),
        display.width == 0 ==> display.wiped() == (display, Seq::<char>::empty()),
{
    assert(repeated(' ', display.width) =~= Seq::new(display.width, |i: int| ' '));
}

/// The largest of the samples.
pub open spec fn is_worst(samples: Seq<Millis>, at: Millis) -> bool {
    &&& samples.contains(at)
    &&& forall|i: int| 0 <= i < samples.len() ==> (#[trigger] samples[i]).0 <= at.0
}

/// When an utterance has completed, the worst times of the session are reported: from
/// release to text, and of that in transcribing and in injecting, each under its own
/// name.
pub proof fn law_what_is_reported_on_completion(
    stats: StatsView,
    total: Millis,
    transcribe: Millis,
    inject: Millis,
)
    requires
        stats.valid(),
        0 < stats.release_to_text.len() < FULL_RANGE,
        is_worst(stats.release_to_text, total),
        is_worst(stats.transcribe, transcribe),
        is_worst(stats.inject, inject),
    ensures
        completion(stats) == "  \u{2937} release \u{2192} text "@ + total.text() + " (transcribe "@
            + transcribe.text() + ", inject "@ + inject.text() + ")"@,
{
    lemma_worst(stats.release_to_text, total);
    lemma_worst(stats.transcribe, transcribe);
    lemma_worst(stats.inject, inject);
}

proof fn lemma_worst(samples: Seq<Millis>, at: Millis)
    requires
        0 < samples.len() < FULL_RANGE,
        is_worst(samples, at),
    ensures
        nearest(samples, percent(100)) == Some(at),
{
    lemma2_to64();
    let i = choose|i: int| 0 <= i < samples.len() && samples[i] == at;
    law_the_hundredth_percentile_is_the_largest(samples, percent(100), i);
    law_percentiles_really_happened(samples, percent(100));
    let found = nearest(samples, percent(100))->0;
    let j = choose|j: int| 0 <= j < samples.len() && samples[j] == found;
    assert(samples[j].0 <= at.0);
}

} // verus!
