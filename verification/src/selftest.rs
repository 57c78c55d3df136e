//! Proving that the injection path works, without typing on the user's screen.
//!
//! The virtual keyboard emits real scancodes, so a naive test would spray text
//! into whatever window has focus. Instead our own device node is opened and
//! grabbed: the kernel then delivers those events to us alone, and the compositor
//! never sees them. What comes back out is decoded and compared to what went in,
//! which verifies device creation, the keymap, shift handling and event delivery in
//! one pass.

use crate::chars::{decimal, push_decimal, push_text};
use crate::keymap::{can_type, char_for, layout, typable, KeyCode, KEY_LEFTSHIFT};
use crate::outside::{quoted, to_quoted};
use crate::uinput::{down, key_of, tapped, typed, up, Stroke};
use vstd::prelude::*;

verus! {

/// Text chosen to exercise both shift states and punctuation.
pub open spec fn probe_text() -> Seq<char> {
    "Murmur OK! 42 (round-trip)."@
}

/// Text chosen to exercise both shift states and punctuation.
pub fn probe() -> (r: &'static str)
    ensures
        r@ == probe_text(),
{
    "Murmur OK! 42 (round-trip)."
}

/// What one stroke comes to: whether Shift is held after it, and what was typed, if
/// it types. A key that types nothing known reads as `None`.
pub open spec fn decoded_one(shift: bool, stroke: Stroke) -> (bool, Option<Option<char>>) {
    if stroke.key == KeyCode(KEY_LEFTSHIFT) {
        (stroke.value == 1, None)
    } else if stroke.value == 1 {
        (shift, Some(layout(stroke.key, shift)))
    } else {
        (shift, None)
    }
}

/// What the strokes come to, in order.
pub open spec fn decoded(shift: bool, strokes: Seq<Stroke>) -> (bool, Seq<Option<char>>)
    decreases strokes.len(),
{
    if strokes.len() == 0 {
        (shift, Seq::empty())
    } else {
        let (held, before) = decoded(shift, strokes.drop_last());
        let (after, c) = decoded_one(held, strokes.last());
        match c {
            Some(c) => (after, before.push(c)),
            None => (after, before),
        }
    }
}

/// Reads strokes back as characters, and counts them.
#[derive(Debug, Clone, Copy)]
pub struct Decoder {
    shift: bool,
    seen: usize,
}

impl Decoder {
    pub closed spec fn shift(self) -> bool {
        self.shift
    }

    /// How many characters have come.
    pub closed spec fn seen(self) -> nat {
        self.seen as nat
    }

    /// No key is held, and nothing has come.
    #[must_use]
    pub fn new() -> (r: Self)
        ensures
            !r.shift(),
            r.seen() == 0,
    {
        Decoder { shift: false, seen: 0 }
    }

    /// Are there characters of the probe still to come?
    #[must_use]
    pub fn wants_more(&self) -> (r: bool)
        ensures
            r == (self.seen() < probe_text().len()),
    {
        self.seen < probe().unicode_len()
    }

    /// Is there room to count one more character?
    #[must_use]
    pub fn can_read(&self) -> (r: bool)
        ensures
            r == (self.seen() < usize::MAX),
    {
        self.seen < usize::MAX
    }

    /// Takes in one stroke.
    pub fn read(&mut self, stroke: Stroke) -> (r: Option<Option<char>>)
        requires
            old(self).seen() < usize::MAX,
        ensures
            (final(self).shift(), r) == decoded_one(old(self).shift(), stroke),
            final(self).seen() == old(self).seen() + (if r is Some {
                1nat
            } else {
                0nat
            }),
    {
        if stroke.key.0 == KEY_LEFTSHIFT {
            self.shift = stroke.value == 1;
            None
        } else if stroke.value == 1 {
            self.seen += 1;
            Some(char_for(stroke.key, self.shift))
        } else {
            None
        }
    }
}

/// The strokes of all the bursts, one after another.
pub open spec fn emitted(bursts: Seq<Seq<Stroke>>) -> Seq<Stroke>
    decreases bursts.len(),
{
    if bursts.len() == 0 {
        Seq::empty()
    } else {
        emitted(bursts.drop_last()) + bursts.last()
    }
}

proof fn lemma_decoded_both(shift: bool, a: Seq<Stroke>, b: Seq<Stroke>)
    ensures
        ({
            let (held, first) = decoded(shift, a);
            let (after, second) = decoded(held, b);
            decoded(shift, a + b) == (after, first + second)
        }),
    decreases b.len(),
{
    let (held, first) = decoded(shift, a);
    if b.len() == 0 {
        assert(a + b =~= a);
        assert(first + Seq::<Option<char>>::empty() =~= first);
    } else {
        assert((a + b).drop_last() =~= a + b.drop_last());
        lemma_decoded_both(shift, a, b.drop_last());
        let (middle, second) = decoded(held, b.drop_last());
        let (after, c) = decoded_one(middle, b.last());
        if let Some(c) = c {
            assert(first + second.push(c) =~= (first + second).push(c));
        }
    }
}

proof fn lemma_decoded_tap(key: KeyCode, shift: bool, c: char)
    requires
        layout(key, shift) == Some(c),
    ensures
        decoded(false, tapped(key, shift)) == (false, seq![Some(c)]),
{
    let s = KeyCode(KEY_LEFTSHIFT);
    assert(key != s);
    let none = Seq::<Stroke>::empty();
    if shift {
        let all = tapped(key, shift);
        assert(all.drop_last() =~= seq![down(s), down(key), up(key)]);
        assert(seq![down(s), down(key), up(key)].drop_last() =~= seq![down(s), down(key)]);
        assert(seq![down(s), down(key)].drop_last() =~= seq![down(s)]);
        assert(seq![down(s)].drop_last() =~= none);
        assert(decoded(false, none) == (false, Seq::<Option<char>>::empty()));
        assert(decoded(false, seq![down(s)]) == (true, Seq::<Option<char>>::empty()));
        assert(decoded(false, seq![down(s), down(key)]).1 =~= seq![Some(c)]);
        assert(decoded(false, seq![down(s), down(key), up(key)]) == (true, seq![Some(c)]));
    } else {
        assert(tapped(key, shift).drop_last() =~= seq![down(key)]);
        assert(seq![down(key)].drop_last() =~= none);
        assert(decoded(false, none) == (false, Seq::<Option<char>>::empty()));
        assert(decoded(false, seq![down(key)]).1 =~= seq![Some(c)]);
    }
}

/// Typing and reading back gives the text: the strokes for any text that can be
/// typed decode to exactly that text, and leave Shift up.
pub proof fn law_typed_text_reads_back(text: Seq<char>)
    requires
        typable(text),
    ensures
        decoded(false, emitted(typed(text))) == (false, text.map_values(|c: char| Some(c))),
    decreases text.len(),
{
    let read = text.map_values(|c: char| Some(c));
    if text.len() == 0 {
        assert(emitted(typed(text)) =~= Seq::<Stroke>::empty());
        assert(read =~= Seq::<Option<char>>::empty());
    } else {
        let front = text.drop_last();
        let c = text.last();
        assert(typable(front)) by {
            assert forall|i: int| 0 <= i < front.len() implies can_type(#[trigger] front[i]) by {
                assert(front[i] == text[i]);
            }
        }
        law_typed_text_reads_back(front);
        assert(typed(text).drop_last() =~= typed(front));
        let (key, shift) = key_of(c);
        assert(layout(key, shift) == Some(c)) by {
            assert(can_type(text[text.len() - 1]));
            crate::keymap::law_printable_ascii_can_be_typed(c);
        }
        lemma_decoded_both(false, emitted(typed(front)), tapped(key, shift));
        lemma_decoded_tap(key, shift, c);
        assert(front.map_values(|c: char| Some(c)) + seq![Some(c)] =~= read);
    }
}

/// What the characters read back come to, with a stand-in for each that is not
/// known.
pub open spec fn received(chars: Seq<Option<char>>) -> Seq<char> {
    chars.map_values(
        |c: Option<char>|
            match c {
                Some(c) => c,
                None => '\u{fffd}',
            },
    )
}

/// Is there more of the probe to wait for, once these characters were read back?
#[must_use]
pub fn awaits_more(chars: &[Option<char>]) -> (r: bool)
    ensures
        r == (chars@.len() < probe_text().len()),
{
    chars.len() < probe().unicode_len()
}

/// What the characters read back come to.
pub fn receive(chars: &[Option<char>]) -> (r: String)
    ensures
        r@ == received(chars@),
{
    let mut out = String::new();
    for i in 0..chars.len()
        invariant
            out@ == received(chars@).take(i as int),
    {
        out.push(
            match chars[i] {
                Some(c) => c,
                None => '\u{fffd}',
            },
        );
        assert(received(chars@).take(i + 1) =~= received(chars@).take(i as int).push(
            received(chars@)[i as int],
        ));
    }
    assert(received(chars@).take(chars@.len() as int) =~= received(chars@));
    out
}

/// How a text is shown after a label, given how it is quoted.
pub fn labelled(label: &str, quoted_text: &str) -> (r: String)
    ensures
        r@ == label@ + quoted_text@,
{
    let mut out = label.to_owned();
    push_text(&mut out, quoted_text);
    out
}

/// The lines that show what was sent and what was received.
pub fn report(back: &str) -> (r: (String, String))
    ensures
        r.0@ == "  sent      "@ + quoted(probe_text()),
        r.1@ == "  received  "@ + quoted(back@),
{
    (
        labelled("  sent      ", to_quoted(probe()).as_str()),
        labelled("  received  ", to_quoted(back).as_str()),
    )
}

/// The verdict on what came back.
pub fn verdict(back: &str) -> (r: Result<String, String>)
    ensures
        match r {
            Ok(line) => back@ == probe_text() && line@ == "\n  injection path verified: "@
                + decimal(probe_text().len()) + " characters round-tripped through the kernel."@,
            Err(line) => back@ != probe_text() && line@
                == "round-trip mismatch: the virtual keyboard did not deliver what it was given"@,
        },
{
    if back.to_owned() == probe().to_owned() {
        let mut out = "\n  injection path verified: ".to_owned();
        push_decimal(&mut out, probe().unicode_len() as u128);
        push_text(&mut out, " characters round-tripped through the kernel.");
        Ok(out)
    } else {
        Err(
            "round-trip mismatch: the virtual keyboard did not deliver what it was given".to_owned(),
        )
    }
}

/// What one stroke reads as: Shift is held from its press to its release and types
/// nothing, any other press types its character, and a release types nothing.
pub proof fn law_what_a_stroke_reads_as(shift: bool, stroke: Stroke)
    ensures
        stroke.key == KeyCode(42) && stroke.value == 1 ==> decoded_one(shift, stroke) == (
            true,
            None::<Option<char>>,
        ),
        stroke.key == KeyCode(42) && stroke.value == 0 ==> decoded_one(shift, stroke) == (
            false,
            None::<Option<char>>,
        ),
        stroke.key != KeyCode(42) && stroke.value == 1 ==> decoded_one(shift, stroke) == (
            shift,
            Some(layout(stroke.key, shift)),
        ),
        stroke.key != KeyCode(42) && stroke.value != 1 ==> decoded_one(shift, stroke) == (
            shift,
            None::<Option<char>>,
        ),
{
}

/// What is received is what was decoded, character by character, with a stand-in for
/// what is not known.
pub proof fn law_what_is_received(chars: Seq<Option<char>>, i: int)
    requires
        0 <= i < chars.len(),
    ensures
        received(chars).len() == chars.len(),
        chars[i] matches Some(c) ==> received(chars)[i] == c,
        chars[i] is None ==> received(chars)[i] == '\u{fffd}',
{
}

/// The probe can be typed, and needs Shift for some of it and not for the rest.
pub proof fn law_the_probe_can_be_typed()
    ensures
        typable(probe_text()),
        probe_text().contains('M') && probe_text().contains('m') && probe_text().contains('(')
            && probe_text().contains('4'),
{
    reveal_strlit("Murmur OK! 42 (round-trip).");
    let text = probe_text();
    assert(text[0] == 'M' && text[3] == 'm' && text[14] == '(' && text[11] == '4');
    assert forall|i: int| 0 <= i < text.len() implies can_type(#[trigger] text[i]) by {}
}

} // verus!
