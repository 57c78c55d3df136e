//! What the smaller commands say.

use crate::chars::{chars_of, decimal, digit, push_decimal, push_text, trim, trimmed, Class};
use crate::config::InjectConfig;
use crate::hotkey::{key_name, named};
use crate::inject::{pasted, routes_to_clipboard};
use crate::keymap::KeyCode;
use crate::order::name_views;
use crate::outside::{duration_label, key_label, label_of_duration, label_of_key, quoted, to_quoted};
use crate::report::{push_seconds, seconds_text};
use crate::single::{scaled_round, shifted, Single};
use crate::time::Span;
use vstd::arithmetic::power2::*;
use vstd::prelude::*;

verus! {

/// What a key is called: its bare name, or its label where it has none.
pub open spec fn called(key: KeyCode) -> Seq<char> {
    match named(key.0) {
        Some(name) => name,
        None => key_label(key.0),
    }
}

/// The line for a key that was pressed, given what it is called.
pub fn key_line_for(name: &str, trigger: &str) -> (r: String)
    ensures
        r@ == "  "@ + name@ + (if name@ == trigger@ {
            "   \u{2190} your trigger"@
        } else {
            ""@
        }),
{
    let mut out = "  ".to_owned();
    push_text(&mut out, name);
    if name.to_owned() == trigger.to_owned() {
        push_text(&mut out, "   \u{2190} your trigger");
    } else {
        push_text(&mut out, "");
    }
    out
}

/// The line for a key that was pressed, so a trigger that "does nothing" can be
/// diagnosed.
pub fn key_line(key: KeyCode, trigger: &str) -> (r: String)
    ensures
        r@ == "  "@ + called(key) + (if called(key) == trigger@ {
            "   \u{2190} your trigger"@
        } else {
            ""@
        }),
{
    let name = match key_name(key) {
        Some(name) => name,
        None => label_of_key(key.0),
    };
    key_line_for(name.as_str(), trigger)
}

/// The microphone as it is described.
pub open spec fn microphone_text(name: Seq<char>, rate: nat, channels: nat) -> Seq<char> {
    name + " ("@ + decimal(rate) + " Hz, "@ + decimal(channels) + " ch)"@
}

/// Appends the microphone as it is described.
pub fn push_microphone(out: &mut String, name: &str, rate: u32, channels: u16)
    ensures
        final(out)@ == old(out)@ + microphone_text(name@, rate as nat, channels as nat),
{
    push_text(out, name);
    push_text(out, " (");
    push_decimal(out, rate as u128);
    push_text(out, " Hz, ");
    push_decimal(out, channels as u128);
    push_text(out, " ch)");
    assert(out@ =~= old(out)@ + microphone_text(name@, rate as nat, channels as nat));
}

/// How many times the level is read in a recording of so many seconds.
#[must_use]
pub fn polls(seconds: u64) -> (r: u64)
    requires
        seconds * 20 <= u64::MAX,
    ensures
        r == seconds * 20,
{
    seconds * 20
}

/// The lines that say what is being recorded and for how long.
pub fn recording_lines(name: &str, rate: u32, channels: u16, seconds: u64) -> (r: (
    String,
    String,
))
    ensures
        r.0@ == "  device  "@ + microphone_text(name@, rate as nat, channels as nat),
        r.1@ == "\n  recording for "@ + decimal(seconds as nat) + "s \u{2014} say something\n"@,
{
    let mut first = "  device  ".to_owned();
    push_microphone(&mut first, name, rate, channels);
    let mut second = "\n  recording for ".to_owned();
    push_decimal(&mut second, seconds as u128);
    push_text(&mut second, "s \u{2014} say something\n");
    (first, second)
}

/// A number to three decimals; infinity reads as `inf`.
pub open spec fn thousandths_text(s: Single) -> Seq<char> {
    if s == Single::infinity() {
        "inf"@
    } else {
        let t = scaled_round(s.mant as nat, s.exp as int, 1000);
        decimal(t / 1000).push('.').push(digit(t / 100 % 10)).push(digit(t / 10 % 10)).push(
            digit(t % 10),
        )
    }
}

fn push_thousandths(out: &mut String, s: Single)
    requires
        s.representable(),
    ensures
        final(out)@ == old(out)@ + thousandths_text(s),
{
    if s.is_infinite() {
        push_text(out, "inf");
        return;
    }
    if s.exp > 0 {
        proof {
            lemma2_to64();
            lemma2_to64_rest();
            lemma_pow2_adds(64, 40);
            if s.exp < 104 {
                lemma_pow2_strictly_increases(s.exp as nat, 104);
            }
            assert(s.mant * pow2(s.exp as nat) <= u128::MAX) by (nonlinear_arith)
                requires
                    s.mant < 0x100_0000,
                    pow2(s.exp as nat) <= 0x100_0000_0000 * 0x1_0000_0000_0000_0000,
            ;
        }
        let whole: u128 = shifted(s.mant as u128, s.exp as u32);
        push_decimal(out, whole);
        push_text(out, ".000");
        proof {
            reveal_strlit(".000");
            assert(out@ =~= old(out)@ + thousandths_text(s));
        }
    } else {
        let t: u128 = s.round_times(1000);
        push_decimal(out, t / 1000);
        out.push('.');
        out.push((('0' as u8) + ((t / 100 % 10) as u8)) as char);
        out.push((('0' as u8) + ((t / 10 % 10) as u8)) as char);
        out.push((('0' as u8) + ((t % 10) as u8)) as char);
        assert(out@ =~= old(out)@ + thousandths_text(s));
    }
}

/// What is said of a recording: how long it is, its loudest sample and the highest
/// the meter went.
pub fn captured_line(duration: Span, heard: Single, peak: Single) -> (r: String)
    requires
        heard.representable(),
        peak.representable(),
    ensures
        r@ == "\n  captured "@ + seconds_text(duration) + "s at 16 kHz, peak sample "@
            + thousandths_text(heard) + ", peak level "@ + thousandths_text(peak),
{
    let mut out = "\n  captured ".to_owned();
    push_seconds(&mut out, duration);
    push_text(&mut out, "s at 16 kHz, peak sample ");
    push_thousandths(&mut out, heard);
    push_text(&mut out, ", peak level ");
    push_thousandths(&mut out, peak);
    out
}

/// The loudest sample below which a recording counts as silence: 0.005 in single
/// precision.
pub open spec fn silence() -> Single {
    Single { mant: 10_737_418, exp: -31i32 }
}

/// Did the microphone produce silence, going by its loudest sample?
#[must_use]
pub fn is_silent(heard: Single) -> (r: bool)
    requires
        heard.representable(),
    ensures
        r == (heard.units() < silence().units()),
{
    heard.is_below(Single { mant: 10_737_418, exp: -31 })
}

/// What is said of a recording by its loudest sample, line by line, and whether it
/// will do.
pub fn recording_verdict(heard: Single) -> (r: (Vec<String>, Result<(), &'static str>))
    requires
        heard.representable(),
    ensures
        heard.units() < silence().units() ==> {
            &&& name_views(r.0@) == seq![
                "\n  \u{2717} the microphone produced silence."@,
                "      \u{2192} pick a device with audio.device in the config; `murmur devices` lists them"@,
                "      \u{2192} check the input is not muted, and that its level is up"@,
            ]
            &&& r.1 matches Err(message) && message@ == "no audio captured"@
        },
        heard.units() >= silence().units() ==> {
            &&& name_views(r.0@) == seq!["  \u{2713} audio captured"@]
            &&& r.1 is Ok
        },
{
    if is_silent(heard) {
        let lines = vec![
            "\n  \u{2717} the microphone produced silence.".to_owned(),
            "      \u{2192} pick a device with audio.device in the config; `murmur devices` lists them".to_owned(),
            "      \u{2192} check the input is not muted, and that its level is up".to_owned(),
        ];
        assert(name_views(lines@) =~= seq![
            "\n  \u{2717} the microphone produced silence."@,
            "      \u{2192} pick a device with audio.device in the config; `murmur devices` lists them"@,
            "      \u{2192} check the input is not muted, and that its level is up"@,
        ]);
        (lines, Err("no audio captured"))
    } else {
        let lines = vec!["  \u{2713} audio captured".to_owned()];
        assert(name_views(lines@) =~= seq!["  \u{2713} audio captured"@]);
        (lines, Ok(()))
    }
}

/// What is said of what a recording was transcribed to, given how it is quoted.
pub fn transcript_lines_for(text: &str, quoted_text: &str) -> (r: Vec<String>)
    ensures
        name_views(r@) == heard_lines(text@, quoted_text@),
{
    let mut first = "\n  ".to_owned();
    push_text(&mut first, quoted_text);
    push_text(&mut first, "\n");
    let mut out = vec![first];
    if heard_nothing(text) {
        out.push("  \u{2717} audio was captured but transcribed to nothing.".to_owned());
        out.push(
            "      \u{2192} speak closer to the microphone, or raise its input level".to_owned(),
        );
    }
    assert(name_views(out@) =~= heard_lines(text@, quoted_text@));
    out
}

/// What is said of what a recording was transcribed to: the text, quoted, and advice
/// where it is nothing but white space.
pub open spec fn heard_lines(text: Seq<char>, quoted_text: Seq<char>) -> Seq<Seq<char>> {
    seq!["\n  "@ + quoted_text + "\n"@] + (if trim(text, Class::White).len() == 0 {
        seq![
            "  \u{2717} audio was captured but transcribed to nothing."@,
            "      \u{2192} speak closer to the microphone, or raise its input level"@,
        ]
    } else {
        Seq::empty()
    })
}

/// What is said of what a recording was transcribed to, line by line.
pub fn transcript_lines(text: &str) -> (r: Vec<String>)
    ensures
        name_views(r@) == heard_lines(text@, quoted(text@)),
{
    transcript_lines_for(text, to_quoted(text).as_str())
}

/// Is a transcript of recorded audio nothing but white space?
#[must_use]
pub fn heard_nothing(text: &str) -> (r: bool)
    ensures
        r == (trim(text@, Class::White).len() == 0),
{
    trimmed(chars_of(text).as_slice(), Class::White).len() == 0
}

/// What `murmur type` goes by, unless there is nothing to type.
pub fn type_route(config: &InjectConfig, text: &str) -> (r: Result<&'static str, &'static str>)
    ensures
        match r {
            Ok(route) => text@.len() > 0 && route@ == (if pasted(*config, text@) {
                "clipboard"@
            } else {
                "keyboard"@
            }),
            Err(message) => text@.len() == 0 && message@ == "nothing to type"@,
        },
{
    if text.unicode_len() == 0 {
        return Err("nothing to type");
    }
    if routes_to_clipboard(config, text) {
        Ok("clipboard")
    } else {
        Ok("keyboard")
    }
}

/// What is said before text is typed, unless that happens at once.
pub fn type_notice(after: u64, route: &str) -> (r: Option<String>)
    ensures
        match r {
            Some(line) => after > 0 && line@ == "focus the target window \u{2014} typing in "@
                + decimal(after as nat) + "s via "@ + route@,
            None => after == 0,
        },
{
    if after == 0 {
        return None;
    }
    let mut out = "focus the target window \u{2014} typing in ".to_owned();
    push_decimal(&mut out, after as u128);
    push_text(&mut out, "s via ");
    push_text(&mut out, route);
    Some(out)
}

/// What is said once text was typed.
pub fn type_summary(text: &str, route: &str, ready: Span, total: Span) -> (r: String)
    requires
        ready.valid(),
        total.valid(),
    ensures
        r@ == "injected "@ + decimal(text@.len()) + " chars via "@ + route@ + " (backend ready in "@
            + duration_label(ready.secs, ready.nanos) + ", total "@ + duration_label(
            total.secs,
            total.nanos,
        ) + ")"@,
{
    let mut out = "injected ".to_owned();
    push_decimal(&mut out, text.unicode_len() as u128);
    push_text(&mut out, " chars via ");
    push_text(&mut out, route);
    push_text(&mut out, " (backend ready in ");
    push_text(&mut out, label_of_duration(ready.secs, ready.nanos).as_str());
    push_text(&mut out, ", total ");
    push_text(&mut out, label_of_duration(total.secs, total.nanos).as_str());
    push_text(&mut out, ")");
    out
}

/// The overlay's program: the one beside this one where there is one, or else
/// whichever is found.
pub fn overlay_program(beside: Option<String>) -> (r: String)
    ensures
        r@ == (match beside {
            Some(path) => path@,
            None => "murmur-hud"@,
        }),
{
    match beside {
        Some(path) => path,
        None => "murmur-hud".to_owned(),
    }
}

/// Silence is anything below five thousandths of full scale.
pub proof fn law_where_silence_ends()
    ensures
        1000 * silence().mant <= 5 * 0x8000_0000 + 1000,
        5 * 0x8000_0000 <= 1000 * silence().mant + 1000,
        silence().exp == -31,
{
}

/// A number of thousandths is written with a point and three digits, and without bound
/// as such.
pub proof fn law_how_thousandths_read(s: Single)
    ensures
        s == Single::infinity() ==> thousandths_text(s) == "inf"@,
        s != Single::infinity() ==> {
            let t = scaled_round(s.mant as nat, s.exp as int, 1000);
            thousandths_text(s) == decimal(t / 1000) + seq![
                '.',
                digit(t / 100 % 10),
                digit(t / 10 % 10),
                digit(t % 10),
            ]
        },
{
    if s != Single::infinity() {
        let t = scaled_round(s.mant as nat, s.exp as int, 1000);
        assert(thousandths_text(s) =~= decimal(t / 1000) + seq![
            '.',
            digit(t / 100 % 10),
            digit(t / 10 % 10),
            digit(t % 10),
        ]);
    }
}

/// What was heard is shown as it is quoted; that nothing was is said exactly where it
/// holds nothing but white space.
pub proof fn law_what_is_said_of_a_transcript(text: Seq<char>, quoted_text: Seq<char>)
    ensures
        heard_lines(text, quoted_text)[0] == "\n  "@ + quoted_text + "\n"@,
        heard_lines(text, quoted_text).len() == (if trim(text, Class::White).len() == 0 {
            3nat
        } else {
            1
        }),
        trim(text, Class::White).len() == 0 ==> heard_lines(text, quoted_text)[1]
            == "  \u{2717} audio was captured but transcribed to nothing."@,
{
}

/// A microphone is described by its name, rate and channels, in that order.
pub proof fn law_how_a_microphone_is_described(name: Seq<char>, rate: nat, channels: nat)
    ensures
        microphone_text(name, rate, channels) == name + " ("@ + decimal(rate) + " Hz, "@ + decimal(
            channels,
        ) + " ch)"@,
{
}

/// A key is called by its name, and by its label where it has none.
pub proof fn law_what_a_key_is_called(key: KeyCode)
    ensures
        named(key.0) matches Some(name) ==> called(key) == name,
        named(key.0) is None ==> called(key) == key_label(key.0),
{
}

} // verus!
