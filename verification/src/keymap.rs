//! Which key types which character on a US layout.

use crate::chars::{chars_of, to_lower};
use vstd::prelude::*;

verus! {

/// A key, by its Linux input event code.
#[derive(Clone, Copy, Debug, PartialEq, Eq, PartialOrd, Ord, Hash, Structural)]
pub struct KeyCode(pub u16);

pub const KEY_1: u16 = 2;

pub const KEY_2: u16 = 3;

pub const KEY_3: u16 = 4;

pub const KEY_4: u16 = 5;

pub const KEY_5: u16 = 6;

pub const KEY_6: u16 = 7;

pub const KEY_7: u16 = 8;

pub const KEY_8: u16 = 9;

pub const KEY_9: u16 = 10;

pub const KEY_0: u16 = 11;

pub const KEY_MINUS: u16 = 12;

pub const KEY_EQUAL: u16 = 13;

pub const KEY_BACKSPACE: u16 = 14;

pub const KEY_TAB: u16 = 15;

pub const KEY_Q: u16 = 16;

pub const KEY_W: u16 = 17;

pub const KEY_E: u16 = 18;

pub const KEY_R: u16 = 19;

pub const KEY_T: u16 = 20;

pub const KEY_Y: u16 = 21;

pub const KEY_U: u16 = 22;

pub const KEY_I: u16 = 23;

pub const KEY_O: u16 = 24;

pub const KEY_P: u16 = 25;

pub const KEY_LEFTBRACE: u16 = 26;

pub const KEY_RIGHTBRACE: u16 = 27;

pub const KEY_ENTER: u16 = 28;

pub const KEY_LEFTCTRL: u16 = 29;

pub const KEY_A: u16 = 30;

pub const KEY_S: u16 = 31;

pub const KEY_D: u16 = 32;

pub const KEY_F: u16 = 33;

pub const KEY_G: u16 = 34;

pub const KEY_H: u16 = 35;

pub const KEY_J: u16 = 36;

pub const KEY_K: u16 = 37;

pub const KEY_L: u16 = 38;

pub const KEY_SEMICOLON: u16 = 39;

pub const KEY_APOSTROPHE: u16 = 40;

pub const KEY_GRAVE: u16 = 41;

pub const KEY_LEFTSHIFT: u16 = 42;

pub const KEY_BACKSLASH: u16 = 43;

pub const KEY_Z: u16 = 44;

pub const KEY_X: u16 = 45;

pub const KEY_C: u16 = 46;

pub const KEY_V: u16 = 47;

pub const KEY_B: u16 = 48;

pub const KEY_N: u16 = 49;

pub const KEY_M: u16 = 50;

pub const KEY_COMMA: u16 = 51;

pub const KEY_DOT: u16 = 52;

pub const KEY_SLASH: u16 = 53;

pub const KEY_LEFTALT: u16 = 56;

pub const KEY_SPACE: u16 = 57;

impl KeyCode {
    #[must_use]
    pub fn new(code: u16) -> (r: Self)
        ensures
            r.0 == code,
    {
        KeyCode(code)
    }

    #[must_use]
    pub fn code(self) -> (r: u16)
        ensures
            r == self.0,
    {
        self.0
    }
}

/// The characters that can be typed: printable ASCII, the line break and the tab.
pub open spec fn can_type(c: char) -> bool {
    ' ' <= c <= '~' || c == '\n' || c == '\t'
}

/// A character for a key without Shift, and one with it.
pub open spec fn either(shift: bool, plain: char, shifted: char) -> Option<char> {
    Some(
        if shift {
            shifted
        } else {
            plain
        },
    )
}

/// The character that a key types on a US layout, with Shift held or not.
///
/// Shift makes no character of its own with the space bar, Enter and Tab.
pub open spec fn layout(key: KeyCode, shift: bool) -> Option<char> {
    let code = key.0;
    if code == KEY_1 {
        either(shift, '1', '!')
    } else if code == KEY_2 {
        either(shift, '2', '@')
    } else if code == KEY_3 {
        either(shift, '3', '#')
    } else if code == KEY_4 {
        either(shift, '4', '$')
    } else if code == KEY_5 {
        either(shift, '5', '%')
    } else if code == KEY_6 {
        either(shift, '6', '^')
    } else if code == KEY_7 {
        either(shift, '7', '&')
    } else if code == KEY_8 {
        either(shift, '8', '*')
    } else if code == KEY_9 {
        either(shift, '9', '(')
    } else if code == KEY_0 {
        either(shift, '0', ')')
    } else if code == KEY_MINUS {
        either(shift, '-', '_')
    } else if code == KEY_EQUAL {
        either(shift, '=', '+')
    } else if code == KEY_Q {
        either(shift, 'q', 'Q')
    } else if code == KEY_W {
        either(shift, 'w', 'W')
    } else if code == KEY_E {
        either(shift, 'e', 'E')
    } else if code == KEY_R {
        either(shift, 'r', 'R')
    } else if code == KEY_T {
        either(shift, 't', 'T')
    } else if code == KEY_Y {
        either(shift, 'y', 'Y')
    } else if code == KEY_U {
        either(shift, 'u', 'U')
    } else if code == KEY_I {
        either(shift, 'i', 'I')
    } else if code == KEY_O {
        either(shift, 'o', 'O')
    } else if code == KEY_P {
        either(shift, 'p', 'P')
    } else if code == KEY_LEFTBRACE {
        either(shift, '[', '{')
    } else if code == KEY_RIGHTBRACE {
        either(shift, ']', '}')
    } else if code == KEY_A {
        either(shift, 'a', 'A')
    } else if code == KEY_S {
        either(shift, 's', 'S')
    } else if code == KEY_D {
        either(shift, 'd', 'D')
    } else if code == KEY_F {
        either(shift, 'f', 'F')
    } else if code == KEY_G {
        either(shift, 'g', 'G')
    } else if code == KEY_H {
        either(shift, 'h', 'H')
    } else if code == KEY_J {
        either(shift, 'j', 'J')
    } else if code == KEY_K {
        either(shift, 'k', 'K')
    } else if code == KEY_L {
        either(shift, 'l', 'L')
    } else if code == KEY_SEMICOLON {
        either(shift, ';', ':')
    } else if code == KEY_APOSTROPHE {
        either(shift, '\'', '"')
    } else if code == KEY_GRAVE {
        either(shift, '`', '~')
    } else if code == KEY_BACKSLASH {
        either(shift, '\\', '|')
    } else if code == KEY_Z {
        either(shift, 'z', 'Z')
    } else if code == KEY_X {
        either(shift, 'x', 'X')
    } else if code == KEY_C {
        either(shift, 'c', 'C')
    } else if code == KEY_V {
        either(shift, 'v', 'V')
    } else if code == KEY_B {
        either(shift, 'b', 'B')
    } else if code == KEY_N {
        either(shift, 'n', 'N')
    } else if code == KEY_M {
        either(shift, 'm', 'M')
    } else if code == KEY_COMMA {
        either(shift, ',', '<')
    } else if code == KEY_DOT {
        either(shift, '.', '>')
    } else if code == KEY_SLASH {
        either(shift, '/', '?')
    } else if code == KEY_SPACE && !shift {
        Some(' ')
    } else if code == KEY_ENTER && !shift {
        Some('\n')
    } else if code == KEY_TAB && !shift {
        Some('\t')
    } else {
        None
    }
}

fn plain(code: u16) -> (r: Option<(KeyCode, bool)>)
    ensures
        r == Some((KeyCode(code), false)),
{
    Some((KeyCode(code), false))
}

fn shifted(code: u16) -> (r: Option<(KeyCode, bool)>)
    ensures
        r == Some((KeyCode(code), true)),
{
    Some((KeyCode(code), true))
}

/// Which key, and whether Shift is held, to produce a character on a US layout.
///
/// A `/dev/uinput` device emits scancodes, not characters: the compositor applies
/// the keymap. We therefore cannot type a character whose keysym the *user's*
/// layout does not have, and we cannot know their layout from here. Anything this
/// table cannot express is routed to the clipboard backend instead, which is
/// layout- and Unicode-independent.
#[must_use]
pub fn key_for(c: char) -> (r: Option<(KeyCode, bool)>)
    ensures
        match r {
            Some((key, shift)) => can_type(c) && layout(key, shift) == Some(c),
            None => !can_type(c),
        },
{
    match c {
        'a'..='z' => plain(letter(c).0),
        'A'..='Z' => shifted(letter(to_lower(c)).0),
        '1' => plain(KEY_1),
        '2' => plain(KEY_2),
        '3' => plain(KEY_3),
        '4' => plain(KEY_4),
        '5' => plain(KEY_5),
        '6' => plain(KEY_6),
        '7' => plain(KEY_7),
        '8' => plain(KEY_8),
        '9' => plain(KEY_9),
        '0' => plain(KEY_0),
        '!' => shifted(KEY_1),
        '@' => shifted(KEY_2),
        '#' => shifted(KEY_3),
        '$' => shifted(KEY_4),
        '%' => shifted(KEY_5),
        '^' => shifted(KEY_6),
        '&' => shifted(KEY_7),
        '*' => shifted(KEY_8),
        '(' => shifted(KEY_9),
        ')' => shifted(KEY_0),
        ' ' => plain(KEY_SPACE),
        '\n' => plain(KEY_ENTER),
        '\t' => plain(KEY_TAB),
        '-' => plain(KEY_MINUS),
        '_' => shifted(KEY_MINUS),
        '=' => plain(KEY_EQUAL),
        '+' => shifted(KEY_EQUAL),
        '[' => plain(KEY_LEFTBRACE),
        '{' => shifted(KEY_LEFTBRACE),
        ']' => plain(KEY_RIGHTBRACE),
        '}' => shifted(KEY_RIGHTBRACE),
        '\\' => plain(KEY_BACKSLASH),
        '|' => shifted(KEY_BACKSLASH),
        ';' => plain(KEY_SEMICOLON),
        ':' => shifted(KEY_SEMICOLON),
        '\'' => plain(KEY_APOSTROPHE),
        '"' => shifted(KEY_APOSTROPHE),
        '`' => plain(KEY_GRAVE),
        '~' => shifted(KEY_GRAVE),
        ',' => plain(KEY_COMMA),
        '<' => shifted(KEY_COMMA),
        '.' => plain(KEY_DOT),
        '>' => shifted(KEY_DOT),
        '/' => plain(KEY_SLASH),
        '?' => shifted(KEY_SLASH),
        _ => None,
    }
}

/// The key of a small letter.
fn letter(lower: char) -> (r: KeyCode)
    requires
        'a' <= lower <= 'z',
    ensures
        layout(r, false) == Some(lower),
        layout(r, true) == Some(((lower as u32 - 32) as u32) as char),
{
    KeyCode(
        match lower {
            'a' => KEY_A,
            'b' => KEY_B,
            'c' => KEY_C,
            'd' => KEY_D,
            'e' => KEY_E,
            'f' => KEY_F,
            'g' => KEY_G,
            'h' => KEY_H,
            'i' => KEY_I,
            'j' => KEY_J,
            'k' => KEY_K,
            'l' => KEY_L,
            'm' => KEY_M,
            'n' => KEY_N,
            'o' => KEY_O,
            'p' => KEY_P,
            'q' => KEY_Q,
            'r' => KEY_R,
            's' => KEY_S,
            't' => KEY_T,
            'u' => KEY_U,
            'v' => KEY_V,
            'w' => KEY_W,
            'x' => KEY_X,
            'y' => KEY_Y,
            _ => KEY_Z,
        },
    )
}

/// Distinct keys and Shift states never type the same character.
pub proof fn law_no_character_has_two_keys(a: KeyCode, x: bool, b: KeyCode, y: bool)
    requires
        layout(a, x) is Some,
        layout(a, x) == layout(b, y),
    ensures
        a == b,
        x == y,
{
}

/// What a key types is printable ASCII, a line break or a tab.
pub proof fn law_only_printable_ascii_can_be_typed(key: KeyCode, shift: bool)
    ensures
        layout(key, shift) matches Some(c) ==> can_type(c),
{
}

/// A letter's capital differs from it only by Shift.
pub proof fn law_case_differs_only_by_shift(key: KeyCode, shift: bool, c: char)
    requires
        'a' <= c <= 'z',
        layout(key, shift) == Some(c),
    ensures
        !shift,
        layout(key, true) == Some(crate::chars::upper(c)),
{
}

/// The text is made of characters that can be typed.
pub open spec fn typable(text: Seq<char>) -> bool {
    forall|i: int| 0 <= i < text.len() ==> can_type(#[trigger] text[i])
}

/// The character a key and shift state produce, inverting [`key_for`].
///
/// Used to decode our own emitted scancodes during `murmur selftest`, which is
/// how the injection path is verified without a focused window to type into.
#[must_use]
pub fn char_for(key: KeyCode, shift: bool) -> (r: Option<char>)
    ensures
        r == layout(key, shift),
{
    let mut b: u8 = 0x09;
    while b <= 0x7e
        invariant
            0x09 <= b <= 0x7f,
            forall|c: char| '\t' <= c && (c as u32) < b ==> layout(key, shift) != Some(c),
        decreases 0x7f - b,
    {
        let c: char = b as char;
        if let Some((k, s)) = key_for(c) {
            if k.0 == key.0 && s == shift {
                return Some(c);
            }
            proof {
                if layout(key, shift) == Some(c) {
                    law_no_character_has_two_keys(key, shift, k, s);
                }
            }
        }
        proof {
            law_only_printable_ascii_can_be_typed(key, shift);
        }
        b += 1;
    }
    proof {
        law_only_printable_ascii_can_be_typed(key, shift);
    }
    None
}

/// The first character of `text` that cannot be typed.
pub open spec fn untypable(text: Seq<char>) -> Option<char>
    decreases text.len(),
{
    if text.len() == 0 {
        None
    } else if !can_type(text[0]) {
        Some(text[0])
    } else {
        untypable(text.skip(1))
    }
}

/// Can every character in `text` be typed as a scancode?
#[must_use]
pub fn is_typable(text: &str) -> (r: bool)
    ensures
        r == typable(text@),
{
    let chars = chars_of(text);
    for i in 0..chars.len()
        invariant
            chars@ == text@,
            forall|j: int| 0 <= j < i ==> can_type(#[trigger] text@[j]),
    {
        if key_for(chars[i]).is_none() {
            return false;
        }
    }
    true
}

/// The first character that cannot be typed, for diagnostics.
#[must_use]
pub fn first_untypable(text: &str) -> (r: Option<char>)
    ensures
        r == untypable(text@),
        r is None == typable(text@),
{
    let chars = chars_of(text);
    assert(text@.skip(0) =~= text@);
    for i in 0..chars.len()
        invariant
            chars@ == text@,
            forall|j: int| 0 <= j < i ==> can_type(#[trigger] text@[j]),
            untypable(text@) == untypable(text@.skip(i as int)),
    {
        assert(text@.skip(i as int)[0] == text@[i as int]);
        assert(text@.skip(i as int).skip(1) =~= text@.skip(i + 1));
        if key_for(chars[i]).is_none() {
            return Some(chars[i]);
        }
    }
    None
}

/// The virtual device must declare the key: it types something, or is one of the
/// modifiers or Backspace.
pub open spec fn declared(key: KeyCode) -> bool {
    ||| layout(key, false) is Some
    ||| key.0 == KEY_LEFTSHIFT
    ||| key.0 == KEY_LEFTCTRL
    ||| key.0 == KEY_LEFTALT
    ||| key.0 == KEY_BACKSPACE
}

/// Every printable ASCII character, the line break and the tab are on some key.
pub proof fn law_printable_ascii_can_be_typed(c: char)
    requires
        can_type(c),
    ensures
        exists|key: KeyCode, shift: bool| #[trigger] layout(key, shift) == Some(c),
{
    assert(layout(KeyCode(KEY_1), false) == Some('1'));
    assert(layout(KeyCode(KEY_1), true) == Some('!'));
    assert(layout(KeyCode(KEY_2), false) == Some('2'));
    assert(layout(KeyCode(KEY_2), true) == Some('@'));
    assert(layout(KeyCode(KEY_3), false) == Some('3'));
    assert(layout(KeyCode(KEY_3), true) == Some('#'));
    assert(layout(KeyCode(KEY_4), false) == Some('4'));
    assert(layout(KeyCode(KEY_4), true) == Some('$'));
    assert(layout(KeyCode(KEY_5), false) == Some('5'));
    assert(layout(KeyCode(KEY_5), true) == Some('%'));
    assert(layout(KeyCode(KEY_6), false) == Some('6'));
    assert(layout(KeyCode(KEY_6), true) == Some('^'));
    assert(layout(KeyCode(KEY_7), false) == Some('7'));
    assert(layout(KeyCode(KEY_7), true) == Some('&'));
    assert(layout(KeyCode(KEY_8), false) == Some('8'));
    assert(layout(KeyCode(KEY_8), true) == Some('*'));
    assert(layout(KeyCode(KEY_9), false) == Some('9'));
    assert(layout(KeyCode(KEY_9), true) == Some('('));
    assert(layout(KeyCode(KEY_0), false) == Some('0'));
    assert(layout(KeyCode(KEY_0), true) == Some(')'));
    assert(layout(KeyCode(KEY_MINUS), false) == Some('-'));
    assert(layout(KeyCode(KEY_MINUS), true) == Some('_'));
    assert(layout(KeyCode(KEY_EQUAL), false) == Some('='));
    assert(layout(KeyCode(KEY_EQUAL), true) == Some('+'));
    assert(layout(KeyCode(KEY_Q), false) == Some('q'));
    assert(layout(KeyCode(KEY_Q), true) == Some('Q'));
    assert(layout(KeyCode(KEY_W), false) == Some('w'));
    assert(layout(KeyCode(KEY_W), true) == Some('W'));
    assert(layout(KeyCode(KEY_E), false) == Some('e'));
    assert(layout(KeyCode(KEY_E), true) == Some('E'));
    assert(layout(KeyCode(KEY_R), false) == Some('r'));
    assert(layout(KeyCode(KEY_R), true) == Some('R'));
    assert(layout(KeyCode(KEY_T), false) == Some('t'));
    assert(layout(KeyCode(KEY_T), true) == Some('T'));
    assert(layout(KeyCode(KEY_Y), false) == Some('y'));
    assert(layout(KeyCode(KEY_Y), true) == Some('Y'));
    assert(layout(KeyCode(KEY_U), false) == Some('u'));
    assert(layout(KeyCode(KEY_U), true) == Some('U'));
    assert(layout(KeyCode(KEY_I), false) == Some('i'));
    assert(layout(KeyCode(KEY_I), true) == Some('I'));
    assert(layout(KeyCode(KEY_O), false) == Some('o'));
    assert(layout(KeyCode(KEY_O), true) == Some('O'));
    assert(layout(KeyCode(KEY_P), false) == Some('p'));
    assert(layout(KeyCode(KEY_P), true) == Some('P'));
    assert(layout(KeyCode(KEY_LEFTBRACE), false) == Some('['));
    assert(layout(KeyCode(KEY_LEFTBRACE), true) == Some('{'));
    assert(layout(KeyCode(KEY_RIGHTBRACE), false) == Some(']'));
    assert(layout(KeyCode(KEY_RIGHTBRACE), true) == Some('}'));
    assert(layout(KeyCode(KEY_A), false) == Some('a'));
    assert(layout(KeyCode(KEY_A), true) == Some('A'));
    assert(layout(KeyCode(KEY_S), false) == Some('s'));
    assert(layout(KeyCode(KEY_S), true) == Some('S'));
    assert(layout(KeyCode(KEY_D), false) == Some('d'));
    assert(layout(KeyCode(KEY_D), true) == Some('D'));
    assert(layout(KeyCode(KEY_F), false) == Some('f'));
    assert(layout(KeyCode(KEY_F), true) == Some('F'));
    assert(layout(KeyCode(KEY_G), false) == Some('g'));
    assert(layout(KeyCode(KEY_G), true) == Some('G'));
    assert(layout(KeyCode(KEY_H), false) == Some('h'));
    assert(layout(KeyCode(KEY_H), true) == Some('H'));
    assert(layout(KeyCode(KEY_J), false) == Some('j'));
    assert(layout(KeyCode(KEY_J), true) == Some('J'));
    assert(layout(KeyCode(KEY_K), false) == Some('k'));
    assert(layout(KeyCode(KEY_K), true) == Some('K'));
    assert(layout(KeyCode(KEY_L), false) == Some('l'));
    assert(layout(KeyCode(KEY_L), true) == Some('L'));
    assert(layout(KeyCode(KEY_SEMICOLON), false) == Some(';'));
    assert(layout(KeyCode(KEY_SEMICOLON), true) == Some(':'));
    assert(layout(KeyCode(KEY_APOSTROPHE), false) == Some('\''));
    assert(layout(KeyCode(KEY_APOSTROPHE), true) == Some('"'));
    assert(layout(KeyCode(KEY_GRAVE), false) == Some('`'));
    assert(layout(KeyCode(KEY_GRAVE), true) == Some('~'));
    assert(layout(KeyCode(KEY_BACKSLASH), false) == Some('\\'));
    assert(layout(KeyCode(KEY_BACKSLASH), true) == Some('|'));
    assert(layout(KeyCode(KEY_Z), false) == Some('z'));
    assert(layout(KeyCode(KEY_Z), true) == Some('Z'));
    assert(layout(KeyCode(KEY_X), false) == Some('x'));
    assert(layout(KeyCode(KEY_X), true) == Some('X'));
    assert(layout(KeyCode(KEY_C), false) == Some('c'));
    assert(layout(KeyCode(KEY_C), true) == Some('C'));
    assert(layout(KeyCode(KEY_V), false) == Some('v'));
    assert(layout(KeyCode(KEY_V), true) == Some('V'));
    assert(layout(KeyCode(KEY_B), false) == Some('b'));
    assert(layout(KeyCode(KEY_B), true) == Some('B'));
    assert(layout(KeyCode(KEY_N), false) == Some('n'));
    assert(layout(KeyCode(KEY_N), true) == Some('N'));
    assert(layout(KeyCode(KEY_M), false) == Some('m'));
    assert(layout(KeyCode(KEY_M), true) == Some('M'));
    assert(layout(KeyCode(KEY_COMMA), false) == Some(','));
    assert(layout(KeyCode(KEY_COMMA), true) == Some('<'));
    assert(layout(KeyCode(KEY_DOT), false) == Some('.'));
    assert(layout(KeyCode(KEY_DOT), true) == Some('>'));
    assert(layout(KeyCode(KEY_SLASH), false) == Some('/'));
    assert(layout(KeyCode(KEY_SLASH), true) == Some('?'));
    assert(layout(KeyCode(KEY_SPACE), false) == Some(' '));
    assert(layout(KeyCode(KEY_ENTER), false) == Some('\n'));
    assert(layout(KeyCode(KEY_TAB), false) == Some('\t'));
}

/// Every key the virtual device must declare, including modifiers, each once and in
/// order of their codes.
#[must_use]
pub fn all_keys() -> (r: Vec<KeyCode>)
    ensures
        forall|key: KeyCode| #[trigger] r@.contains(key) == declared(key),
        forall|i: int, j: int| 0 <= i < j < r@.len() ==> (#[trigger] r@[i]).0 < (#[trigger] r@[j]).0,
{
    let mut keys: Vec<KeyCode> = Vec::new();
    let mut code: u16 = 0;
    while code <= KEY_SPACE
        invariant
            code <= KEY_SPACE + 1,
            forall|key: KeyCode|
                key.0 < code ==> #[trigger] keys@.contains(key) == declared(key),
            forall|i: int| 0 <= i < keys@.len() ==> (#[trigger] keys@[i]).0 < code,
            forall|i: int, j: int|
                0 <= i < j < keys@.len() ==> (#[trigger] keys@[i]).0 < (#[trigger] keys@[j]).0,
        decreases KEY_SPACE + 1 - code,
    {
        let key = KeyCode(code);
        let ghost before = keys@;
        assert(!before.contains(key));
        if char_for(key, false).is_some() || code == KEY_LEFTSHIFT || code == KEY_LEFTCTRL || code
            == KEY_LEFTALT || code == KEY_BACKSPACE {
            keys.push(key);
            assert forall|k: KeyCode| k.0 < code + 1 implies #[trigger] keys@.contains(k)
                == declared(k) by {
                if k.0 == code {
                    assert(keys@[keys@.len() - 1] == k);
                } else if before.contains(k) {
                    let i = choose|i: int| 0 <= i < before.len() && before[i] == k;
                    assert(keys@[i] == k);
                } else if keys@.contains(k) {
                    let i = choose|i: int| 0 <= i < keys@.len() && keys@[i] == k;
                    assert(before[i] == k);
                }
            }
        } else {
            assert forall|k: KeyCode| k.0 < code + 1 implies #[trigger] keys@.contains(k)
                == declared(k) by {
                if k.0 == code {
                    assert(k == key);
                }
            }
        }
        code += 1;
    }
    assert forall|key: KeyCode| #[trigger] keys@.contains(key) == declared(key) by {
        if key.0 > KEY_SPACE {
            assert(!declared(key));
        }
    }
    keys
}

/// Everything that typing needs is declared: the key of every character, and Shift.
pub proof fn law_every_key_typed_is_declared(key: KeyCode, shift: bool)
    requires
        layout(key, shift) is Some,
    ensures
        declared(key),
        declared(KeyCode(KEY_LEFTSHIFT)),
{
}

/// The keys from `first` on type the characters of `plain` in order, and those of
/// `shifted` with Shift.
pub open spec fn is_row(first: int, plain: Seq<char>, shifted: Seq<char>) -> bool {
    &&& plain.len() == shifted.len()
    &&& forall|i: int|
        0 <= i < plain.len() ==> layout(KeyCode((first + i) as u16), false) == Some(
            #[trigger] plain[i],
        ) && layout(KeyCode((first + i) as u16), true) == Some(shifted[i])
}

/// The layout is that of a US keyboard, row by row as the keys are numbered.
pub proof fn law_the_rows_of_a_us_keyboard()
    ensures
        is_row(2, "1234567890-="@, "!@#$%^&*()_+"@),
        is_row(16, "qwertyuiop[]"@, "QWERTYUIOP{}"@),
        is_row(30, "asdfghjkl;'`"@, "ASDFGHJKL:\"~"@),
        is_row(43, "\\zxcvbnm,./"@, "|ZXCVBNM<>?"@),
        layout(KeyCode(57), false) == Some(' '),
        layout(KeyCode(28), false) == Some('\n'),
        layout(KeyCode(15), false) == Some('\t'),
        KEY_LEFTSHIFT == 42,
        KEY_LEFTCTRL == 29,
        KEY_LEFTALT == 56,
        KEY_BACKSPACE == 14,
        KEY_V == 47,
{
    reveal_strlit("1234567890-=");
    reveal_strlit("!@#$%^&*()_+");
    reveal_strlit("qwertyuiop[]");
    reveal_strlit("QWERTYUIOP{}");
    reveal_strlit("asdfghjkl;'`");
    reveal_strlit("ASDFGHJKL:\"~");
    reveal_strlit("\\zxcvbnm,./");
    reveal_strlit("|ZXCVBNM<>?");
}

/// No other key types anything, and Shift makes nothing of the space bar, Enter and
/// Tab.
pub proof fn law_only_the_rows_type(key: KeyCode, shift: bool)
    requires
        layout(key, shift) is Some,
    ensures
        2 <= key.0 <= 13 || 16 <= key.0 <= 27 || 30 <= key.0 <= 41 || 43 <= key.0 <= 53 || (!shift
            && (key.0 == 57 || key.0 == 28 || key.0 == 15)),
{
}

/// What can be typed is printable ASCII, line breaks and tabs.
pub proof fn law_what_can_be_typed(text: Seq<char>)
    ensures
        typable(text) <==> forall|i: int|
            0 <= i < text.len() ==> 32 <= #[trigger] text[i] as int <= 126 || text[i] as int == 10
                || text[i] as int == 9,
{
    assert forall|c: char| #[trigger]
        can_type(c) == (32 <= c as int <= 126 || c as int == 10 || c as int == 9) by {}
    if typable(text) {
        assert forall|i: int| 0 <= i < text.len() implies 32 <= #[trigger] text[i] as int <= 126
            || text[i] as int == 10 || text[i] as int == 9 by {
            assert(can_type(text[i]));
        }
    }
}

/// The character that is refused is the first that cannot be typed, and none is where
/// all of them can.
pub proof fn law_the_first_that_cannot_be_typed(text: Seq<char>)
    ensures
        match untypable(text) {
            Some(c) => exists|i: int|
                0 <= i < text.len() && #[trigger] text[i] == c && !can_type(c) && typable(
                    text.take(i),
                ),
            None => typable(text),
        },
    decreases text.len(),
{
    if text.len() > 0 {
        let rest = text.skip(1);
        if !can_type(text[0]) {
            assert(text.take(0) =~= Seq::<char>::empty());
        } else {
            law_the_first_that_cannot_be_typed(rest);
            match untypable(rest) {
                Some(c) => {
                    let i = choose|i: int|
                        0 <= i < rest.len() && #[trigger] rest[i] == c && !can_type(c) && typable(
                            rest.take(i),
                        );
                    assert(text[i + 1] == c);
                    assert forall|j: int| 0 <= j < i + 1 implies can_type(
                        #[trigger] text.take(i + 1)[j],
                    ) by {
                        if j > 0 {
                            assert(rest.take(i)[j - 1] == text[j]);
                        }
                    }
                },
                None => {
                    assert forall|j: int| 0 <= j < text.len() implies can_type(
                        #[trigger] text[j],
                    ) by {
                        if j > 0 {
                            assert(rest[j - 1] == text[j]);
                        }
                    }
                },
            }
        }
    }
}

} // verus!
