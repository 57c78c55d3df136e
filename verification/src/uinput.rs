//! What a kernel-level virtual keyboard emits.
//!
//! Because the events enter through evdev, every compositor and toolkit treats
//! them as real hardware — no portal, no consent prompt, and no dependency on
//! Wayland protocols GNOME chooses not to implement. The cost is that we emit
//! scancodes, so we can only type what the keymap can express.

use crate::chars::chars_of;
use crate::inject::InjectError;
use crate::keymap::{
    can_type, first_untypable, key_for, law_no_character_has_two_keys, layout, typable, untypable,
    KeyCode, KEY_BACKSPACE, KEY_LEFTSHIFT,
};
use vstd::prelude::*;

verus! {

/// One key going down or up.
#[derive(Debug, Clone, Copy, PartialEq, Eq, Structural)]
pub struct Stroke {
    pub key: KeyCode,
    /// One for down, zero for up.
    pub value: i32,
}

pub open spec fn down(key: KeyCode) -> Stroke {
    Stroke { key, value: 1 }
}

pub open spec fn up(key: KeyCode) -> Stroke {
    Stroke { key, value: 0 }
}

/// The strokes of one key, with Shift held around it or not.
pub open spec fn tapped(key: KeyCode, shift: bool) -> Seq<Stroke> {
    if shift {
        seq![down(KeyCode(KEY_LEFTSHIFT)), down(key), up(key), up(KeyCode(KEY_LEFTSHIFT))]
    } else {
        seq![down(key), up(key)]
    }
}

/// The key and Shift state of a character that can be typed.
pub open spec fn key_of(c: char) -> (KeyCode, bool) {
    choose|key: KeyCode, shift: bool| #[trigger] layout(key, shift) == Some(c)
}

/// The strokes of each character in turn.
pub open spec fn typed(text: Seq<char>) -> Seq<Seq<Stroke>> {
    text.map_values(|c: char| tapped(key_of(c).0, key_of(c).1))
}

pub open spec fn bursts(all: Seq<Vec<Stroke>>) -> Seq<Seq<Stroke>> {
    all.map_values(|b: Vec<Stroke>| b@)
}

/// Taps a key.
pub fn tap(key: KeyCode, shift: bool) -> (r: Vec<Stroke>)
    ensures
        r@ == tapped(key, shift),
{
    let r = if shift {
        vec![
            Stroke { key: KeyCode(KEY_LEFTSHIFT), value: 1 },
            Stroke { key, value: 1 },
            Stroke { key, value: 0 },
            Stroke { key: KeyCode(KEY_LEFTSHIFT), value: 0 },
        ]
    } else {
        vec![Stroke { key, value: 1 }, Stroke { key, value: 0 }]
    };
    assert(r@ =~= tapped(key, shift));
    r
}

/// What to emit to type `text`, one burst of strokes for each character.
///
/// A character outside the keymap is refused before anything is emitted, so a
/// partial line is never left behind.
pub fn type_text(text: &str) -> (r: Result<Vec<Vec<Stroke>>, InjectError>)
    ensures
        match r {
            Ok(all) => typable(text@) && bursts(all@) == typed(text@),
            Err(e) => !typable(text@) && (e matches InjectError::Untypable { ch } && untypable(
                text@,
            ) == Some(ch)),
        },
{
    if let Some(ch) = first_untypable(text) {
        return Err(InjectError::Untypable { ch });
    }
    let chars = chars_of(text);
    let mut out: Vec<Vec<Stroke>> = Vec::new();
    for i in 0..chars.len()
        invariant
            chars@ == text@,
            typable(text@),
            bursts(out@) == typed(text@).take(i as int),
    {
        assert(can_type(text@[i as int]));
        if let Some((key, shift)) = key_for(chars[i]) {
            let ghost before = out@;
            let burst = tap(key, shift);
            out.push(burst);
            proof {
                assert(layout(key, shift) == Some(text@[i as int]));
                let other = key_of(text@[i as int]);
                law_no_character_has_two_keys(key, shift, other.0, other.1);
                assert(bursts(out@) =~= bursts(before).push(burst@));
                assert(typed(text@).take(i + 1) =~= typed(text@).take(i as int).push(
                    typed(text@)[i as int],
                ));
            }
        }
    }
    assert(typed(text@).take(text@.len() as int) =~= typed(text@));
    Ok(out)
}

/// The keys going down in order.
pub open spec fn pressed(keys: Seq<KeyCode>) -> Seq<Stroke> {
    keys.map_values(|k: KeyCode| down(k))
}

/// The keys going up, the last first.
pub open spec fn released(keys: Seq<KeyCode>) -> Seq<Stroke> {
    keys.reverse().map_values(|k: KeyCode| up(k))
}

/// The strokes of a key with others held around it.
pub open spec fn chorded(modifiers: Seq<KeyCode>, key: KeyCode) -> Seq<Stroke> {
    pressed(modifiers) + seq![down(key), up(key)] + released(modifiers)
}

/// Press `key` while holding `modifiers`, then release everything.
pub fn chord(modifiers: &[KeyCode], key: KeyCode) -> (r: Vec<Stroke>)
    ensures
        r@ == chorded(modifiers@, key),
{
    let n: usize = modifiers.len();
    let mut events: Vec<Stroke> = Vec::new();
    for i in 0..n
        invariant
            n == modifiers@.len(),
            events@ == pressed(modifiers@).take(i as int),
    {
        events.push(Stroke { key: modifiers[i], value: 1 });
        assert(pressed(modifiers@).take(i + 1) =~= pressed(modifiers@).take(i as int).push(
            pressed(modifiers@)[i as int],
        ));
    }
    assert(pressed(modifiers@).take(n as int) =~= pressed(modifiers@));
    events.push(Stroke { key, value: 1 });
    events.push(Stroke { key, value: 0 });
    let ghost middle = events@;
    assert(middle =~= pressed(modifiers@) + seq![down(key), up(key)]);
    assert(middle + released(modifiers@).take(0) =~= middle);
    for i in 0..n
        invariant
            n == modifiers@.len(),
            events@ == middle + released(modifiers@).take(i as int),
    {
        events.push(Stroke { key: modifiers[n - 1 - i], value: 0 });
        assert(released(modifiers@).take(i + 1) =~= released(modifiers@).take(i as int).push(
            released(modifiers@)[i as int],
        ));
        assert(events@ =~= middle + released(modifiers@).take(i + 1));
    }
    assert(released(modifiers@).take(n as int) =~= released(modifiers@));
    events
}

/// What to emit to erase `count` characters to the left of the cursor, one burst of
/// strokes for each.
pub fn backspace(count: usize) -> (r: Vec<Vec<Stroke>>)
    ensures
        r@.len() == count,
        forall|i: int|
            0 <= i < count ==> (#[trigger] r@[i])@ == tapped(KeyCode(KEY_BACKSPACE), false),
{
    let mut out: Vec<Vec<Stroke>> = Vec::new();
    for i in 0..count
        invariant
            out@.len() == i,
            forall|j: int|
                0 <= j < i ==> (#[trigger] out@[j])@ == tapped(KeyCode(KEY_BACKSPACE), false),
    {
        out.push(tap(KeyCode(KEY_BACKSPACE), false));
    }
    out
}

/// The keys that are down after `strokes`, where those in `held` were down before.
pub open spec fn held_after(held: Set<KeyCode>, strokes: Seq<Stroke>) -> Set<KeyCode>
    decreases strokes.len(),
{
    if strokes.len() == 0 {
        held
    } else {
        let before = held_after(held, strokes.drop_last());
        let last = strokes.last();
        if last.value == 0 {
            before.remove(last.key)
        } else {
            before.insert(last.key)
        }
    }
}

proof fn lemma_held_after_both(held: Set<KeyCode>, a: Seq<Stroke>, b: Seq<Stroke>)
    ensures
        held_after(held, a + b) == held_after(held_after(held, a), b),
    decreases b.len(),
{
    if b.len() == 0 {
        assert(a + b =~= a);
    } else {
        assert((a + b).drop_last() =~= a + b.drop_last());
        lemma_held_after_both(held, a, b.drop_last());
    }
}

proof fn lemma_pressed(held: Set<KeyCode>, keys: Seq<KeyCode>)
    ensures
        forall|k: KeyCode|
            #[trigger] held_after(held, pressed(keys)).contains(k) ==> held.contains(k)
                || keys.contains(k),
    decreases keys.len(),
{
    if keys.len() > 0 {
        let front = keys.drop_last();
        lemma_pressed(held, front);
        assert(pressed(keys).drop_last() =~= pressed(front));
        assert forall|k: KeyCode| #[trigger]
            held_after(held, pressed(keys)).contains(k) implies held.contains(k) || keys.contains(
            k,
        ) by {
            if k == keys.last() {
                assert(keys[keys.len() - 1] == k);
            } else {
                assert(held_after(held, pressed(front)).contains(k));
                if front.contains(k) {
                    let i = choose|i: int| 0 <= i < front.len() && front[i] == k;
                    assert(keys[i] == k);
                }
            }
        }
    }
}

proof fn lemma_released(held: Set<KeyCode>, keys: Seq<KeyCode>)
    ensures
        forall|k: KeyCode|
            #[trigger] held_after(held, released(keys)).contains(k) ==> held.contains(k)
                && !keys.contains(k),
    decreases keys.len(),
{
    if keys.len() > 0 {
        let rest = keys.skip(1);
        lemma_released(held, rest);
        assert(released(keys).drop_last() =~= released(rest));
        assert(released(keys).last() == up(keys[0]));
        assert forall|k: KeyCode| #[trigger]
            held_after(held, released(keys)).contains(k) implies held.contains(k) && !keys.contains(
            k,
        ) by {
            assert(held_after(held, released(rest)).contains(k));
            if keys.contains(k) {
                let i = choose|i: int| 0 <= i < keys.len() && keys[i] == k;
                if i > 0 {
                    assert(rest[i - 1] == k);
                }
            }
        }
    }
}

/// A chord leaves no key down.
pub proof fn law_a_chord_releases_everything(modifiers: Seq<KeyCode>, key: KeyCode)
    ensures
        held_after(Set::empty(), chorded(modifiers, key)) == Set::<KeyCode>::empty(),
{
    let none = Set::<KeyCode>::empty();
    let middle = seq![down(key), up(key)];
    let first = pressed(modifiers) + middle;
    lemma_held_after_both(none, first, released(modifiers));
    lemma_held_after_both(none, pressed(modifiers), middle);
    lemma_pressed(none, modifiers);
    let held = held_after(none, pressed(modifiers));
    assert(held_after(held, middle) =~= held.remove(key)) by {
        assert(middle.drop_last() =~= seq![down(key)]);
        assert(seq![down(key)].drop_last() =~= Seq::<Stroke>::empty());
        reveal_with_fuel(held_after, 3);
        assert(held.insert(key).remove(key) =~= held.remove(key));
    }
    lemma_released(held.remove(key), modifiers);
    assert(held_after(none, chorded(modifiers, key)) =~= none) by {
        assert forall|k: KeyCode| !held_after(none, chorded(modifiers, key)).contains(k) by {
            if held_after(held.remove(key), released(modifiers)).contains(k) {
                assert(held.contains(k));
            }
        }
    }
}

/// A tap leaves no key down.
pub proof fn law_a_tap_releases_everything(key: KeyCode, shift: bool)
    ensures
        held_after(Set::empty(), tapped(key, shift)) == Set::<KeyCode>::empty(),
{
    if shift {
        let held = seq![KeyCode(KEY_LEFTSHIFT)];
        law_a_chord_releases_everything(held, key);
        assert(tapped(key, shift) =~= chorded(held, key));
    } else {
        let none = Seq::<KeyCode>::empty();
        law_a_chord_releases_everything(none, key);
        assert(tapped(key, shift) =~= chorded(none, key));
    }
}

/// Each character is typed by one press and release of its own key, inside a press
/// and release of Shift exactly where the character needs it.
pub proof fn law_each_character_is_one_tap(text: Seq<char>, i: int)
    requires
        typable(text),
        0 <= i < text.len(),
    ensures
        typed(text).len() == text.len(),
        exists|key: KeyCode, shift: bool| #[trigger]
            layout(key, shift) == Some(text[i]) && typed(text)[i] == (if shift {
                seq![
                    Stroke { key: KeyCode(42), value: 1 },
                    Stroke { key, value: 1 },
                    Stroke { key, value: 0 },
                    Stroke { key: KeyCode(42), value: 0 },
                ]
            } else {
                seq![Stroke { key, value: 1 }, Stroke { key, value: 0 }]
            }),
{
    assert(can_type(text[i]));
    crate::keymap::law_printable_ascii_can_be_typed(text[i]);
    let (key, shift) = key_of(text[i]);
    assert(layout(key, shift) == Some(text[i]));
    assert(typed(text)[i] == tapped(key, shift));
}

/// In a chord the modifiers go down in order, the key is pressed and released, and
/// the modifiers come up in the opposite order.
pub proof fn law_a_chord_holds_its_modifiers(modifiers: Seq<KeyCode>, key: KeyCode)
    ensures
        ({
            let strokes = chorded(modifiers, key);
            let n = modifiers.len() as int;
            &&& strokes.len() == 2 * n + 2
            &&& strokes[n] == (Stroke { key, value: 1 })
            &&& strokes[n + 1] == (Stroke { key, value: 0 })
            &&& forall|i: int|
                0 <= i < n ==> strokes[i] == (Stroke { key: #[trigger] modifiers[i], value: 1 })
                    && strokes[2 * n + 1 - i] == (Stroke { key: modifiers[i], value: 0 })
        }),
{
    let strokes = chorded(modifiers, key);
    let n = modifiers.len() as int;
    assert forall|i: int| 0 <= i < n implies strokes[i] == (Stroke {
        key: #[trigger] modifiers[i],
        value: 1,
    }) && strokes[2 * n + 1 - i] == (Stroke { key: modifiers[i], value: 0 }) by {
        assert(strokes[i] == pressed(modifiers)[i]);
        assert(strokes[2 * n + 1 - i] == released(modifiers)[n - 1 - i]);
    }
}

} // verus!
