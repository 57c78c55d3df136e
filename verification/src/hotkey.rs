//! Global push-to-talk, read straight from the kernel.
//!
//! Wayland has no portable global-hotkey API, and the one GNOME does offer
//! (`org.freedesktop.portal.GlobalShortcuts`) reports activation, not the press
//! and release edges that push-to-talk is built on. Reading evdev sidesteps both
//! problems: we see every key on every keyboard, in any session, with press and
//! release distinguished, and it costs one blocking read per device.
//!
//! The trade-off is that evdev cannot *swallow* a key. `EVIOCGRAB` is
//! all-or-nothing per device, so suppressing the trigger would suppress the
//! whole keyboard. The trigger key must therefore be one that does nothing on
//! its own — which is exactly why the default is Right Ctrl.

use crate::chars::{
    begins_with, chars_of, lemma_leading, lemma_trimmed_len, part, push_text, string_of, to_upper,
    trim, trimmed, upper, uppered, Class,
};
use crate::keymap::KeyCode;
use crate::order::name_views;
use crate::outside::{is_name_char, key_label, label_of_key, quoted, to_quoted};
use crate::time::Millis;
use vstd::prelude::*;

verus! {

#[derive(Clone, Debug, PartialEq, Eq)]
pub enum HotkeyError {
    UnknownKey(String),
    NoDevice(String),
}

/// What an error says.
#[verifier::ext_equal]
pub enum HotkeyErrorView {
    UnknownKey(Seq<char>),
    NoDevice(Seq<char>),
}

impl View for HotkeyError {
    type V = HotkeyErrorView;

    open spec fn view(&self) -> HotkeyErrorView {
        match self {
            HotkeyError::UnknownKey(s) => HotkeyErrorView::UnknownKey(s@),
            HotkeyError::NoDevice(s) => HotkeyErrorView::NoDevice(s@),
        }
    }
}

impl HotkeyErrorView {
    pub open spec fn says(self) -> Seq<char> {
        match self {
            HotkeyErrorView::UnknownKey(name) => unknown_key_line(quoted(name)),
            HotkeyErrorView::NoDevice(key) => "no readable keyboard reports "@ + key
                + ". Add yourself to the 'input' group (`sudo usermod -aG input $USER`), then log out and back in."@,
        }
    }
}

/// What is said of a key that no name in the table is, given how its name is quoted.
pub open spec fn unknown_key_line(quoted_name: Seq<char>) -> Seq<char> {
    "unknown key name "@ + quoted_name + "; run `murmur keys` and press the key you want"@
}

/// What is said of a key that no name in the table is, given how its name is quoted.
pub fn unknown_key_message(quoted_name: &str) -> (r: String)
    ensures
        r@ == unknown_key_line(quoted_name@),
{
    let mut out = "unknown key name ".to_owned();
    push_text(&mut out, quoted_name);
    push_text(&mut out, "; run `murmur keys` and press the key you want");
    out
}

impl HotkeyError {
    /// What the error says.
    pub fn message(&self) -> (r: String)
        ensures
            r@ == self@.says(),
    {
        match self {
            HotkeyError::UnknownKey(name) => unknown_key_message(
                to_quoted(name.as_str()).as_str(),
            ),
            HotkeyError::NoDevice(key) => {
                let mut out = "no readable keyboard reports ".to_owned();
                push_text(&mut out, key.as_str());
                push_text(
                    &mut out,
                    ". Add yourself to the 'input' group (`sudo usermod -aG input $USER`), then log out and back in.",
                );
                out
            },
        }
    }
}

#[derive(Debug, Clone, Copy, PartialEq, Eq, Structural)]
pub enum Edge {
    Down,
    Up,
}

#[derive(Debug, Clone, Copy)]
pub struct TriggerEvent {
    pub edge: Edge,
    pub at: Millis,
}

/// `s` without `KEY_` at its front, if it begins with that.
pub open spec fn stripped(s: Seq<char>) -> Option<Seq<char>> {
    if "KEY_"@.is_prefix_of(s) {
        Some(s.skip(4))
    } else {
        None
    }
}

fn strip_key(s: &[char]) -> (r: Option<Vec<char>>)
    ensures
        match r {
            Some(rest) => stripped(s@) == Some(rest@),
            None => stripped(s@) is None,
        },
{
    let prefix = chars_of("KEY_");
    proof {
        reveal_strlit("KEY_");
    }
    if begins_with(s, prefix.as_slice()) {
        let rest = part(s, 4, s.len());
        assert(rest@ =~= s@.skip(4));
        Some(rest)
    } else {
        None
    }
}

/// The bare name in a key's label, without the `KEY_` prefix.
pub fn bare_name(label: &str) -> (r: Option<String>)
    ensures
        match r {
            Some(name) => stripped(label@) == Some(name@),
            None => stripped(label@) is None,
        },
{
    match strip_key(chars_of(label).as_slice()) {
        Some(rest) => Some(string_of(rest.as_slice())),
        None => None,
    }
}

/// The name a user's spelling stands for: without white space around it, in
/// capitals, and without `KEY_` at its front.
pub open spec fn wanted(spelling: Seq<char>) -> Seq<char> {
    let capitals = uppered(trim(spelling, Class::White));
    match stripped(capitals) {
        Some(rest) => rest,
        None => capitals,
    }
}

/// The name a user's spelling stands for.
pub fn wanted_name(spelling: &str) -> (r: String)
    ensures
        r@ == wanted(spelling@),
{
    let text = trimmed(chars_of(spelling).as_slice(), Class::White);
    let mut capitals: Vec<char> = Vec::new();
    for i in 0..text.len()
        invariant
            capitals@.len() == i,
            forall|j: int| 0 <= j < i ==> capitals@[j] == upper(#[trigger] text@[j]),
    {
        capitals.push(to_upper(text[i]));
    }
    assert(capitals@ =~= uppered(text@));
    match strip_key(capitals.as_slice()) {
        Some(rest) => string_of(rest.as_slice()),
        None => string_of(capitals.as_slice()),
    }
}

/// The bare name of a key, if it has one.
pub open spec fn named(code: u16) -> Option<Seq<char>> {
    stripped(key_label(code))
}

/// The last code that keys are looked up among.
pub const LAST_CODE: u16 = 0x2ff;

/// The first code from `from` on whose key has the name.
pub open spec fn first_named(name: Seq<char>, from: nat) -> Option<u16>
    decreases LAST_CODE + 1 - from,
{
    if from > LAST_CODE {
        None
    } else if named(from as u16) == Some(name) {
        Some(from as u16)
    } else {
        first_named(name, from + 1)
    }
}

/// The code of the key a user's spelling stands for.
pub open spec fn resolved(spelling: Seq<char>) -> Option<u16> {
    first_named(wanted(spelling), 1)
}

proof fn lemma_only_one_named(name: Seq<char>, from: nat, code: u16)
    requires
        from <= code <= LAST_CODE,
        named(code) == Some(name),
        forall|other: u16| #[trigger] named(other) == Some(name) ==> other == code,
    ensures
        first_named(name, from) == Some(code),
    decreases LAST_CODE + 1 - from,
{
    if from < code {
        assert(named(from as u16) != Some(name));
        lemma_only_one_named(name, from + 1, code);
    }
}

/// A name made of capital letters, digits and underscores stands for itself, unless
/// it begins with `KEY_`.
proof fn lemma_plain_name_stands_for_itself(name: Seq<char>)
    requires
        forall|i: int| 0 <= i < name.len() ==> is_name_char(#[trigger] name[i]),
        stripped(name) is None,
    ensures
        wanted(name) == name,
{
    lemma_leading(name, Class::White);
    if name.len() > 0 {
        assert(is_name_char(name[0]));
        assert(is_name_char(name[name.len() - 1]));
    }
    assert(name.skip(0) =~= name);
    lemma_trimmed_len(name, Class::White);
    assert(trim(name, Class::White) =~= name);
    assert forall|i: int| 0 <= i < name.len() implies upper(name[i]) == name[i] by {
        assert(is_name_char(name[i]));
    }
    assert(uppered(name) =~= name);
}

/// The bare name of a key, without the `KEY_` prefix.
///
/// Looking the name up gives the key back: names round-trip.
#[must_use]
pub fn key_name(key: KeyCode) -> (r: Option<String>)
    ensures
        match r {
            Some(name) => named(key.0) == Some(name@),
            None => named(key.0) is None,
        },
        r matches Some(name) ==> (1 <= key.0 <= LAST_CODE ==> resolved(name@) == Some(key.0)),
{
    let label = label_of_key(key.0);
    match bare_name(label.as_str()) {
        Some(name) => {
            proof {
                reveal_strlit("KEY_");
                let text = label@;
                assert forall|i: int| 0 <= i < name@.len() implies is_name_char(
                    #[trigger] name@[i],
                ) by {
                    assert(text[i + 4] == name@[i]);
                }
                lemma_plain_name_stands_for_itself(name@);
                assert forall|other: u16| #[trigger] named(other) == Some(name@) implies other
                    == key.0 by {
                    let their = key_label(other);
                    assert(their.subrange(0, 4) =~= text.subrange(0, 4));
                    assert(their =~= their.subrange(0, 4) + their.skip(4));
                    assert(text =~= text.subrange(0, 4) + text.skip(4));
                }
                if 1 <= key.0 <= LAST_CODE {
                    lemma_only_one_named(name@, 1, key.0);
                }
            }
            Some(name)
        },
        None => None,
    }
}

/// Resolve a key name such as `RIGHTCTRL` or `KEY_F13` to its code.
pub fn key_by_name(name: &str) -> (r: Result<KeyCode, HotkeyError>)
    ensures
        match r {
            Ok(key) => resolved(name@) == Some(key.0),
            Err(e) => resolved(name@) is None && e@ == HotkeyErrorView::UnknownKey(name@),
        },
{
    let text = wanted_name(name);
    let mut code: u16 = 1;
    while code <= LAST_CODE
        invariant
            1 <= code <= LAST_CODE + 1,
            text@ == wanted(name@),
            resolved(name@) == first_named(text@, code as nat),
        decreases LAST_CODE + 1 - code,
    {
        if let Some(this) = key_name(KeyCode(code)) {
            if this == text {
                return Ok(KeyCode(code));
            }
        }
        code += 1;
    }
    Err(HotkeyError::UnknownKey(name.to_owned()))
}

/// A device that may be watched.
#[derive(Debug, Clone, PartialEq, Eq)]
pub struct Keyboard {
    pub name: Option<String>,
    pub path: String,
    /// It reports keys at all.
    pub has_keys: bool,
    /// It reports the key in question.
    pub reports: bool,
}

impl Keyboard {
    /// It is our own virtual keyboard, which must never be treated as a trigger
    /// source.
    pub open spec fn is_ours(self) -> bool {
        self.name matches Some(name) && name@ == "Murmur virtual keyboard"@
    }

    /// It is to be watched: for any key, or for the key in question.
    pub open spec fn counts(self, any: bool) -> bool {
        !self.is_ours() && (if any {
            self.has_keys
        } else {
            self.reports
        })
    }

    fn is_watched(&self, any: bool) -> (r: bool)
        ensures
            r == self.counts(any),
    {
        let ours = match &self.name {
            Some(name) => *name == "Murmur virtual keyboard".to_owned(),
            None => false,
        };
        !ours && (if any {
            self.has_keys
        } else {
            self.reports
        })
    }

    /// How the device is listed.
    pub open spec fn listed(self) -> Seq<char> {
        (match self.name {
            Some(name) => name@,
            None => "unnamed"@,
        }) + " ("@ + self.path@ + ")"@
    }

    /// How the device is listed.
    pub fn listing(&self) -> (r: String)
        ensures
            r@ == self.listed(),
    {
        let mut out = match &self.name {
            Some(name) => name.clone(),
            None => "unnamed".to_owned(),
        };
        push_text(&mut out, " (");
        push_text(&mut out, self.path.as_str());
        push_text(&mut out, ")");
        out
    }
}

/// The places in `devices` of those that are to be watched, in order.
pub open spec fn watched(devices: Seq<Keyboard>, any: bool) -> Seq<usize>
    decreases devices.len(),
{
    if devices.len() == 0 {
        Seq::empty()
    } else {
        let front = watched(devices.drop_last(), any);
        if devices.last().counts(any) {
            front.push((devices.len() - 1) as usize)
        } else {
            front
        }
    }
}

fn watched_devices(devices: &[Keyboard], any: bool) -> (r: Vec<usize>)
    ensures
        r@ == watched(devices@, any),
{
    let mut out: Vec<usize> = Vec::new();
    for i in 0..devices.len()
        invariant
            out@ == watched(devices@.take(i as int), any),
    {
        assert(devices@.take(i + 1).drop_last() =~= devices@.take(i as int));
        if devices[i].is_watched(any) {
            out.push(i);
        }
    }
    assert(devices@.take(devices@.len() as int) =~= devices@);
    out
}

/// The devices to watch for `key`: every keyboard that can report it, except our own.
///
/// A keyboard may be added at any time and a user may well have several — a laptop's
/// built-in one and whatever is plugged in.
pub fn watch(devices: &[Keyboard], key: KeyCode) -> (r: Result<Vec<usize>, HotkeyError>)
    ensures
        match r {
            Ok(places) => places@ == watched(devices@, false) && places@.len() > 0,
            Err(e) => watched(devices@, false).len() == 0 && e@ == HotkeyErrorView::NoDevice(
                match named(key.0) {
                    Some(name) => name,
                    None => key_label(key.0),
                },
            ),
        },
{
    let places = watched_devices(devices, false);
    if places.len() == 0 {
        let name = match key_name(key) {
            Some(name) => name,
            None => label_of_key(key.0),
        };
        return Err(HotkeyError::NoDevice(name));
    }
    Ok(places)
}

/// The devices to watch for any key at all.
///
/// The diagnostic behind `murmur keys`: when a trigger "does nothing", the first
/// question is whether the key is reaching Murmur at all, and the second is what
/// that key is actually called.
pub fn watch_all(devices: &[Keyboard]) -> (r: Result<Vec<usize>, HotkeyError>)
    ensures
        match r {
            Ok(places) => places@ == watched(devices@, true) && places@.len() > 0,
            Err(e) => watched(devices@, true).len() == 0 && e@ == HotkeyErrorView::NoDevice(
                "any key"@,
            ),
        },
{
    let places = watched_devices(devices, true);
    if places.len() == 0 {
        return Err(HotkeyError::NoDevice("any key".to_owned()));
    }
    Ok(places)
}

/// How the watched devices are listed.
pub open spec fn listings(devices: Seq<Keyboard>) -> Seq<Seq<char>>
    decreases devices.len(),
{
    if devices.len() == 0 {
        Seq::empty()
    } else {
        let front = listings(devices.drop_last());
        if devices.last().counts(false) {
            front.push(devices.last().listed())
        } else {
            front
        }
    }
}

/// Names of the keyboards Murmur can read, for diagnostics.
#[must_use]
pub fn readable_keyboards(devices: &[Keyboard]) -> (r: Vec<String>)
    ensures
        name_views(r@) == listings(devices@),
{
    let mut out: Vec<String> = Vec::new();
    assert(name_views(out@) =~= listings(devices@.take(0)));
    for i in 0..devices.len()
        invariant
            name_views(out@) == listings(devices@.take(i as int)),
    {
        assert(devices@.take(i + 1).drop_last() =~= devices@.take(i as int));
        if devices[i].is_watched(false) {
            let ghost before = out@;
            let line = devices[i].listing();
            out.push(line);
            assert(name_views(out@) =~= name_views(before).push(line@));
        }
    }
    assert(devices@.take(devices@.len() as int) =~= devices@);
    out
}

/// The edge a key event's value stands for. Two is auto-repeat: the key never went
/// up, so it is not an edge.
pub open spec fn edge_for(value: i32) -> Option<Edge> {
    if value == 1 {
        Some(Edge::Down)
    } else if value == 0 {
        Some(Edge::Up)
    } else {
        None
    }
}

/// The edge a key event's value stands for.
pub fn edge_of(value: i32) -> (r: Option<Edge>)
    ensures
        r == edge_for(value),
{
    match value {
        1 => Some(Edge::Down),
        0 => Some(Edge::Up),
        // 2 is auto-repeat: the key never went up, so it is not an edge.
        _ => None,
    }
}

/// A key event as a device reports it.
#[derive(Debug, Clone, Copy, PartialEq, Eq)]
pub struct Reading {
    pub code: KeyCode,
    pub value: i32,
}

/// The edge of the trigger that a reading gives, if it does.
pub open spec fn reported(key: KeyCode, pressed: bool, reading: Reading) -> Option<Edge> {
    if reading.code != key {
        None
    } else {
        match edge_for(reading.value) {
            Some(edge) => if pressed == (edge == Edge::Down) {
                None
            } else {
                Some(edge)
            },
            None => None,
        }
    }
}

/// Every edge of the trigger that the readings of all keyboards give, in order.
pub open spec fn edges(key: KeyCode, pressed: bool, readings: Seq<Reading>) -> Seq<Edge>
    decreases readings.len(),
{
    if readings.len() == 0 {
        Seq::empty()
    } else {
        match reported(key, pressed, readings[0]) {
            Some(edge) => seq![edge] + edges(key, edge == Edge::Down, readings.skip(1)),
            None => edges(key, pressed, readings.skip(1)),
        }
    }
}

/// Whether the trigger is down, on whichever keyboard.
#[derive(Debug, Clone, Copy)]
pub struct Trigger {
    key: KeyCode,
    pressed: bool,
}

impl Trigger {
    pub closed spec fn key(self) -> KeyCode {
        self.key
    }

    pub closed spec fn pressed(self) -> bool {
        self.pressed
    }

    /// The trigger is up.
    #[must_use]
    pub fn new(key: KeyCode) -> (r: Self)
        ensures
            r.key() == key,
            !r.pressed(),
    {
        Trigger { key, pressed: false }
    }

    /// Takes in one event from any keyboard.
    ///
    /// Duplicate edges from separate devices are collapsed, so pressing a key that
    /// two devices both report still reads as one press.
    pub fn read(&mut self, reading: Reading) -> (r: Option<Edge>)
        ensures
            r == reported(old(self).key(), old(self).pressed(), reading),
            final(self).key() == old(self).key(),
            final(self).pressed() == (match r {
                Some(edge) => edge == Edge::Down,
                None => old(self).pressed(),
            }),
    {
        if reading.code != self.key {
            return None;
        }
        match edge_of(reading.value) {
            Some(edge) => {
                let down = edge == Edge::Down;
                let was = self.pressed;
                self.pressed = down;
                // Two keyboards reporting the same physical key must not double-fire.
                if was == down {
                    None
                } else {
                    Some(edge)
                }
            },
            None => None,
        }
    }
}

/// Presses and releases alternate, however many keyboards report the key and
/// however often it repeats; from a trigger that is up, a press comes first.
pub proof fn law_edges_alternate(key: KeyCode, pressed: bool, readings: Seq<Reading>)
    ensures
        ({
            let all = edges(key, pressed, readings);
            &&& all.len() > 0 ==> all[0] == (if pressed {
                Edge::Up
            } else {
                Edge::Down
            })
            &&& forall|i: int| 0 <= i < all.len() - 1 ==> #[trigger] all[i] != all[i + 1]
        }),
    decreases readings.len(),
{
    if readings.len() > 0 {
        let rest = readings.skip(1);
        match reported(key, pressed, readings[0]) {
            Some(edge) => {
                law_edges_alternate(key, edge == Edge::Down, rest);
                let more = edges(key, edge == Edge::Down, rest);
                let all = edges(key, pressed, readings);
                assert forall|i: int| 0 <= i < all.len() - 1 implies #[trigger] all[i] != all[i
                    + 1] by {
                    assert(all[i + 1] == more[i]);
                    if i > 0 {
                        assert(all[i] == more[i - 1]);
                    }
                }
            },
            None => {
                law_edges_alternate(key, pressed, rest);
            },
        }
    }
}

/// A reading is an edge exactly where it is of the trigger key and changes whether it
/// is down: a press while it is up, or a release while it is down. Repeats are none.
pub proof fn law_what_an_edge_is(key: KeyCode, pressed: bool, reading: Reading)
    ensures
        reported(key, pressed, reading) == Some(Edge::Down) <==> reading.code == key
            && reading.value == 1 && !pressed,
        reported(key, pressed, reading) == Some(Edge::Up) <==> reading.code == key && reading.value
            == 0 && pressed,
{
}

/// The value of a key event is a press, a release, or no edge at all.
pub proof fn law_what_values_mean(value: i32)
    ensures
        edge_for(value) == Some(Edge::Down) <==> value == 1,
        edge_for(value) == Some(Edge::Up) <==> value == 0,
{
}

/// The devices to watch are those that report the key, or any key, and are not our
/// own; each once and in order.
pub proof fn law_which_keyboards_are_watched(devices: Seq<Keyboard>, any: bool)
    requires
        devices.len() <= usize::MAX,
    ensures
        ({
            let places = watched(devices, any);
            &&& forall|k: int|
                0 <= k < places.len() ==> (#[trigger] places[k]) < devices.len() && is_wanted(
                    devices[places[k] as int],
                    any,
                )
            &&& forall|j: int, k: int|
                0 <= j < k < places.len() ==> #[trigger] places[j] < #[trigger] places[k]
            &&& forall|i: int|
                0 <= i < devices.len() && is_wanted(#[trigger] devices[i], any) ==> places.contains(
                    i as usize,
                )
        }),
    decreases devices.len(),
{
    if devices.len() > 0 {
        let front = devices.drop_last();
        let before = watched(front, any);
        let places = watched(devices, any);
        law_which_keyboards_are_watched(front, any);
        let last = (devices.len() - 1) as usize;
        assert(devices.last().counts(any) == is_wanted(devices[last as int], any));
        assert forall|k: int| 0 <= k < places.len() implies (#[trigger] places[k])
            < devices.len() && is_wanted(devices[places[k] as int], any) by {
            if k < before.len() {
                assert(places[k] == before[k]);
                assert(front[before[k] as int] == devices[before[k] as int]);
            }
        }
        assert forall|j: int, k: int| 0 <= j < k < places.len() implies #[trigger] places[j]
            < #[trigger] places[k] by {
            assert(places[j] == before[j]);
            if k < before.len() {
                assert(places[k] == before[k]);
            } else {
                assert(before[j] < front.len());
            }
        }
        assert forall|i: int|
            0 <= i < devices.len() && is_wanted(#[trigger] devices[i], any) implies places.contains(
            i as usize,
        ) by {
            if i < front.len() {
                assert(front[i] == devices[i]);
                let k = choose|k: int| 0 <= k < before.len() && before[k] == i as usize;
                assert(places[k] == i as usize);
            } else {
                assert(places[before.len() as int] == i as usize);
            }
        }
    }
}

/// The device is not the keyboard that we type on, and reports what is looked for.
pub open spec fn is_wanted(device: Keyboard, any: bool) -> bool {
    &&& !(device.name matches Some(name) && name@ == "Murmur virtual keyboard"@)
    &&& any ==> device.has_keys
    &&& !any ==> device.reports
}

/// One more keyboard is listed after the others, by its name and where it is, if it
/// reports the key and is not our own.
pub proof fn law_one_more_keyboard(devices: Seq<Keyboard>, device: Keyboard)
    ensures
        listings(Seq::empty()) == Seq::<Seq<char>>::empty(),
        is_wanted(device, false) ==> listings(devices.push(device)) == listings(devices).push(
            (match device.name {
                Some(name) => name@,
                None => "unnamed"@,
            }) + " ("@ + device.path@ + ")"@,
        ),
        !is_wanted(device, false) ==> listings(devices.push(device)) == listings(devices),
{
    assert(devices.push(device).drop_last() =~= devices);
}

/// The key that is found is the first that has the name, and none is found exactly
/// where no key has it.
pub proof fn law_the_first_key_of_that_name(name: Seq<char>, from: nat)
    ensures
        match first_named(name, from) {
            Some(code) => from <= code <= 0x2ff && named(code) == Some(name) && forall|other: u16|
                from <= other < code ==> #[trigger] named(other) != Some(name),
            None => forall|other: u16|
                from <= other <= 0x2ff ==> #[trigger] named(other) != Some(name),
        },
    decreases 0x300 - from,
{
    if from <= 0x2ff && named(from as u16) != Some(name) {
        law_the_first_key_of_that_name(name, from + 1);
        assert forall|other: u16|
            from <= other <= 0x2ff && (first_named(name, from) matches Some(code) ==> other
                < code) implies #[trigger] named(other) != Some(name) by {
            if other > from {
            }
        }
    }
}

/// Keys are looked up from the first code on.
pub proof fn law_keys_are_looked_up_by_name(spelling: Seq<char>)
    ensures
        resolved(spelling) == first_named(wanted(spelling), 1),
{
}

/// A key's name may be spelt with or without its prefix.
pub proof fn law_the_prefix_may_be_left_out(name: Seq<char>)
    requires
        forall|i: int| 0 <= i < name.len() ==> is_name_char(#[trigger] name[i]),
        stripped(name) is None,
    ensures
        wanted(name) == name,
        wanted("KEY_"@ + name) == name,
{
    reveal_strlit("KEY_");
    lemma_plain_name_stands_for_itself(name);
    let full = "KEY_"@ + name;
    lemma_leading(full, Class::White);
    lemma_trimmed_len(full, Class::White);
    assert(full.len() >= 4);
    assert(full[0] == 'K');
    if name.len() > 0 {
        assert(is_name_char(name[name.len() - 1]));
        assert(full.last() == name[name.len() - 1]);
    } else {
        assert(full.last() == '_');
    }
    assert(full.skip(0) =~= full);
    assert(trim(full, Class::White) =~= full);
    assert forall|i: int| 0 <= i < full.len() implies upper(#[trigger] full[i]) == full[i] by {
        if i >= 4 {
            assert(full[i] == name[i - 4]);
            assert(is_name_char(name[i - 4]));
        }
    }
    assert(uppered(full) =~= full);
    assert("KEY_"@ =~= full.subrange(0, 4));
    assert(full.skip(4) =~= name);
}

/// The case of a spelling makes no difference.
pub proof fn law_the_case_of_a_spelling_is_ignored(a: Seq<char>, b: Seq<char>)
    requires
        uppered(trim(a, Class::White)) == uppered(trim(b, Class::White)),
    ensures
        wanted(a) == wanted(b),
        resolved(a) == resolved(b),
{
}

} // verus!
