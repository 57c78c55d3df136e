//! Put text at the cursor of whatever application has focus.
//!
//! This is the layer that decides whether Murmur is usable, and it is entirely a
//! desktop-integration problem rather than a machine-learning one. Wayland gives
//! an unfocused background process no sanctioned way to type, so we reach below
//! it: a `/dev/uinput` virtual keyboard is indistinguishable from real hardware
//! to every compositor, and the clipboard covers what a scancode cannot express.

use crate::chars::push_text;
use crate::config::{InjectBackend, InjectConfig};
use crate::keymap::{is_typable, typable};
use crate::outside::{quoted_char, text_from_utf8, to_quoted_char};
use vstd::prelude::*;
use vstd::utf8::{decode_utf8, valid_utf8};

verus! {

#[derive(Clone, Debug, PartialEq, Eq)]
pub enum InjectError {
    UinputPermission,
    Uinput(String),
    Untypable { ch: char },
    Clipboard(String),
    Unavailable(&'static str),
}

/// What is said of a character that cannot be typed, given how it is quoted.
pub open spec fn untypable_line(quoted_ch: Seq<char>) -> Seq<char> {
    "cannot type "@ + quoted_ch
        + " with a scancode; this session has no working clipboard to fall back on"@
}

/// What is said of a character that cannot be typed, given how it is quoted.
pub fn untypable_message(quoted_ch: &str) -> (r: String)
    ensures
        r@ == untypable_line(quoted_ch@),
{
    let mut out = "cannot type ".to_owned();
    push_text(&mut out, quoted_ch);
    push_text(
        &mut out,
        " with a scancode; this session has no working clipboard to fall back on",
    );
    out
}

impl InjectError {
    pub open spec fn says(self) -> Seq<char> {
        match self {
            InjectError::UinputPermission => "/dev/uinput is not writable. Add yourself to the 'input' group (`sudo usermod -aG input $USER`, then log out and back in), or run `murmur doctor`."@,
            InjectError::Uinput(reason) => "virtual keyboard: "@ + reason@,
            InjectError::Untypable { ch } => untypable_line(quoted_char(ch)),
            InjectError::Clipboard(reason) => "clipboard: "@ + reason@,
            InjectError::Unavailable(backend) => "the "@ + backend@
                + " backend is not available in this session"@,
        }
    }

    /// What the error says.
    pub fn message(&self) -> (r: String)
        ensures
            r@ == self.says(),
    {
        match self {
            InjectError::UinputPermission => "/dev/uinput is not writable. Add yourself to the 'input' group (`sudo usermod -aG input $USER`, then log out and back in), or run `murmur doctor`.".to_owned(),
            InjectError::Uinput(reason) => {
                let mut out = "virtual keyboard: ".to_owned();
                push_text(&mut out, reason.as_str());
                out
            },
            InjectError::Untypable { ch } => untypable_message(to_quoted_char(*ch).as_str()),
            InjectError::Clipboard(reason) => {
                let mut out = "clipboard: ".to_owned();
                push_text(&mut out, reason.as_str());
                out
            },
            InjectError::Unavailable(backend) => {
                let mut out = "the ".to_owned();
                push_text(&mut out, backend);
                push_text(&mut out, " backend is not available in this session");
                out
            },
        }
    }

    /// The error for a failure to use the device node.
    pub fn from_uinput(permission_denied: bool, reason: String) -> (r: Self)
        ensures
            r == (if permission_denied {
                InjectError::UinputPermission
            } else {
                InjectError::Uinput(reason)
            }),
    {
        if permission_denied {
            InjectError::UinputPermission
        } else {
            InjectError::Uinput(reason)
        }
    }
}

/// Can the backend the user asked for be opened at all?
pub fn open(config: &InjectConfig) -> (r: Result<(), InjectError>)
    ensures
        match r {
            Ok(_) => config.backend != InjectBackend::Portal && config.backend
                != InjectBackend::X11,
            Err(e) => (config.backend == InjectBackend::Portal || config.backend
                == InjectBackend::X11) && (e matches InjectError::Unavailable(name) && name@ == (
            if config.backend == InjectBackend::Portal {
                "portal"@
            } else {
                "x11"@
            })),
        },
{
    match config.backend {
        InjectBackend::Portal => Err(InjectError::Unavailable("portal")),
        InjectBackend::X11 => Err(InjectError::Unavailable("x11")),
        _ => Ok(()),
    }
}

/// The text goes via the clipboard rather than the keyboard.
pub open spec fn pasted(config: InjectConfig, text: Seq<char>) -> bool {
    match config.backend {
        InjectBackend::Uinput => false,
        InjectBackend::Clipboard => true,
        _ => !typable(text) || text.len() > config.paste_threshold,
    }
}

/// Should this text go via the clipboard rather than the keyboard?
///
/// Pure, so the routing policy can be tested without a desktop attached.
#[must_use]
pub fn routes_to_clipboard(config: &InjectConfig, text: &str) -> (r: bool)
    ensures
        r == pasted(*config, text@),
{
    match config.backend {
        InjectBackend::Uinput => false,
        InjectBackend::Clipboard => true,
        _ => !is_typable(text) || text.unicode_len() > config.paste_threshold,
    }
}

/// Somewhere text can be delivered.
pub trait TextSink {
    fn name(&self) -> &'static str;

    /// Fails if the underlying desktop mechanism rejects the text.
    fn inject(&mut self, text: &str) -> Result<(), InjectError>;
}

/// What to do with text.
#[derive(Clone, Copy, Debug, PartialEq, Eq, Structural)]
pub enum Route {
    /// There is nothing to deliver.
    Nothing,
    Paste,
    Type,
}

/// Where the text goes first.
pub open spec fn routed(config: InjectConfig, clipboard_available: bool, text: Seq<char>) -> Route {
    if text.len() == 0 {
        Route::Nothing
    } else if pasted(config, text) && clipboard_available {
        Route::Paste
    } else {
        Route::Type
    }
}

/// Types short ASCII and pastes everything else.
///
/// Typing looks natural and leaves the clipboard alone, but costs a keystroke
/// per character and cannot express anything outside the active layout. Pasting
/// is constant-time and Unicode-exact, but borrows the user's clipboard. The
/// split is a config value because the right answer depends on the application.
#[derive(Debug)]
pub struct Injector {
    config: InjectConfig,
    clipboard_available: bool,
}

impl Injector {
    pub closed spec fn settings(self) -> InjectConfig {
        self.config
    }

    pub closed spec fn can_paste(self) -> bool {
        self.clipboard_available
    }

    /// The desktop integration described by `config`, given whether a clipboard is
    /// reachable.
    pub fn open(config: InjectConfig, clipboard_available: bool) -> (r: Result<Self, InjectError>)
        ensures
            match r {
                Ok(injector) => config.backend != InjectBackend::Portal && config.backend
                    != InjectBackend::X11 && injector.settings() == config
                    && injector.can_paste() == clipboard_available,
                Err(e) => (config.backend == InjectBackend::Portal || config.backend
                    == InjectBackend::X11) && (e matches InjectError::Unavailable(name) && name@
                    == (if config.backend == InjectBackend::Portal {
                    "portal"@
                } else {
                    "x11"@
                })),
            },
    {
        match open(&config) {
            Ok(_) => Ok(Injector { config, clipboard_available }),
            Err(e) => Err(e),
        }
    }

    #[must_use]
    pub fn clipboard_available(&self) -> (r: bool)
        ensures
            r == self.can_paste(),
    {
        self.clipboard_available
    }

    #[must_use]
    pub fn name(&self) -> (r: &'static str)
        ensures
            r@ == "auto"@,
    {
        "auto"
    }

    /// Where the text goes first.
    pub fn inject(&self, text: &str) -> (r: Route)
        ensures
            r == routed(self.settings(), self.can_paste(), text@),
    {
        if text.unicode_len() == 0 {
            return Route::Nothing;
        }
        if routes_to_clipboard(&self.config, text) && self.clipboard_available {
            Route::Paste
        } else {
            Route::Type
        }
    }

    /// What to do once pasting has succeeded or failed: `Ok(true)` to type the text
    /// after all, `Ok(false)` where it was delivered.
    ///
    /// Typing is slower and cannot do Unicode, but a degraded emission beats a lost
    /// one: the user has already spoken the words.
    pub fn after_paste(&self, text: &str, pasted: Result<(), InjectError>) -> (r: Result<
        bool,
        InjectError,
    >)
        ensures
            r == types_after(text@, pasted),
    {
        match pasted {
            Ok(_) => Ok(false),
            Err(e) => if is_typable(text) {
                Ok(true)
            } else {
                Err(e)
            },
        }
    }

    /// What to do next in a paste.
    ///
    /// `done` is the step just taken, and `saved` says whether it has left text in
    /// hand to give back.
    pub fn paste(&self, done: Option<PasteStep>, saved: bool) -> (r: Option<PasteStep>)
        ensures
            r == paste_next(self.settings().restore_clipboard, done, saved),
    {
        match done {
            None => if self.config.restore_clipboard {
                Some(PasteStep::Snapshot)
            } else {
                Some(PasteStep::Offer)
            },
            Some(PasteStep::Snapshot) => Some(PasteStep::Offer),
            Some(PasteStep::Offer) => Some(PasteStep::Press),
            Some(PasteStep::Press) => if self.config.restore_clipboard && saved {
                Some(PasteStep::HandOver)
            } else {
                None
            },
            Some(PasteStep::HandOver) => Some(PasteStep::Restore),
            Some(PasteStep::Restore) => None,
        }
    }
}

/// Whether the text is to be typed once pasting it has succeeded or failed: not where
/// it was delivered, and otherwise if it can be typed. Where it cannot, the failure
/// stands.
pub open spec fn types_after(text: Seq<char>, pasted: Result<(), InjectError>) -> Result<
    bool,
    InjectError,
> {
    match pasted {
        Ok(_) => Ok(false),
        Err(e) => if typable(text) {
            Ok(true)
        } else {
            Err(e)
        },
    }
}

/// One step of a paste.
#[derive(Clone, Copy, Debug, PartialEq, Eq, Structural)]
pub enum PasteStep {
    /// Read what is on the clipboard.
    Snapshot,
    /// Put the text on the clipboard for one consumer.
    Offer,
    /// Press Ctrl and V.
    Press,
    /// Give the application time to read the clipboard.
    HandOver,
    /// Put what was on the clipboard back.
    Restore,
}

/// The step that follows `done` in a paste, if there is one.
pub open spec fn paste_next(
    restore: bool,
    done: Option<PasteStep>,
    saved: bool,
) -> Option<PasteStep> {
    match done {
        None => Some(
            if restore {
                PasteStep::Snapshot
            } else {
                PasteStep::Offer
            },
        ),
        Some(PasteStep::Snapshot) => Some(PasteStep::Offer),
        Some(PasteStep::Offer) => Some(PasteStep::Press),
        Some(PasteStep::Press) => if restore && saved {
            Some(PasteStep::HandOver)
        } else {
            None
        },
        Some(PasteStep::HandOver) => Some(PasteStep::Restore),
        Some(PasteStep::Restore) => None,
    }
}

/// How long the target application gets to read the clipboard before we hand it
/// back to the user, in milliseconds. Too short and the paste arrives empty.
pub const CLIPBOARD_HANDOVER_MS: u64 = 120;

/// Typable text is never lost: it is typed or pasted, it is typed after all where
/// pasting fails, and it is not typed a second time where pasting succeeds.
pub proof fn law_typable_text_is_never_lost(
    config: InjectConfig,
    clipboard_available: bool,
    text: Seq<char>,
    error: InjectError,
)
    requires
        text.len() > 0,
        typable(text),
    ensures
        routed(config, clipboard_available, text) == Route::Type || routed(
            config,
            clipboard_available,
            text,
        ) == Route::Paste,
        types_after(text, Err(error)) == Ok::<bool, InjectError>(true),
        types_after(text, Ok(())) == Ok::<bool, InjectError>(false),
{
}

/// Text is typed straight away wherever it cannot be pasted or is not to be: without
/// a clipboard, and with the keyboard chosen as the backend.
pub proof fn law_text_is_typed_where_it_cannot_be_pasted(
    config: InjectConfig,
    clipboard_available: bool,
    text: Seq<char>,
)
    requires
        text.len() > 0,
    ensures
        !clipboard_available || config.backend == InjectBackend::Uinput ==> routed(
            config,
            clipboard_available,
            text,
        ) == Route::Type,
{
}

/// With the backend chosen automatically, short typable text leaves the clipboard
/// alone and everything else goes through it wherever there is one.
pub proof fn law_auto_types_short_ascii_and_pastes_the_rest(
    config: InjectConfig,
    clipboard_available: bool,
    text: Seq<char>,
)
    requires
        config.backend == InjectBackend::Auto,
        text.len() > 0,
    ensures
        typable(text) && text.len() <= config.paste_threshold ==> routed(
            config,
            clipboard_available,
            text,
        ) == Route::Type,
        clipboard_available && (!typable(text) || text.len() > config.paste_threshold) ==> routed(
            config,
            clipboard_available,
            text,
        ) == Route::Paste,
{
}

/// What came of asking for the clipboard's contents.
#[derive(Clone, Debug, PartialEq, Eq)]
pub enum ClipboardReply {
    Contents,
    NoSeats,
    Empty,
    NoText,
    Failed(String),
}

/// Is a clipboard reachable from a background process on this session?
///
/// Setting the clipboard without holding keyboard focus needs a data-control
/// protocol (`wlr-data-control` or `ext-data-control`). Compositors that expose
/// neither will fail here, and the caller must fall back to typing. An empty
/// clipboard still proves the protocol is there.
pub fn availability(reply: ClipboardReply) -> (r: Result<(), String>)
    ensures
        match reply {
            ClipboardReply::Failed(reason) => r == Err::<(), String>(reason),
            _ => r is Ok,
        },
{
    match reply {
        ClipboardReply::Failed(reason) => Err(reason),
        _ => Ok(()),
    }
}

/// Is a clipboard reachable?
#[must_use]
pub fn is_available(reply: ClipboardReply) -> (r: bool)
    ensures
        r == !(reply is Failed),
{
    availability(reply).is_ok()
}

/// What the clipboard holds, if it is text: a clipboard whose contents are not text
/// is not an error.
pub fn clipboard_text(contents: Option<Vec<u8>>) -> (r: Option<String>)
    ensures
        match contents {
            None => r is None,
            Some(bytes) => match r {
                Some(text) => valid_utf8(bytes@) && text@ == decode_utf8(bytes@),
                None => !valid_utf8(bytes@),
            },
        },
{
    match contents {
        None => None,
        Some(bytes) => text_from_utf8(bytes),
    }
}

/// One thing `murmur doctor` checks, and how to fix it.
#[derive(Debug, Clone, PartialEq, Eq)]
pub struct Capability {
    pub name: &'static str,
    pub available: bool,
    pub detail: String,
    pub remedy: Option<String>,
}

/// What a capability reads.
#[verifier::ext_equal]
pub struct CapabilityView {
    pub name: Seq<char>,
    pub available: bool,
    pub detail: Seq<char>,
    pub remedy: Option<Seq<char>>,
}

impl View for Capability {
    type V = CapabilityView;

    open spec fn view(&self) -> CapabilityView {
        CapabilityView {
            name: self.name@,
            available: self.available,
            detail: self.detail@,
            remedy: match self.remedy {
                Some(r) => Some(r@),
                None => None,
            },
        }
    }
}

pub open spec fn uinput_capability(uinput: Result<(), String>) -> CapabilityView {
    CapabilityView {
        name: "uinput"@,
        available: uinput is Ok,
        detail: match uinput {
            Ok(_) => "/dev/uinput is writable"@,
            Err(e) => "/dev/uinput: "@ + e@,
        },
        remedy: match uinput {
            Ok(_) => None,
            Err(_) => Some("sudo usermod -aG input $USER   # then log out and back in"@),
        },
    }
}

pub open spec fn clipboard_capability(clipboard: Result<(), String>) -> CapabilityView {
    CapabilityView {
        name: "clipboard"@,
        available: clipboard is Ok,
        detail: match clipboard {
            Ok(_) => "data-control protocol present; paste injection available"@,
            Err(why) => "unavailable ("@ + why@
                + "); long or non-ASCII text cannot be pasted"@,
        },
        remedy: match clipboard {
            Ok(_) => None,
            Err(_) => Some(
                "set inject.backend = \"uinput\" to type everything as scancodes"@,
            ),
        },
    }
}

pub open spec fn session_capability(session: Option<String>) -> CapabilityView {
    let kind = match session {
        Some(s) => s@,
        None => "unknown"@,
    };
    CapabilityView {
        name: "session"@,
        available: kind != "unknown"@,
        detail: kind + " session"@,
        remedy: None,
    }
}

/// What this session can actually do, given whether the device node opens for
/// writing, whether a clipboard is reachable, and what kind of session it is.
#[must_use]
pub fn probe(
    uinput: Result<(), String>,
    clipboard: Result<(), String>,
    session: Option<String>,
) -> (r: Vec<Capability>)
    ensures
        r@.len() == 3,
        r@[0]@ == uinput_capability(uinput),
        r@[1]@ == clipboard_capability(clipboard),
        r@[2]@ == session_capability(session),
{
    let mut out: Vec<Capability> = Vec::new();
    match &uinput {
        Ok(_) => {
            out.push(
                Capability {
                    name: "uinput",
                    available: true,
                    detail: "/dev/uinput is writable".to_owned(),
                    remedy: None,
                },
            );
        },
        Err(e) => {
            let mut detail = "/dev/uinput: ".to_owned();
            push_text(&mut detail, e.as_str());
            out.push(
                Capability {
                    name: "uinput",
                    available: false,
                    detail,
                    remedy: Some(
                        "sudo usermod -aG input $USER   # then log out and back in".to_owned(),
                    ),
                },
            );
        },
    }
    match &clipboard {
        Ok(_) => {
            out.push(
                Capability {
                    name: "clipboard",
                    available: true,
                    detail: "data-control protocol present; paste injection available".to_owned(),
                    remedy: None,
                },
            );
        },
        Err(why) => {
            let mut detail = "unavailable (".to_owned();
            push_text(&mut detail, why.as_str());
            push_text(&mut detail, "); long or non-ASCII text cannot be pasted");
            out.push(
                Capability {
                    name: "clipboard",
                    available: false,
                    detail,
                    remedy: Some(
                        "set inject.backend = \"uinput\" to type everything as scancodes".to_owned(),
                    ),
                },
            );
        },
    }
    let unknown = "unknown".to_owned();
    let kind = match &session {
        Some(s) => s.clone(),
        None => unknown.clone(),
    };
    let available = kind != unknown;
    let mut detail = kind;
    push_text(&mut detail, " session");
    out.push(Capability { name: "session", available, detail, remedy: None });
    out
}

/// Every capability that is missing comes with a way to mend it, but for the kind of
/// session, which there is none for.
pub proof fn law_everything_missing_has_a_remedy(
    uinput: Result<(), String>,
    clipboard: Result<(), String>,
)
    ensures
        uinput_capability(uinput).available || uinput_capability(uinput).remedy is Some,
        clipboard_capability(clipboard).available || clipboard_capability(clipboard).remedy is Some,
{
}

/// Where text goes. Nothing is done with no text. The keyboard backend types
/// everything; the clipboard backend pastes everything while there is a clipboard. Any
/// other backend pastes what cannot be typed and what is longer than the threshold,
/// and types the rest. Without a clipboard everything is typed.
pub proof fn law_where_text_goes(config: InjectConfig, clipboard_available: bool, text: Seq<char>)
    ensures
        ({
            let route = routed(config, clipboard_available, text);
            let odd = exists|i: int|
                0 <= i < text.len() && !(32 <= #[trigger] text[i] as int <= 126 || text[i] as int
                    == 10 || text[i] as int == 9);
            &&& text.len() == 0 <==> route == Route::Nothing
            &&& text.len() > 0 && config.backend == InjectBackend::Uinput ==> route == Route::Type
            &&& text.len() > 0 && !clipboard_available ==> route == Route::Type
            &&& text.len() > 0 && clipboard_available && config.backend == InjectBackend::Clipboard
                ==> route == Route::Paste
            &&& clipboard_available && config.backend != InjectBackend::Uinput && odd ==> route
                == Route::Paste
            &&& clipboard_available && config.backend != InjectBackend::Uinput && text.len()
                > config.paste_threshold && text.len() > 0 ==> route == Route::Paste
            &&& config.backend != InjectBackend::Clipboard && !odd && 0 < text.len()
                <= config.paste_threshold ==> route == Route::Type
        }),
{
    crate::keymap::law_what_can_be_typed(text);
}

/// Whether text is for the clipboard does not depend on whether there is one.
pub proof fn law_what_the_clipboard_is_for(config: InjectConfig, text: Seq<char>)
    ensures
        config.backend == InjectBackend::Uinput ==> !pasted(config, text),
        config.backend == InjectBackend::Clipboard ==> pasted(config, text),
        text.len() > 0 ==> (pasted(config, text) <==> routed(config, true, text) == Route::Paste),
        text.len() == 0 && config.backend != InjectBackend::Clipboard ==> !pasted(config, text),
{
}

/// Where pasting failed, text that can be typed is typed after all and other text
/// keeps the failure; where it succeeded, nothing more is done.
pub proof fn law_what_a_failed_paste_leads_to(text: Seq<char>, pasted: Result<(), InjectError>)
    ensures
        ({
            let plain = forall|i: int|
                0 <= i < text.len() ==> 32 <= #[trigger] text[i] as int <= 126 || text[i] as int
                    == 10 || text[i] as int == 9;
            match types_after(text, pasted) {
                Ok(typed) => pasted is Ok && !typed || pasted is Err && typed && plain,
                Err(e) => !plain && pasted == Err::<(), InjectError>(e),
            }
        }),
{
    crate::keymap::law_what_can_be_typed(text);
}

/// A paste offers the text before it presses the keys. It reads the clipboard first
/// and puts it back last, after time to hand it over, exactly where the clipboard is
/// to be restored and there is something to restore.
pub proof fn law_a_paste_gives_the_clipboard_back(restore: bool, saved: bool)
    ensures
        paste_next(restore, None, saved) == Some(
            if restore {
                PasteStep::Snapshot
            } else {
                PasteStep::Offer
            },
        ),
        paste_next(restore, Some(PasteStep::Snapshot), saved) == Some(PasteStep::Offer),
        paste_next(restore, Some(PasteStep::Offer), saved) == Some(PasteStep::Press),
        restore && saved <==> paste_next(restore, Some(PasteStep::Press), saved) == Some(
            PasteStep::HandOver,
        ),
        !(restore && saved) <==> paste_next(restore, Some(PasteStep::Press), saved) is None,
        paste_next(restore, Some(PasteStep::HandOver), saved) == Some(PasteStep::Restore),
        paste_next(restore, Some(PasteStep::Restore), saved) is None,
{
}

/// What is said of each thing that delivering text needs: whether it is there, and why
/// not.
pub proof fn law_what_is_said_of_delivery(why: String, session: String)
    ensures
        uinput_capability(Ok(())).name == "uinput"@,
        uinput_capability(Ok(())).available && uinput_capability(Ok(())).remedy is None,
        !uinput_capability(Err(why)).available,
        uinput_capability(Err(why)).detail == "/dev/uinput: "@ + why@,
        clipboard_capability(Ok(())).name == "clipboard"@,
        clipboard_capability(Ok(())).available && clipboard_capability(Ok(())).remedy is None,
        !clipboard_capability(Err(why)).available,
        clipboard_capability(Err(why)).detail == "unavailable ("@ + why@
            + "); long or non-ASCII text cannot be pasted"@,
        session_capability(None).name == "session"@,
        !session_capability(None).available,
        session_capability(Some(session)).available <==> session@ != "unknown"@,
        session_capability(Some(session)).detail == session@ + " session"@,
{
}

} // verus!
