//! A presence in the panel, so the overlay can be got rid of and got back.
//!
//! Without this the overlay is a window with nowhere to go: minimise it and
//! there is no launcher entry, no panel icon and no titlebar to restore it from.
//! The tray is what makes it an application you can put away rather than one you
//! can only kill.

use crate::order::name_views;
use vstd::prelude::*;

verus! {

/// What the user asks of the overlay through the panel.
#[derive(Debug, Clone, Copy, PartialEq, Eq, Structural)]
pub enum Request {
    Show,
    Hide,
    Quit,
}

/// An entry of the menu.
#[derive(Debug, Clone, Copy, PartialEq, Eq, Structural)]
pub enum Entry {
    /// Shows or hides the overlay.
    Toggle,
    Quit,
}

/// The panel icon.
#[derive(Debug)]
pub struct Tray {
    visible: bool,
    listening: bool,
}

impl Tray {
    pub closed spec fn visible(self) -> bool {
        self.visible
    }

    pub closed spec fn listening(self) -> bool {
        self.listening
    }

    /// The overlay is showing, and nothing is being said.
    #[must_use]
    pub fn new() -> (r: Self)
        ensures
            r.visible(),
            !r.listening(),
    {
        Tray { visible: true, listening: false }
    }

    #[must_use]
    pub fn id(&self) -> (r: &'static str)
        ensures
            r@ == "murmur"@,
    {
        "murmur"
    }

    #[must_use]
    pub fn title(&self) -> (r: &'static str)
        ensures
            r@ == "Murmur"@,
    {
        "Murmur"
    }

    /// Is the overlay showing?
    #[must_use]
    pub fn is_visible(&self) -> (r: bool)
        ensures
            r == self.visible(),
    {
        self.visible
    }

    /// Takes note of whether something is being said.
    pub fn set_listening(&mut self, listening: bool)
        ensures
            final(self).listening() == listening,
            final(self).visible() == old(self).visible(),
    {
        self.listening = listening;
    }

    /// What the tooltip says.
    #[must_use]
    pub fn tool_tip(&self) -> (r: &'static str)
        ensures
            r@ == (if self.listening() {
                "listening"@
            } else {
                "hold your trigger key and speak"@
            }),
    {
        if self.listening {
            "listening"
        } else {
            "hold your trigger key and speak"
        }
    }

    /// Left-clicking the panel icon toggles the overlay.
    ///
    /// The most common thing a user wants from a tray icon is the window back,
    /// and making them find it in a menu first is a wasted click.
    pub fn activate(&mut self) -> (r: Request)
        ensures
            final(self).visible() == !old(self).visible(),
            final(self).listening() == old(self).listening(),
            r == (if final(self).visible() {
                Request::Show
            } else {
                Request::Hide
            }),
    {
        self.visible = !self.visible;
        if self.visible {
            Request::Show
        } else {
            Request::Hide
        }
    }

    /// The labels of the menu's entries, in order; a separator stands between them.
    #[must_use]
    pub fn menu(&self) -> (r: Vec<String>)
        ensures
            name_views(r@) == seq!["Show overlay"@, "Quit Murmur"@],
    {
        let r = vec!["Show overlay".to_owned(), "Quit Murmur".to_owned()];
        assert(name_views(r@) =~= seq!["Show overlay"@, "Quit Murmur"@]);
        r
    }

    /// What choosing an entry asks for.
    pub fn chosen(&mut self, entry: Entry) -> (r: Request)
        ensures
            match entry {
                Entry::Toggle => {
                    &&& final(self).visible() == !old(self).visible()
                    &&& r == (if final(self).visible() {
                        Request::Show
                    } else {
                        Request::Hide
                    })
                },
                Entry::Quit => final(self).visible() == old(self).visible() && r == Request::Quit,
            },
            final(self).listening() == old(self).listening(),
    {
        match entry {
            Entry::Toggle => self.activate(),
            Entry::Quit => Request::Quit,
        }
    }
}

} // verus!
