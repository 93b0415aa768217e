//! The view from which one fuzz target is run.

use crate::ui::framework::Key;
use vstd::prelude::*;

verus! {

/// What the view does next.
#[derive(Clone, Copy, Debug, PartialEq, Eq, Structural)]
pub enum Update {
    /// It asks for its fuzz target to be run.
    Run,
}

/// What the view tells its parent.
pub enum OutMessage {
    /// The fuzz target of this name is to be run.
    Run(String),
}

/// The view of one fuzz target.
pub struct RunFuzzView {
    fuzz_target: String,
    focused: bool,
}

/// What a view does with `message`: the return key asks for a run.
pub open spec fn update_for_key(message: Key) -> Option<Update> {
    if message == Key::Char('\n') {
        Some(Update::Run)
    } else {
        None
    }
}

impl RunFuzzView {
    /// The name of the fuzz target.
    pub closed spec fn target(&self) -> Seq<char> {
        self.fuzz_target@
    }

    /// Whether the view has the focus.
    pub closed spec fn is_focused(&self) -> bool {
        self.focused
    }

    /// The view of the fuzz target `fuzz_target`, without the focus.
    pub fn new(fuzz_target: String) -> (view: RunFuzzView)
        ensures
            view.target() == fuzz_target@,
            !view.is_focused(),
    {
        RunFuzzView { fuzz_target, focused: false }
    }

    /// The name of the fuzz target.
    pub fn fuzz_target(&self) -> (name: &String)
        ensures
            name@ == self.target(),
    {
        &self.fuzz_target
    }

    /// Whether the view has the focus.
    pub fn has_focus(&self) -> (focused: bool)
        ensures
            focused == self.is_focused(),
    {
        self.focused
    }

    /// Gives the view the focus.
    pub fn focus(&mut self)
        ensures
            final(self).is_focused(),
            final(self).target() == old(self).target(),
    {
        self.focused = true;
    }

    /// Takes the focus from the view.
    pub fn unfocus(&mut self)
        ensures
            !final(self).is_focused(),
            final(self).target() == old(self).target(),
    {
        self.focused = false;
    }

    /// What the view does with a key.
    pub fn convert_in_message(&self, message: Key) -> (update: Option<Update>)
        ensures
            update == update_for_key(message),
    {
        match message {
            Key::Char(c) => {
                if c == '\n' {
                    Some(Update::Run)
                } else {
                    None
                }
            },
            _ => None,
        }
    }

    /// Does what `update` says: asks the parent to run the fuzz target.
    pub fn update(&mut self, update: Update) -> (out: Option<OutMessage>)
        ensures
            final(self).target() == old(self).target(),
            final(self).is_focused() == old(self).is_focused(),
            match out {
                Some(OutMessage::Run(name)) => name@ == old(self).target(),
                None => false,
            },
    {
        Some(OutMessage::Run(self.fuzz_target.clone()))
    }
}

} // verus!
