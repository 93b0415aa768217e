//! A list of items laid out in a row, one of which is selected.

use crate::ui::framework::HorizontalMove;
use vstd::prelude::*;
use vstd::string::StringExecFns;

verus! {

/// What the list tells its parent.
#[derive(Clone, Copy, Debug, PartialEq, Eq, Structural)]
pub enum OutMessage {
    /// The item at this index was selected.
    Select(usize),
}

/// A list of items, of which one is selected unless the list is empty.
pub struct HorizontalListView {
    title: String,
    items: Vec<String>,
    state: Option<usize>,
    focused: bool,
}

/// The index that is selected after `step` was made from `selected` in a list
/// of `len` items: the neighbour on that side, if there is one.
pub open spec fn moved(selected: Option<usize>, len: nat, step: HorizontalMove) -> Option<usize> {
    match selected {
        None => None,
        Some(s) => match step {
            HorizontalMove::Left => if s > 0 {
                Some((s - 1) as usize)
            } else {
                None
            },
            HorizontalMove::Right => if s + 1 < len {
                Some((s + 1) as usize)
            } else {
                None
            },
        },
    }
}

impl HorizontalListView {
    /// The title of the list.
    pub closed spec fn title(&self) -> Seq<char> {
        self.title@
    }

    /// The items.
    pub closed spec fn items(&self) -> Seq<String> {
        self.items@
    }

    /// The index of the selected item.
    pub closed spec fn selected_index(&self) -> Option<usize> {
        self.state
    }

    /// Whether the list has the focus.
    pub closed spec fn is_focused(&self) -> bool {
        self.focused
    }

    /// The selected index, if any, is that of an item, and an item is
    /// selected unless there is none.
    pub open spec fn wf(&self) -> bool {
        match self.selected_index() {
            Some(s) => s < self.items().len(),
            None => self.items().len() == 0,
        }
    }

    /// A list of the given items, with the first one selected and without
    /// the focus.
    pub fn new(title: &str, items: Vec<String>) -> (list: HorizontalListView)
        ensures
            list.wf(),
            list.title() == title@,
            list.items() == items@,
            list.selected_index() == if items@.len() > 0 {
                Some(0usize)
            } else {
                None
            },
            !list.is_focused(),
    {
        let state: Option<usize> = if items.len() > 0 {
            Some(0)
        } else {
            None
        };
        HorizontalListView { title: String::from_str(title), items, state, focused: false }
    }

    /// The index of the selected item.
    pub fn selected(&self) -> (selected: Option<usize>)
        ensures
            selected == self.selected_index(),
    {
        self.state
    }

    /// The title of the list.
    pub fn title_ref(&self) -> (title: &String)
        ensures
            title@ == self.title(),
    {
        &self.title
    }

    /// Whether the list has the focus.
    pub fn has_focus(&self) -> (focused: bool)
        ensures
            focused == self.is_focused(),
    {
        self.focused
    }

    /// The items.
    pub fn items_ref(&self) -> (items: &Vec<String>)
        ensures
            items@ == self.items(),
    {
        &self.items
    }

    /// Gives the list the focus.
    pub fn focus(&mut self)
        ensures
            final(self).is_focused(),
            final(self).title() == old(self).title(),
            final(self).items() == old(self).items(),
            final(self).selected_index() == old(self).selected_index(),
    {
        self.focused = true;
    }

    /// Takes the focus from the list.
    pub fn unfocus(&mut self)
        ensures
            !final(self).is_focused(),
            final(self).title() == old(self).title(),
            final(self).items() == old(self).items(),
            final(self).selected_index() == old(self).selected_index(),
    {
        self.focused = false;
    }

    /// What the list does with a move: it makes it.
    pub fn convert_in_message(&self, message: HorizontalMove) -> (update: Option<HorizontalMove>)
        ensures
            update == Some(message),
    {
        Some(message)
    }

    /// Selects the neighbour of the selected item on the side of `step` and
    /// says which it is. At the end of the list nothing changes and nothing
    /// is said.
    pub fn update(&mut self, step: HorizontalMove) -> (out: Option<OutMessage>)
        requires
            old(self).wf(),
        ensures
            final(self).wf(),
            final(self).title() == old(self).title(),
            final(self).items() == old(self).items(),
            final(self).is_focused() == old(self).is_focused(),
            match moved(old(self).selected_index(), old(self).items().len(), step) {
                Some(s) => final(self).selected_index() == Some(s) && out == Some(
                    OutMessage::Select(s),
                ),
                None => final(self).selected_index() == old(self).selected_index()
                    && out.is_none(),
            },
    {
        match self.state {
            None => None,
            Some(s) => {
                match step {
                    HorizontalMove::Left => {
                        if s > 0 {
                            self.state = Some(s - 1);
                            Some(OutMessage::Select(s - 1))
                        } else {
                            None
                        }
                    },
                    HorizontalMove::Right => {
                        if s < self.items.len() - 1 {
                            self.state = Some(s + 1);
                            Some(OutMessage::Select(s + 1))
                        } else {
                            None
                        }
                    },
                }
            },
        }
    }
}

} // verus!
