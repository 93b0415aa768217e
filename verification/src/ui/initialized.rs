//! The view that is shown once the project is known: the list of its fuzz
//! targets above the view of the selected one.

use crate::ui::framework::{HorizontalMove, Key, VerticalMove};
use crate::ui::horizontal_list_view::{moved, HorizontalListView};
use crate::ui::run_fuzz;
use crate::ui::run_fuzz::RunFuzzView;
use vstd::prelude::*;

verus! {

/// The part of the view that keys are sent to.
#[derive(Clone, Copy, Debug, PartialEq, Eq, Structural)]
pub enum Focus {
    /// The list of fuzz targets.
    Sidebar,
    /// The view of the selected fuzz target.
    Main,
}

/// What the view does next.
#[derive(Clone, Copy, Debug, PartialEq, Eq, Structural)]
pub enum Update {
    /// It moves the selection in the list of fuzz targets.
    Sidebar(HorizontalMove),
    /// It lets the view of the selected fuzz target do something.
    RunFuzz(run_fuzz::Update),
    /// It sends the keys elsewhere.
    SwitchFocus(Focus),
    /// It takes note that the fuzz target at this index was selected.
    SelectTarget(usize),
}

/// What the view tells its parent.
pub enum OutMessage {
    /// The fuzz target of this name is to be run.
    Run(String),
}

/// The child view that has the focus.
#[derive(Clone, Copy, Debug, PartialEq, Eq, Structural)]
pub enum ViewInFocus {
    /// The list of fuzz targets.
    Sidebar,
    /// The view of the fuzz target at this index.
    RunFuzz(usize),
}

/// What the view holds.
pub struct InitializedState {
    /// The part of the view that keys are sent to.
    pub focus: Focus,
    /// The names of the fuzz targets, as the list shows them.
    pub targets: Seq<Seq<char>>,
    /// The index of the selected fuzz target.
    pub selected: Option<usize>,
    /// Whether the list of fuzz targets is drawn as having the focus.
    pub sidebar_focused: bool,
    /// For each fuzz target, whether its view is drawn as having the focus.
    pub main_focused: Seq<bool>,
}

/// Each fuzz target has its view, and the selected index, if any, is that of
/// a fuzz target.
pub open spec fn well_formed(state: InitializedState) -> bool {
    &&& state.main_focused.len() == state.targets.len()
    &&& match state.selected {
        Some(s) => s < state.targets.len(),
        None => state.targets.len() == 0,
    }
}

/// The child view that has the focus: the list, unless the focus is on the
/// main part and a fuzz target is selected.
pub open spec fn view_in_focus_of(state: InitializedState) -> ViewInFocus {
    match state.focus {
        Focus::Sidebar => ViewInFocus::Sidebar,
        Focus::Main => match state.selected {
            None => ViewInFocus::Sidebar,
            Some(s) => ViewInFocus::RunFuzz(s),
        },
    }
}

/// The state in which the child view `which` is drawn with or without the
/// focus, as `focused` says.
pub open spec fn with_focus_flag(
    state: InitializedState,
    which: ViewInFocus,
    focused: bool,
) -> InitializedState {
    match which {
        ViewInFocus::Sidebar => InitializedState { sidebar_focused: focused, ..state },
        ViewInFocus::RunFuzz(i) => InitializedState {
            main_focused: state.main_focused.update(i as int, focused),
            ..state
        },
    }
}

/// The state after the focus went to `focus`: the child view that had it is
/// drawn without it, and the one that has it now is drawn with it.
pub open spec fn focus_switched(state: InitializedState, focus: Focus) -> InitializedState {
    let left = with_focus_flag(state, view_in_focus_of(state), false);
    let turned = InitializedState { focus, ..left };
    with_focus_flag(turned, view_in_focus_of(turned), true)
}

/// What the view does with the key `message`.
///
/// With the focus on the list, a horizontal arrow moves the selection, and
/// the down arrow, the return key and the escape key send the focus to the
/// main part. With the focus on the main part, the return key asks for a run
/// of the selected fuzz target, and the escape key and the up arrow send the
/// focus to the list; if no fuzz target is selected, any key does.
pub open spec fn update_for_message(state: InitializedState, message: Key) -> Option<Update> {
    match state.focus {
        Focus::Sidebar => match HorizontalMove::of_key(message) {
            Some(step) => Some(Update::Sidebar(step)),
            None => if message == Key::Down || message == Key::Char('\n') || message == Key::Esc {
                Some(Update::SwitchFocus(Focus::Main))
            } else {
                None
            },
        },
        Focus::Main => match state.selected {
            Some(_) => match run_fuzz::update_for_key(message) {
                Some(update) => Some(Update::RunFuzz(update)),
                None => if message == Key::Esc || message == Key::Up {
                    Some(Update::SwitchFocus(Focus::Sidebar))
                } else {
                    None
                },
            },
            None => Some(Update::SwitchFocus(Focus::Sidebar)),
        },
    }
}

/// The state after the view did what `update` says.
pub open spec fn state_after(state: InitializedState, update: Update) -> InitializedState {
    match update {
        Update::Sidebar(step) => match moved(state.selected, state.targets.len(), step) {
            Some(s) => InitializedState { selected: Some(s), ..state },
            None => state,
        },
        Update::RunFuzz(_) => state,
        Update::SwitchFocus(focus) => focus_switched(state, focus),
        Update::SelectTarget(_) => state,
    }
}

/// The name of the fuzz target that the view asks to run when it does what
/// `update` says, if it asks for a run.
pub open spec fn target_to_run(state: InitializedState, update: Update) -> Option<Seq<char>> {
    match update {
        Update::RunFuzz(run_fuzz::Update::Run) => match state.selected {
            Some(s) => Some(state.targets[s as int]),
            None => None,
        },
        _ => None,
    }
}

/// The view of a project: its fuzz targets, of which one is selected, and the
/// view of each.
pub struct InitializedView {
    focus: Focus,
    fuzz_target_list: HorizontalListView,
    run_fuzz_views: Vec<RunFuzzView>,
}

impl View for InitializedView {
    type V = InitializedState;

    closed spec fn view(&self) -> InitializedState {
        InitializedState {
            focus: self.focus,
            targets: Seq::new(
                self.fuzz_target_list.items().len(),
                |i: int| self.fuzz_target_list.items()[i]@,
            ),
            selected: self.fuzz_target_list.selected_index(),
            sidebar_focused: self.fuzz_target_list.is_focused(),
            main_focused: Seq::new(
                self.run_fuzz_views@.len(),
                |i: int| self.run_fuzz_views@[i].is_focused(),
            ),
        }
    }
}

impl InitializedView {
    /// The list is well-formed and each fuzz target has the view of its name,
    /// so that what the view holds is well-formed.
    pub closed spec fn wf(&self) -> bool {
        &&& well_formed(self@)
        &&& self.fuzz_target_list.wf()
        &&& self.run_fuzz_views@.len() == self.fuzz_target_list.items().len()
        &&& forall|i: int|
            0 <= i < self.run_fuzz_views@.len() ==> (#[trigger] self.run_fuzz_views@[i]).target()
                == self.fuzz_target_list.items()[i]@
    }

    /// The view of the fuzz targets of the given names, with the first one
    /// selected and the focus on the list.
    pub fn new(fuzz_targets: Vec<String>) -> (view: InitializedView)
        ensures
            view.wf(),
            well_formed(view@),
            view@ == (InitializedState {
                focus: Focus::Sidebar,
                targets: Seq::new(fuzz_targets@.len(), |i: int| fuzz_targets@[i]@),
                selected: if fuzz_targets@.len() > 0 {
                    Some(0usize)
                } else {
                    None
                },
                sidebar_focused: true,
                main_focused: Seq::new(fuzz_targets@.len(), |i: int| false),
            }),
    {
        let fuzz_target_list = HorizontalListView::new("Fuzz Targets", fuzz_targets);
        let mut run_fuzz_views: Vec<RunFuzzView> = Vec::new();
        let mut i: usize = 0;
        while i < fuzz_target_list.items_ref().len()
            invariant
                i <= fuzz_target_list.items().len(),
                run_fuzz_views@.len() == i,
                forall|k: int|
                    0 <= k < i ==> (#[trigger] run_fuzz_views@[k]).target()
                        == fuzz_target_list.items()[k]@ && !run_fuzz_views@[k].is_focused(),
            decreases fuzz_target_list.items().len() - i,
        {
            let fuzz_target: String = fuzz_target_list.items_ref()[i].clone();
            run_fuzz_views.push(RunFuzzView::new(fuzz_target));
            i += 1;
        }
        let focus = Focus::Sidebar;
        let mut res = InitializedView { focus, fuzz_target_list, run_fuzz_views };
        assert(res@.main_focused =~= Seq::new(fuzz_targets@.len(), |i: int| false));
        res.update_focus(focus);
        assert(res@.main_focused =~= Seq::new(fuzz_targets@.len(), |i: int| false));
        res
    }

    /// The part of the view that keys are sent to.
    pub fn focus(&self) -> (focus: Focus)
        ensures
            focus == self@.focus,
    {
        self.focus
    }

    /// The list of fuzz targets.
    pub fn fuzz_target_list(&self) -> (list: &HorizontalListView)
        ensures
            self.wf() ==> list.wf(),
            list.selected_index() == self@.selected,
            list.is_focused() == self@.sidebar_focused,
            list.items().len() == self@.targets.len(),
            forall|i: int| 0 <= i < list.items().len() ==> list.items()[i]@ == self@.targets[i],
    {
        &self.fuzz_target_list
    }

    /// The view of the selected fuzz target.
    pub fn current_run_fuzz_view(&self) -> (current: Option<&RunFuzzView>)
        requires
            self.wf(),
        ensures
            match self@.selected {
                Some(s) => current.is_some() && current.unwrap().target() == self@.targets[s as int]
                    && current.unwrap().is_focused() == self@.main_focused[s as int],
                None => current.is_none(),
            },
    {
        match self.fuzz_target_list.selected() {
            Some(selected) => {
                if selected < self.run_fuzz_views.len() {
                    Some(&self.run_fuzz_views[selected])
                } else {
                    None
                }
            },
            None => None,
        }
    }

    /// The view of the selected fuzz target, to be changed in place.
    pub fn current_run_fuzz_view_as_mut(&mut self) -> (current: Option<&mut RunFuzzView>)
        requires
            old(self).wf(),
        ensures
            match current {
                Some(current) => {
                    &&& old(self)@.selected.is_some()
                    &&& current.target() == old(self)@.targets[old(self)@.selected.unwrap() as int]
                    &&& current.is_focused()
                        == old(self)@.main_focused[old(self)@.selected.unwrap() as int]
                    &&& final(self)@.focus == old(self)@.focus
                    &&& final(self)@.targets == old(self)@.targets
                    &&& final(self)@.selected == old(self)@.selected
                    &&& final(self)@.sidebar_focused == old(self)@.sidebar_focused
                    &&& final(self)@.main_focused == old(self)@.main_focused.update(
                        old(self)@.selected.unwrap() as int,
                        final(current).is_focused(),
                    )
                    &&& final(current).target() == current.target() ==> final(self).wf()
                },
                None => {
                    &&& old(self)@.selected.is_none()
                    &&& final(self)@ == old(self)@
                    &&& final(self).wf()
                },
            },
    {
        match self.fuzz_target_list.selected() {
            Some(selected) => {
                if selected < self.run_fuzz_views.len() {
                    let ghost before = self@;
                    let current = &mut self.run_fuzz_views[selected];
                    proof {
                        assert(after_borrow(self)@.targets =~= before.targets);
                        assert(after_borrow(self)@.main_focused =~= before.main_focused.update(
                            selected as int,
                            final(current).is_focused(),
                        ));
                    }
                    Some(current)
                } else {
                    None
                }
            },
            None => None,
        }
    }

    /// The child view that has the focus.
    pub fn view_in_focus(&self) -> (which: ViewInFocus)
        ensures
            which == view_in_focus_of(self@),
    {
        match self.focus {
            Focus::Sidebar => ViewInFocus::Sidebar,
            Focus::Main => match self.fuzz_target_list.selected() {
                None => ViewInFocus::Sidebar,
                Some(selected) => ViewInFocus::RunFuzz(selected),
            },
        }
    }

    /// Draws the child view `which` with or without the focus.
    fn set_focus_flag(&mut self, which: ViewInFocus, focused: bool)
        requires
            old(self).wf(),
            which matches ViewInFocus::RunFuzz(i) ==> i < old(self)@.targets.len(),
        ensures
            final(self).wf(),
            final(self)@ == with_focus_flag(old(self)@, which, focused),
    {
        match which {
            ViewInFocus::Sidebar => {
                if focused {
                    self.fuzz_target_list.focus();
                } else {
                    self.fuzz_target_list.unfocus();
                }
                assert(self@.targets =~= old(self)@.targets);
                assert(self@.main_focused =~= old(self)@.main_focused);
            },
            ViewInFocus::RunFuzz(i) => {
                if focused {
                    self.run_fuzz_views[i].focus();
                } else {
                    self.run_fuzz_views[i].unfocus();
                }
                assert(self@.main_focused =~= old(self)@.main_focused.update(i as int, focused));
            },
        }
    }

    /// Sends the keys to `focus` from now on.
    pub fn update_focus(&mut self, focus: Focus)
        requires
            old(self).wf(),
        ensures
            final(self).wf(),
            well_formed(final(self)@),
            final(self)@ == focus_switched(old(self)@, focus),
    {
        let before = self.view_in_focus();
        self.set_focus_flag(before, false);
        self.focus = focus;
        let after = self.view_in_focus();
        self.set_focus_flag(after, true);
    }

    /// What the view does with a key.
    pub fn convert_in_message(&self, message: Key) -> (update: Option<Update>)
        requires
            self.wf(),
        ensures
            update == update_for_message(self@, message),
    {
        match self.focus {
            Focus::Sidebar => {
                let from_list: Option<Update> = match HorizontalMove::from(&message) {
                    Some(step) => match self.fuzz_target_list.convert_in_message(step) {
                        Some(step) => Some(Update::Sidebar(step)),
                        None => None,
                    },
                    None => None,
                };
                match from_list {
                    Some(update) => Some(update),
                    None => {
                        if let Some(VerticalMove::Down) = VerticalMove::from(&message) {
                            Some(Update::SwitchFocus(Focus::Main))
                        } else if message == Key::Char('\n') || message == Key::Esc {
                            Some(Update::SwitchFocus(Focus::Main))
                        } else {
                            None
                        }
                    },
                }
            },
            Focus::Main => {
                match self.current_run_fuzz_view() {
                    Some(run_fuzz) => {
                        match run_fuzz.convert_in_message(message) {
                            Some(update) => Some(Update::RunFuzz(update)),
                            None => {
                                if message == Key::Esc {
                                    Some(Update::SwitchFocus(Focus::Sidebar))
                                } else if let Some(VerticalMove::Up) = VerticalMove::from(
                                    &message,
                                ) {
                                    Some(Update::SwitchFocus(Focus::Sidebar))
                                } else {
                                    None
                                }
                            },
                        }
                    },
                    None => Some(Update::SwitchFocus(Focus::Sidebar)),
                }
            },
        }
    }

    /// Does what `u` says, and says what the parent is to do.
    pub fn update(&mut self, u: Update) -> (out: Option<OutMessage>)
        requires
            old(self).wf(),
        ensures
            final(self).wf(),
            well_formed(final(self)@),
            final(self)@ == state_after(old(self)@, u),
            match target_to_run(old(self)@, u) {
                Some(name) => match out {
                    Some(OutMessage::Run(target)) => target@ == name,
                    None => false,
                },
                None => out.is_none(),
            },
    {
        match u {
            Update::Sidebar(step) => {
                let _ = self.fuzz_target_list.update(step);
                assert(self@.targets =~= old(self)@.targets);
                assert(self@.main_focused =~= old(self)@.main_focused);
                None
            },
            Update::RunFuzz(step) => {
                match self.current_run_fuzz_view_as_mut() {
                    Some(run_fuzz) => {
                        let out = run_fuzz.update(step);
                        assert(self@.main_focused =~= old(self)@.main_focused);
                        match out {
                            Some(run_fuzz::OutMessage::Run(target)) => Some(
                                OutMessage::Run(target),
                            ),
                            None => None,
                        }
                    },
                    None => None,
                }
            },
            Update::SwitchFocus(f) => {
                self.update_focus(f);
                None
            },
            Update::SelectTarget(_target) => None,
        }
    }
}

} // verus!
