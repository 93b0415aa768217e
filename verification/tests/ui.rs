use fuzzcheck::ui::framework::{HorizontalMove, Key, VerticalMove};
use fuzzcheck::ui::horizontal_list_view::{HorizontalListView, OutMessage as ListOutMessage};
use fuzzcheck::ui::initialized::{Focus, InitializedView, OutMessage, Update, ViewInFocus};
use fuzzcheck::ui::run_fuzz::{OutMessage as RunOutMessage, RunFuzzView, Update as RunUpdate};

fn targets() -> Vec<String> {
    vec!["alpha".to_string(), "beta".to_string(), "gamma".to_string()]
}

#[test]
fn keys_stand_for_moves() {
    assert_eq!(HorizontalMove::from(&Key::Left), Some(HorizontalMove::Left));
    assert_eq!(HorizontalMove::from(&Key::Right), Some(HorizontalMove::Right));
    assert_eq!(HorizontalMove::from(&Key::Up), None);
    assert_eq!(VerticalMove::from(&Key::Up), Some(VerticalMove::Up));
    assert_eq!(VerticalMove::from(&Key::Down), Some(VerticalMove::Down));
    assert_eq!(VerticalMove::from(&Key::Char('x')), None);
}

#[test]
fn list_moves_its_selection_within_bounds() {
    let mut list = HorizontalListView::new("Fuzz Targets", targets());
    assert_eq!(list.selected(), Some(0));
    assert_eq!(list.update(HorizontalMove::Left), None);
    assert_eq!(list.update(HorizontalMove::Right), Some(ListOutMessage::Select(1)));
    assert_eq!(list.update(HorizontalMove::Right), Some(ListOutMessage::Select(2)));
    assert_eq!(list.update(HorizontalMove::Right), None);
    assert_eq!(list.selected(), Some(2));
    assert_eq!(list.update(HorizontalMove::Left), Some(ListOutMessage::Select(1)));
    assert_eq!(list.convert_in_message(HorizontalMove::Left), Some(HorizontalMove::Left));
    assert_eq!(list.items_ref().len(), 3);
}

#[test]
fn empty_list_selects_nothing() {
    let mut list = HorizontalListView::new("Fuzz Targets", Vec::new());
    assert_eq!(list.selected(), None);
    assert_eq!(list.update(HorizontalMove::Right), None);
    assert_eq!(list.update(HorizontalMove::Left), None);
}

#[test]
fn run_view_asks_for_a_run_on_return() {
    let mut view = RunFuzzView::new("alpha".to_string());
    assert_eq!(view.convert_in_message(Key::Char('\n')), Some(RunUpdate::Run));
    assert_eq!(view.convert_in_message(Key::Char('a')), None);
    assert_eq!(view.convert_in_message(Key::Esc), None);
    assert_eq!(view.fuzz_target(), "alpha");
    match view.update(RunUpdate::Run) {
        Some(RunOutMessage::Run(name)) => assert_eq!(name, "alpha"),
        None => panic!("the view asks for a run"),
    }
}

#[test]
fn new_view_has_the_focus_on_the_list() {
    let view = InitializedView::new(targets());
    assert_eq!(view.focus(), Focus::Sidebar);
    assert_eq!(view.view_in_focus(), ViewInFocus::Sidebar);
    assert_eq!(view.current_run_fuzz_view().map(|v| v.fuzz_target().as_str()), Some("alpha"));
}

#[test]
fn keys_on_the_list() {
    let view = InitializedView::new(targets());
    assert_eq!(
        view.convert_in_message(Key::Left),
        Some(Update::Sidebar(HorizontalMove::Left))
    );
    assert_eq!(
        view.convert_in_message(Key::Right),
        Some(Update::Sidebar(HorizontalMove::Right))
    );
    assert_eq!(view.convert_in_message(Key::Down), Some(Update::SwitchFocus(Focus::Main)));
    assert_eq!(view.convert_in_message(Key::Char('\n')), Some(Update::SwitchFocus(Focus::Main)));
    assert_eq!(view.convert_in_message(Key::Esc), Some(Update::SwitchFocus(Focus::Main)));
    assert_eq!(view.convert_in_message(Key::Up), None);
    assert_eq!(view.convert_in_message(Key::Char('q')), None);
    assert_eq!(view.convert_in_message(Key::Other), None);
}

#[test]
fn keys_on_the_main_part() {
    let mut view = InitializedView::new(targets());
    assert!(view.update(Update::SwitchFocus(Focus::Main)).is_none());
    assert_eq!(view.focus(), Focus::Main);
    assert_eq!(view.view_in_focus(), ViewInFocus::RunFuzz(0));
    assert_eq!(
        view.convert_in_message(Key::Char('\n')),
        Some(Update::RunFuzz(RunUpdate::Run))
    );
    assert_eq!(view.convert_in_message(Key::Esc), Some(Update::SwitchFocus(Focus::Sidebar)));
    assert_eq!(view.convert_in_message(Key::Up), Some(Update::SwitchFocus(Focus::Sidebar)));
    assert_eq!(view.convert_in_message(Key::Down), None);
    assert_eq!(view.convert_in_message(Key::Left), None);
}

#[test]
fn main_part_without_targets_gives_the_focus_back() {
    let mut view = InitializedView::new(Vec::new());
    assert!(view.current_run_fuzz_view().is_none());
    assert!(view.current_run_fuzz_view_as_mut().is_none());
    assert!(view.update(Update::SwitchFocus(Focus::Main)).is_none());
    assert_eq!(view.view_in_focus(), ViewInFocus::Sidebar);
    assert_eq!(view.convert_in_message(Key::Other), Some(Update::SwitchFocus(Focus::Sidebar)));
    assert!(view.update(Update::RunFuzz(RunUpdate::Run)).is_none());
}

#[test]
fn selected_target_is_run() {
    let mut view = InitializedView::new(targets());
    assert!(view.update(Update::Sidebar(HorizontalMove::Right)).is_none());
    assert!(view.update(Update::Sidebar(HorizontalMove::Right)).is_none());
    assert!(view.update(Update::Sidebar(HorizontalMove::Right)).is_none());
    assert!(view.update(Update::Sidebar(HorizontalMove::Left)).is_none());
    assert_eq!(view.current_run_fuzz_view().map(|v| v.fuzz_target().as_str()), Some("beta"));
    assert!(view.update(Update::SelectTarget(1)).is_none());
    match view.update(Update::RunFuzz(RunUpdate::Run)) {
        Some(OutMessage::Run(name)) => assert_eq!(name, "beta"),
        None => panic!("the selected target is run"),
    }
}

#[test]
fn focus_flags_follow_the_focus() {
    let mut view = InitializedView::new(targets());
    view.update_focus(Focus::Main);
    assert_eq!(view.view_in_focus(), ViewInFocus::RunFuzz(0));
    assert_eq!(view.current_run_fuzz_view_as_mut().map(|v| v.fuzz_target().clone()),
        Some("alpha".to_string()));
    view.update_focus(Focus::Sidebar);
    assert_eq!(view.view_in_focus(), ViewInFocus::Sidebar);
}
