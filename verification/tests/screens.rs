use blitz::screens::{camera_follows_mouse, menu_toggle_target, quit_requested, syncs_pending, AppEvent, Screen, Screens};
use blitz::ui::{CursorRequest, Ui, UiError};

#[test]
fn going_to_a_screen_hides_the_old_and_shows_the_new() {
    let mut ui = Ui::new();
    let mut ids = Vec::new();
    for _ in 0..7 {
        ids.push(ui.create_panel(0));
    }
    let mut s = Screens::new(ids[0], ids[1], ids[2], ids[3], ids[4], ids[5], ids[6]);
    assert_eq!(s.current(), Screen::Title);
    assert_eq!(s.go_to(&mut ui, Screen::Title), Ok(None));
    assert_eq!(s.go_to(&mut ui, Screen::World), Ok(Some(CursorRequest::Lock)));
    assert!(!ui.tree_ref().is_visible(ids[5]));
    assert!(ui.tree_ref().is_visible(ids[4]));
    assert_eq!(s.go_to(&mut ui, Screen::Main), Ok(Some(CursorRequest::Free)));
    assert!(!ui.tree_ref().is_visible(ids[4]));
    assert!(ui.tree_ref().is_visible(ids[0]));
    assert_eq!(s.go_to(&mut ui, Screen::Keybinds), Ok(None));
    assert_eq!(s.current(), Screen::Keybinds);
    assert_eq!(s.container_for(Screen::UiTest), ids[6]);
}

#[test]
fn a_failed_switch_keeps_the_current_screen() {
    let mut ui = Ui::new();
    let main = ui.create_panel(0);
    let mut s = Screens::new(main, 2, 3, 4, 99, main, 7);
    assert_eq!(s.go_to(&mut ui, Screen::World), Err(UiError::OutOfBounds(99)));
    assert_eq!(s.current(), Screen::Title);
}

#[test]
fn the_menu_key_is_ignored_on_the_title_screen() {
    assert_eq!(menu_toggle_target(Screen::Title, true), None);
    assert_eq!(menu_toggle_target(Screen::World, true), Some(Screen::Main));
    assert_eq!(menu_toggle_target(Screen::Keybinds, true), Some(Screen::World));
    assert_eq!(menu_toggle_target(Screen::World, false), None);
}

#[test]
fn tick_decisions() {
    assert_eq!(quit_requested(true), Some(AppEvent::Exit));
    assert_eq!(quit_requested(false), None);
    assert!(syncs_pending(Screen::Main));
    assert!(!syncs_pending(Screen::SystemOptions));
    assert!(camera_follows_mouse(Screen::World));
    assert!(!camera_follows_mouse(Screen::Main));
}
