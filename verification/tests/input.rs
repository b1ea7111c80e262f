use blitz::input::{Action, Binding, Button, Input, InputBindings, InputManager, InputState, Key};

fn key(k: Key) -> Input {
    Input::Keyboard(k)
}

#[test]
fn default_bindings_map_inputs_to_actions() {
    let b = InputBindings::default();
    assert_eq!(b.action_for(key(Key::Escape)), Some(Action::ToggleMenu));
    assert_eq!(b.action_for(key(Key::ArrowUp)), Some(Action::MoveForward));
    assert_eq!(b.action_for(key(Key::KeyC)), Some(Action::ToggleMouseLock));
    assert_eq!(b.action_for(key(Key::KeyL)), Some(Action::ToggleMouseLock));
    assert_eq!(b.action_for(Input::Mouse(Button::Left)), Some(Action::PrimaryAction));
    assert_eq!(b.action_for(Input::Mouse(Button::Middle)), None);
    assert_eq!(b.action_for(key(Key::Other(7))), None);
    assert_eq!(
        b.binding(Action::ToggleMouseLock),
        Some(Binding { first: Some(key(Key::KeyC)), second: Some(key(Key::KeyL)) })
    );
}

#[test]
fn binding_a_taken_input_steals_it() {
    let mut b = InputBindings::default();
    let clean = b.bind(Action::Jump, Binding { first: Some(key(Key::KeyQ)), second: None });
    assert!(!clean);
    assert_eq!(b.action_for(key(Key::KeyQ)), Some(Action::Jump));
    // Quit lost its only input, Jump lost its old one
    assert_eq!(b.binding(Action::Quit), Some(Binding { first: None, second: None }));
    assert_eq!(b.action_for(key(Key::Numpad1)), None);
}

#[test]
fn binding_free_inputs_is_clean() {
    let mut b = InputBindings::default();
    let clean = b.bind(
        Action::Jump,
        Binding { first: Some(key(Key::Other(57))), second: Some(key(Key::Numpad1)) },
    );
    assert!(clean);
    assert_eq!(b.action_for(key(Key::Other(57))), Some(Action::Jump));
    assert_eq!(b.action_for(key(Key::Numpad1)), Some(Action::Jump));
}

#[test]
fn stealing_one_of_two_inputs_keeps_the_other() {
    let mut b = InputBindings::default();
    assert!(!b.bind(Action::Quit, Binding { first: Some(key(Key::KeyL)), second: None }));
    assert_eq!(
        b.binding(Action::ToggleMouseLock),
        Some(Binding { first: Some(key(Key::KeyC)), second: None })
    );
    assert_eq!(b.action_for(key(Key::KeyQ)), None);
    assert_eq!(b.action_for(key(Key::KeyL)), Some(Action::Quit));
}

#[test]
fn unbinding_frees_the_inputs() {
    let mut b = InputBindings::default();
    b.unbind(Action::ToggleMouseLock);
    assert_eq!(b.binding(Action::ToggleMouseLock), None);
    assert_eq!(b.action_for(key(Key::KeyC)), None);
    assert_eq!(b.action_for(key(Key::KeyL)), None);
    b.unbind(Action::ToggleMouseLock);
    assert_eq!(b.action_for(key(Key::Escape)), Some(Action::ToggleMenu));
}

#[test]
fn a_new_table_binds_nothing() {
    let b = InputBindings::new();
    assert_eq!(b.binding(Action::Quit), None);
    assert_eq!(b.action_for(key(Key::KeyQ)), None);
}

#[test]
fn press_is_reported_once_until_cleared() {
    let mut s = InputState::new();
    s.update(Action::Jump, true);
    assert!(s.is_held(Action::Jump));
    assert!(s.is_pressed(Action::Jump));
    s.clear();
    assert!(s.is_held(Action::Jump));
    assert!(!s.is_pressed(Action::Jump));
    // key repeat: still held, not pressed again
    s.update(Action::Jump, true);
    assert!(!s.is_pressed(Action::Jump));
    s.update(Action::Jump, false);
    assert!(!s.is_held(Action::Jump));
    assert!(s.is_released(Action::Jump));
    s.clear();
    assert!(!s.is_released(Action::Jump));
}

#[test]
fn buttons_drive_the_actions_bound_to_them() {
    let mut m = InputManager::new();
    m.button_update(key(Key::KeyQ), true);
    assert!(m.is_pressed(Action::Quit));
    assert!(m.is_held(Action::Quit));
    m.button_update(key(Key::Other(3)), true);
    assert!(!m.is_held(Action::Jump));
    m.button_update(Input::Mouse(Button::Left), true);
    m.button_update(Input::Mouse(Button::Left), false);
    assert!(m.is_pressed(Action::PrimaryAction));
    assert!(m.is_released(Action::PrimaryAction));
    assert!(!m.is_held(Action::PrimaryAction));
}
