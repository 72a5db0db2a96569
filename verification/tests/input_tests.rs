use zombs_engine::engine::input::{Action, InputState, Keybinds};

#[test]
fn default_layout_binds_expected_keys() {
    let kb = Keybinds::default();
    assert_eq!(kb.lookup("KeyW"), Some(Action::MoveForward));
    assert_eq!(kb.lookup("ArrowUp"), Some(Action::MoveForward));
    assert_eq!(kb.lookup("KeyS"), Some(Action::MoveBackward));
    assert_eq!(kb.lookup("ArrowDown"), Some(Action::MoveBackward));
    assert_eq!(kb.lookup("KeyA"), Some(Action::MoveLeft));
    assert_eq!(kb.lookup("ArrowLeft"), Some(Action::MoveLeft));
    assert_eq!(kb.lookup("KeyD"), Some(Action::MoveRight));
    assert_eq!(kb.lookup("ArrowRight"), Some(Action::MoveRight));
    assert_eq!(kb.lookup("Space"), Some(Action::Jump));
    assert_eq!(kb.lookup("KeyR"), Some(Action::Reload));
    assert_eq!(kb.lookup("ShiftLeft"), Some(Action::Sprint));
    assert_eq!(kb.lookup("ShiftRight"), Some(Action::Sprint));
    assert_eq!(kb.lookup("KeyQ"), None);
    assert_eq!(kb.lookup(""), None);
    assert_eq!(kb.lookup("keyw"), None);
}

#[test]
fn key_down_and_up_toggle_flags() {
    let kb = Keybinds::default();
    let mut input = InputState::new();
    kb.on_key_down(&mut input, "KeyW");
    kb.on_key_down(&mut input, "ShiftLeft");
    assert!(input.up && input.sprint);
    assert!(!input.down && !input.left && !input.right);
    kb.on_key_up(&mut input, "KeyW");
    assert!(!input.up);
    assert!(input.sprint);
    kb.on_key_up(&mut input, "ShiftRight");
    assert!(!input.sprint);
}

#[test]
fn unbound_keys_are_ignored() {
    let kb = Keybinds::default();
    let mut input = InputState::new();
    kb.on_key_down(&mut input, "KeyZ");
    assert_eq!(input, InputState::new());
    kb.on_key_up(&mut input, "Escape");
    assert_eq!(input, InputState::new());
}

#[test]
fn jump_is_a_one_frame_press() {
    let kb = Keybinds::default();
    let mut input = InputState::new();
    kb.on_key_down(&mut input, "Space");
    assert!(input.jump_pressed);
    kb.on_key_up(&mut input, "Space");
    assert!(input.jump_pressed);
    kb.on_key_down(&mut input, "KeyD");
    input.end_frame();
    assert!(!input.jump_pressed);
    assert!(input.right);
}

#[test]
fn reload_key_sets_and_clears() {
    let kb = Keybinds::default();
    let mut input = InputState::default();
    kb.on_key_down(&mut input, "KeyR");
    assert!(input.reload);
    kb.on_key_up(&mut input, "KeyR");
    assert!(!input.reload);
}
