use ferrumcraft::input::{InputState, Key, MouseButton};

const ENTER: Key = Key::Other(28);
const KEY_B: Key = Key::Other(48);

#[test]
fn key_press_is_consumed_once() {
    let mut input = InputState::default();
    input.key_down(ENTER, false, false);

    assert!(input.take_key_press(ENTER));
    assert!(!input.take_key_press(ENTER));
}

#[test]
fn held_keys_are_pressed_once_until_released() {
    let mut input = InputState::new();
    input.key_down(KEY_B, false, false);
    assert!(input.is_key_pressed(KEY_B));
    assert!(input.take_key_press(KEY_B));
    // A repeat while held is no new press.
    input.key_down(KEY_B, false, true);
    assert!(!input.was_key_just_pressed(KEY_B));
    input.key_up(KEY_B, false);
    assert!(!input.is_key_pressed(KEY_B));
    input.key_down(KEY_B, false, false);
    assert!(input.was_key_just_pressed(KEY_B));
    input.end_frame();
    assert!(!input.was_key_just_pressed(KEY_B));
    assert!(input.is_key_pressed(KEY_B));
}

#[test]
fn releasing_f3_toggles_the_overlay_unless_it_made_a_chord() {
    let mut input = InputState::new();
    input.key_down(Key::F3, true, false);
    assert!(input.is_f3_pressed());
    input.key_up(Key::F3, true);
    assert!(input.take_debug_overlay_toggle_requested());
    assert!(!input.take_debug_overlay_toggle_requested());
    // F3 + B is a chord: no toggle on release.
    input.key_down(Key::F3, true, false);
    input.key_down(KEY_B, false, false);
    input.key_up(KEY_B, false);
    input.key_up(Key::F3, true);
    assert!(!input.take_debug_overlay_toggle_requested());
    // The chord ended with F3's release.
    input.key_down(Key::F3, true, false);
    input.key_up(Key::F3, true);
    assert!(input.take_debug_overlay_toggle_requested());
}

#[test]
fn shift_is_either_shift_key() {
    let mut input = InputState::new();
    assert!(!input.is_shift_pressed());
    input.key_down(Key::ShiftRight, false, false);
    assert!(input.is_shift_pressed());
    input.key_up(Key::ShiftRight, false);
    input.key_down(Key::ShiftLeft, false, false);
    assert!(input.is_shift_pressed());
}

#[test]
fn clicks_wait_for_gameplay_until_taken_or_cleared() {
    let mut input = InputState::new();
    input.button_down(MouseButton::Left);
    assert!(input.is_mouse_button_pressed(MouseButton::Left));
    assert!(input.was_mouse_button_just_pressed(MouseButton::Left));
    input.end_frame();
    assert!(!input.was_mouse_button_just_pressed(MouseButton::Left));
    assert!(input.take_mouse_click(MouseButton::Left));
    assert!(!input.take_mouse_click(MouseButton::Left));
    // Held down: no second click.
    input.button_down(MouseButton::Left);
    assert!(!input.take_mouse_click(MouseButton::Left));
    input.button_up(MouseButton::Left);
    input.button_down(MouseButton::Right);
    input.clear_mouse_clicks();
    assert!(!input.take_mouse_click(MouseButton::Right));
    assert!(input.is_mouse_button_pressed(MouseButton::Right));
    input.focus_lost();
    assert!(!input.is_mouse_button_pressed(MouseButton::Right));
}
