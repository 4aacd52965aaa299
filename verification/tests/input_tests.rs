use viceptica::input::{Input, KeyState};

#[test]
fn new_input_has_no_keys() {
    let input = Input::new();
    assert!(input.keys.is_empty());
    assert!(input.mouse_buttons.is_empty());
    assert!(!input.needs_update);
    assert!(input.get_key_released(7));
    assert!(!input.get_key_pressed(7));
    assert!(!input.get_key_just_pressed(7));
}

#[test]
fn pressed_key_is_just_pressed_until_update() {
    let mut input = Input::new();
    input.on_key_pressed(3);
    assert!(input.needs_update);
    assert!(input.get_key_pressed(3));
    assert!(input.get_key_just_pressed(3));
    assert!(!input.get_key_released(3));
    input.update();
    assert!(!input.needs_update);
    assert!(input.get_key_pressed(3));
    assert!(!input.get_key_just_pressed(3));
    assert_eq!(input.keys.get(&3), Some(&KeyState::Pressed));
}

#[test]
fn released_key() {
    let mut input = Input::new();
    input.on_key_pressed(3);
    input.update();
    input.on_key_released(3);
    assert!(input.get_key_released(3));
    assert!(!input.get_key_pressed(3));
    input.update();
    assert!(input.get_key_released(3));
}

#[test]
fn update_without_news_changes_nothing() {
    let mut input = Input::new();
    input.on_key_pressed(1);
    input.needs_update = false;
    input.update();
    assert!(input.get_key_just_pressed(1));
}

#[test]
fn mouse_buttons() {
    let mut input = Input::new();
    assert!(input.get_mouse_button_released(0));
    assert!(!input.get_mouse_button_pressed(0));
    input.on_mouse_button_pressed(0);
    assert!(input.get_mouse_button_pressed(0));
    assert!(input.get_mouse_button_just_pressed(0));
    assert!(!input.get_mouse_button_released(0));
    input.update();
    assert!(input.get_mouse_button_pressed(0));
    assert!(!input.get_mouse_button_just_pressed(0));
    input.on_mouse_button_released(0);
    assert!(input.get_mouse_button_released(0));
    assert!(!input.get_mouse_button_pressed(0));
}

#[test]
fn keys_do_not_disturb_each_other() {
    let mut input = Input::new();
    input.on_key_pressed(1);
    input.on_key_pressed(2);
    input.on_key_released(1);
    assert!(input.get_key_released(1));
    assert!(input.get_key_just_pressed(2));
    assert!(!input.get_mouse_button_pressed(1));
}

#[test]
fn update_twice_is_update_once() {
    let mut input = Input::new();
    input.on_key_pressed(5);
    input.on_mouse_button_pressed(5);
    input.update();
    let keys = input.keys.clone();
    input.needs_update = true;
    input.update();
    assert_eq!(input.keys, keys);
}
