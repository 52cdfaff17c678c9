use lvl_core::context::input::{Input, InputKey};
use lvl_core::context::screen_size::ScreenSize;

#[test]
fn registered_keys_start_up() {
    let mut input = Input::new();
    assert!(input.key("jump").is_none());
    input.register_key("jump".to_string(), 44);
    assert_eq!(
        input.key("jump"),
        Some(&InputKey { key: 44, is_pressed: false, is_pressed_frame: false })
    );
}

#[test]
fn key_events_reach_every_name_of_the_key() {
    let mut input = Input::new();
    input.register_key("jump".to_string(), 44);
    input.register_key("confirm".to_string(), 44);
    input.register_key("left".to_string(), 30);

    input.handle_key_event(44, true);
    assert_eq!(input.key("jump").unwrap().is_pressed, true);
    assert_eq!(input.key("jump").unwrap().is_pressed_frame, true);
    assert_eq!(input.key("confirm").unwrap().is_pressed, true);
    assert_eq!(input.key("left").unwrap().is_pressed, false);

    input.reset_current_frame_state();
    assert_eq!(input.key("jump").unwrap().is_pressed, true);
    assert_eq!(input.key("jump").unwrap().is_pressed_frame, false);

    input.handle_key_event(44, false);
    assert_eq!(input.key("confirm").unwrap().is_pressed, false);
    assert_eq!(input.key("confirm").unwrap().is_pressed_frame, false);
}

#[test]
fn registering_again_replaces_the_key() {
    let mut input = Input::new();
    input.register_key("fire".to_string(), 1);
    input.handle_key_event(1, true);
    input.register_key("fire".to_string(), 2);
    assert_eq!(
        input.key("fire"),
        Some(&InputKey { key: 2, is_pressed: false, is_pressed_frame: false })
    );
    input.handle_key_event(1, true);
    assert_eq!(input.key("fire").unwrap().is_pressed, false);
}

#[test]
fn screen_size_changes_are_flagged() {
    let mut size = ScreenSize::new(800, 600);
    assert!(size.is_dirty());
    assert_eq!(size.size(), (800, 600));
    size.reset_dirty();
    assert!(!size.is_dirty());
    size.set_size(1024, 768);
    assert!(size.is_dirty());
    assert_eq!(size.size(), (1024, 768));
}
