use wxpg::modules::input_server::ElementState;
use wxpg::modules::input_server::InputServer;
use wxpg::modules::input_server::KeyState;

#[test]
fn key_states_follow_what_the_platform_reports() {
    assert_eq!(KeyState::default(), KeyState::Released);
    assert_eq!(KeyState::from(ElementState::Pressed), KeyState::Pressed);
    assert_eq!(KeyState::from(ElementState::Released), KeyState::Released);
    assert!(ElementState::Pressed.is_pressed());
    assert!(!ElementState::Released.is_pressed());
}

#[test]
fn an_action_has_the_state_of_its_key() {
    let mut input = InputServer::default();
    assert!(!input.has_action("jump"));
    input.register_action("jump", 57);
    assert!(input.has_action("jump"));
    assert_eq!(input.get_state("jump"), KeyState::Released);
    assert!(!input.action("jump"));
    input.keyboard_input(57, ElementState::Pressed);
    assert_eq!(input.get_state("jump"), KeyState::Pressed);
    assert!(input.action("jump"));
    input.keyboard_input(58, ElementState::Pressed);
    input.keyboard_input(57, ElementState::Released);
    assert_eq!(input.get_state("jump"), KeyState::Released);
    assert!(!input.action("jump"));
}

#[test]
fn registering_again_replaces_the_binding() {
    let mut input = InputServer::default();
    input.keyboard_input(2, ElementState::Pressed);
    input.register_action("camera_down", 1);
    input.register_action("camera_back", 2);
    assert_eq!(input.get_state("camera_down"), KeyState::Released);
    input.register_action("camera_down", 2);
    assert_eq!(input.get_state("camera_down"), KeyState::Pressed);
    assert_eq!(input.get_state("camera_back"), KeyState::Pressed);
    input.unregister_action("camera_down");
    assert!(!input.has_action("camera_down"));
    assert!(input.has_action("camera_back"));
}

#[test]
fn unregistering_forgets_one_action_only() {
    let mut input = InputServer::default();
    input.register_action("a", 1);
    input.register_action("b", 2);
    input.register_action("c", 3);
    input.unregister_action("b");
    input.unregister_action("missing");
    assert!(input.has_action("a"));
    assert!(!input.has_action("b"));
    assert!(input.has_action("c"));
    input.keyboard_input(3, ElementState::Pressed);
    assert_eq!(input.get_state("a"), KeyState::Released);
    assert_eq!(input.get_state("c"), KeyState::Pressed);
    input.register_action("b", 3);
    assert_eq!(input.get_state("b"), KeyState::Pressed);
}

#[test]
fn action_names_are_compared_in_full() {
    let mut input = InputServer::default();
    input.register_action("camera", 1);
    input.register_action("camera_up", 2);
    input.register_action("", 3);
    input.keyboard_input(2, ElementState::Pressed);
    assert!(!input.action("camera"));
    assert!(input.action("camera_up"));
    assert!(!input.action(""));
    assert!(!input.has_action("camera_"));
    assert!(!input.has_action("Camera"));
}
