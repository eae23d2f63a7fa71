use toyoterm::keys::{
    binding_candidates, clear_modifier_state, effective_modifiers, key_modifiers, keybinding_name,
    keypad_key, should_handle_key_event, terminal_mouse_button, validate_allowed_url, Key, KeyCode,
    KeyModifiers, KeypadKey, MouseButton, NamedKey, PhysicalKey, TerminalMouseButton,
};
use toyoterm::platform::{ElementState, ModifiersState};

#[test]
fn normalizes_native_keys_for_the_ruby_binding_resolver() {
    assert_eq!(
        keybinding_name(
            &Key::Character("h".into()),
            ModifiersState::control() | ModifiersState::shift(),
        )
        .as_deref(),
        Some("CTRL+SHIFT+H")
    );
    assert_eq!(
        keybinding_name(&Key::Named(NamedKey::F5), ModifiersState::alt()).as_deref(),
        Some("ALT+F5")
    );
}

#[test]
fn physical_binding_candidates_take_priority_over_logical_keys() {
    assert_eq!(
        binding_candidates(
            Some("KeyY".into()),
            Some("Z".into()),
            KeyModifiers {
                control: true,
                ..KeyModifiers::default()
            },
            false,
        ),
        vec!["CTRL+PHYSICAL:KEYY", "CTRL+Z"]
    );
}

#[test]
fn shifted_symbols_also_match_their_logical_key_without_shift() {
    assert_eq!(
        binding_candidates(
            Some("Digit4".into()),
            Some("$".into()),
            KeyModifiers {
                shift: true,
                ..KeyModifiers::default()
            },
            true,
        ),
        vec!["SHIFT+PHYSICAL:DIGIT4", "SHIFT+$", "$"]
    );
}

#[test]
fn shifted_letters_do_not_fall_back_to_unmodified_bindings() {
    assert_eq!(
        binding_candidates(
            Some("KeyH".into()),
            Some("H".into()),
            KeyModifiers {
                shift: true,
                ..KeyModifiers::default()
            },
            false,
        ),
        vec!["SHIFT+PHYSICAL:KEYH", "SHIFT+H"]
    );
}

#[test]
fn alt_graph_is_not_treated_as_control_alt() {
    let modifiers = effective_modifiers(ModifiersState::control() | ModifiersState::alt(), true);
    assert!(!modifiers.control_key());
    assert!(!modifiers.alt_key());
    let flags = key_modifiers(modifiers);
    assert!(!flags.control);
    assert!(!flags.alt);
}

#[test]
fn real_control_alt_remains_available_for_bindings() {
    let modifiers = effective_modifiers(ModifiersState::control() | ModifiersState::alt(), false);
    assert_eq!(
        keybinding_name(&Key::Character("x".into()), modifiers).as_deref(),
        Some("CTRL+ALT+X")
    );
}

#[test]
fn key_repeat_is_delivered_and_releases_are_ignored() {
    assert!(should_handle_key_event(ElementState::Pressed, false));
    assert!(should_handle_key_event(ElementState::Pressed, true));
    assert!(!should_handle_key_event(ElementState::Released, false));
    assert!(!should_handle_key_event(ElementState::Released, true));
}

#[test]
fn focus_loss_clears_all_modifier_state() {
    let mut modifiers = ModifiersState::shift()
        | ModifiersState::control()
        | ModifiersState::alt()
        | ModifiersState::super_modifier();
    let mut alt_graph_active = true;

    clear_modifier_state(&mut modifiers, &mut alt_graph_active);

    assert!(modifiers.is_empty());
    assert!(!alt_graph_active);
}

#[test]
fn maps_physical_numpad_keys_independently_of_layout() {
    assert_eq!(
        keypad_key(PhysicalKey::Code(KeyCode::Numpad7)),
        Some(KeypadKey::Digit(7))
    );
    assert_eq!(
        keypad_key(PhysicalKey::Code(KeyCode::NumpadEnter)),
        Some(KeypadKey::Enter)
    );
    assert_eq!(keypad_key(PhysicalKey::Code(KeyCode::Digit7)), None);
}

#[test]
fn maps_winit_mouse_buttons() {
    assert_eq!(
        terminal_mouse_button(MouseButton::Left),
        Some(TerminalMouseButton::Left)
    );
    assert_eq!(
        terminal_mouse_button(MouseButton::Middle),
        Some(TerminalMouseButton::Middle)
    );
    assert_eq!(
        terminal_mouse_button(MouseButton::Right),
        Some(TerminalMouseButton::Right)
    );
    assert_eq!(terminal_mouse_button(MouseButton::Back), None);
    assert_eq!(terminal_mouse_button(MouseButton::Forward), None);
}

#[test]
fn hyperlink_scheme_allowlist_is_safe() {
    assert!(validate_allowed_url("https://example.com/path").is_ok());
    assert!(validate_allowed_url("mailto:user@example.com").is_ok());
    assert!(validate_allowed_url("file:///etc/passwd").is_err());
    assert!(validate_allowed_url("javascript:alert(1)").is_err());
    assert!(validate_allowed_url("https://example.com\ncommand").is_err());
}
