use streamwm::bindings::{
    bind_for_seat, bind_pointer_for_seat, default_bindings, is_resize_binding, parse_keysym,
    parse_modifiers, BTN_LEFT, BTN_RIGHT,
};
use streamwm::config::{Binding, Config};

#[test]
fn configured_binding_arg_becomes_action_suffix() {
    let mut config = Config::default();
    config.bindings.push(Binding {
        keysym: "F1".into(),
        modifiers: "shift".into(),
        action: "spawn".into(),
        arg: Some("foot".into()),
    });

    assert!(default_bindings(&config)
        .iter()
        .any(|(key, modifiers, action)| key == "F1"
            && modifiers == "shift"
            && action == "spawn:foot"));
}

#[test]
fn configured_binding_with_inline_arg_is_not_double_suffixed() {
    let mut config = Config::default();
    config.bindings.push(Binding {
        keysym: "F2".into(),
        modifiers: "".into(),
        action: "focus_tag:3".into(),
        arg: Some("9".into()),
    });

    assert!(default_bindings(&config)
        .iter()
        .any(|(_, _, action)| action == "focus_tag:3"));
    assert!(!default_bindings(&config)
        .iter()
        .any(|(_, _, action)| action == "focus_tag:3:9"));
}

#[test]
fn default_bindings_cover_tags_and_core_actions() {
    let bindings = default_bindings(&Config::default());

    assert!(bindings
        .iter()
        .any(|(_, _, action)| action == "spawn_terminal"));
    assert!(bindings.iter().any(|(_, _, action)| action == "focus_next"));
    assert!(bindings.iter().any(|(key, modifiers, action)| key == "E"
        && modifiers == "super"
        && action == "quit"));
    assert!(bindings.iter().any(|(key, modifiers, action)| key == "1"
        && modifiers.is_empty()
        && action == "focus_tag:0"));
    assert!(bindings.iter().any(|(key, modifiers, action)| key == "9"
        && modifiers == "super+shift"
        && action == "send_to_tag:8"));
}

#[test]
fn keysym_parser_handles_known_and_unknown_values() {
    assert_eq!(parse_keysym("a"), Some('a' as u32));
    assert_eq!(parse_keysym("Return"), Some(0xff0d));
    assert_eq!(parse_keysym("XF86AudioMute"), Some(269025042));
    assert_eq!(parse_keysym("NotAKeysym"), None);
}

#[test]
fn modifier_parser_accepts_commas_plus_and_config_default() {
    let explicit = parse_modifiers("shift+ctrl,alt", "super");
    assert!(explicit.shift);
    assert!(explicit.ctrl);
    assert!(explicit.mod1);
    assert!(!explicit.mod4);

    assert!(parse_modifiers("", "super").mod4);
    assert!(parse_modifiers("", "alt").mod1);
    assert!(parse_modifiers("", "ctrl").ctrl);
}

#[test]
fn modifier_parser_accepts_none() {
    assert!(parse_modifiers("none", "super").is_empty());
}

#[test]
fn default_bindings_include_resize_mode() {
    let bindings = default_bindings(&Config::default());

    assert!(bindings.iter().any(|(key, modifiers, action)| key == "r"
        && modifiers.is_empty()
        && action == "enter_resize_mode"));
    assert!(bindings.iter().any(|(key, modifiers, action)| key == "Left"
        && modifiers == "none"
        && action == "resize_step_left"));
    assert!(bindings.iter().any(|(key, modifiers, action)| key == "Right"
        && modifiers == "none"
        && action == "resize_step_right"));
    assert!(bindings.iter().any(|(key, modifiers, action)| key == "Escape"
        && modifiers == "none"
        && action == "exit_resize_mode"));
}

#[test]
fn resize_bindings_are_flagged_resize_only() {
    assert!(is_resize_binding("resize_step_left"));
    assert!(is_resize_binding("resize_step_right"));
    assert!(is_resize_binding("exit_resize_mode"));
    assert!(!is_resize_binding("enter_resize_mode"));
    assert!(!is_resize_binding("focus_next"));
    assert!(!is_resize_binding("spawn"));
}

#[test]
fn default_bindings_hold_core_then_tags_then_configured() {
    let mut config = Config::default();
    config.bindings.push(Binding {
        keysym: "x".into(),
        modifiers: "alt".into(),
        action: "close".into(),
        arg: Some("".into()),
    });
    let bindings = default_bindings(&config);
    assert_eq!(bindings.len(), 17 + 18 + 1);
    assert_eq!(
        bindings[5],
        ("v".to_string(), "super+shift".to_string(), "float".to_string())
    );
    assert_eq!(
        bindings[17],
        ("1".to_string(), "".to_string(), "focus_tag:0".to_string())
    );
    assert_eq!(
        bindings[34],
        ("9".to_string(), "super+shift".to_string(), "send_to_tag:8".to_string())
    );
    assert_eq!(
        bindings[35],
        ("x".to_string(), "alt".to_string(), "close".to_string())
    );
}

#[test]
fn modifier_names_are_trimmed_and_case_does_not_matter() {
    let m = parse_modifiers(" Shift , LOGO ", "alt");
    assert!(m.shift && m.mod4 && !m.mod1 && !m.ctrl);
    assert!(parse_modifiers("  NONE ", "super").is_empty());
    // Unknown names alone leave the configured default.
    assert!(parse_modifiers("hyper", "mod4").mod4);
    assert!(parse_modifiers("mod3+mod5", "super").mod3);
    assert!(parse_modifiers("mod3+mod5", "super").mod5);
    assert!(parse_modifiers("", "hyper").is_empty());
}

#[test]
fn keysyms_of_single_characters_are_ascii_letters_and_digits() {
    assert_eq!(parse_keysym("Z"), Some(0x5a));
    assert_eq!(parse_keysym("7"), Some(0x37));
    assert_eq!(parse_keysym("-"), None);
    assert_eq!(parse_keysym("ä"), None);
    assert_eq!(parse_keysym(""), None);
    assert_eq!(parse_keysym("F12"), Some(0xffc9));
    assert_eq!(parse_keysym("space"), Some(0x20));
}

#[test]
fn seat_bindings_skip_unknown_keysyms() {
    let mut config = Config::default();
    config.bindings.push(Binding {
        keysym: "NotAKeysym".into(),
        modifiers: "".into(),
        action: "close".into(),
        arg: None,
    });
    config.bindings.push(Binding {
        keysym: "F3".into(),
        modifiers: "ctrl".into(),
        action: "fullscreen".into(),
        arg: None,
    });
    let bound = bind_for_seat(&config);
    assert_eq!(bound.len(), 36);
    let last = &bound[35];
    assert_eq!(last.keysym, 0xffc0);
    assert!(last.modifiers.ctrl && !last.modifiers.mod4);
    assert_eq!(last.action, "fullscreen");
    assert_eq!(bound[0].keysym, 0xff0d);
    assert!(bound[0].modifiers.mod4);
}

#[test]
fn pointer_bindings_move_with_the_left_button_and_resize_with_the_right() {
    let bound = bind_pointer_for_seat(&Config::default());
    assert_eq!(bound.len(), 2);
    assert_eq!((bound[0].0, bound[0].2.as_str()), (BTN_LEFT, "move"));
    assert_eq!((bound[1].0, bound[1].2.as_str()), (BTN_RIGHT, "resize"));
    assert_eq!((BTN_LEFT, BTN_RIGHT), (272, 273));
    assert!(bound[0].1.mod4 && bound[1].1.mod4);
}

#[test]
fn modifier_lists_mean_the_same_however_they_are_written() {
    let list = parse_modifiers("shift,ctrl", "super");
    assert!(list.shift && list.ctrl && !list.mod4 && !list.mod1);
    for other in [
        "ctrl,shift",
        "shift+ctrl",
        " Shift , CONTROL ",
        "ctrl+shift,ctrl",
        "shift,,nonsense,ctrl,none",
    ] {
        assert_eq!(parse_modifiers(other, "super"), list);
        assert_eq!(parse_modifiers(other, "alt"), list);
    }
    // The word counts alone only; among other parts it names nothing.
    assert!(parse_modifiers(" None ", "super").is_empty());
    assert!(parse_modifiers("none,none", "super").mod4);
}
