use streamwm::config::{Config, Lid};

#[test]
fn color_parse() {
    let c = Config::default();
    assert_eq!(c.color("5294e2"), (0x52, 0x94, 0xe2));
    assert_eq!(c.color("#4c4c4c"), (0x4c, 0x4c, 0x4c));
    assert_eq!(c.color("not-hex"), (0, 0, 0));
}

#[test]
fn default_matches_serde_security_defaults() {
    assert!(!Config::default().allow_spawn);
}

#[test]
fn colors_are_read_as_any_hexadecimal_number_of_32_bits() {
    let c = Config::default();
    assert_eq!(c.color("##abcdef"), (0xab, 0xcd, 0xef));
    assert_eq!(c.color("ABCDEF"), (0xab, 0xcd, 0xef));
    assert_eq!(c.color("ff"), (0, 0, 0xff));
    assert_eq!(c.color("12345678"), (0x34, 0x56, 0x78));
    assert_eq!(c.color("+5294e2"), (0x52, 0x94, 0xe2));
    assert_eq!(c.color("123456789"), (0, 0, 0));
    assert_eq!(c.color(""), (0, 0, 0));
    assert_eq!(c.color("#"), (0, 0, 0));
}

#[test]
fn default_settings() {
    let c = Config::default();
    assert_eq!(c.modifier, "super");
    assert_eq!(c.terminal, "alacritty");
    assert_eq!(c.launcher, "alacritty");
    assert_eq!((c.gap, c.border_width), (8, 2));
    assert_eq!(c.border_color, "4c4c4c");
    assert_eq!(c.focused_border_color, "5294e2");
    assert!(c.focus_follows_mouse && c.use_ssd);
    assert!(c.bindings.is_empty() && c.floating_app_ids.is_empty());
    assert_eq!(c.master_fraction, 550_000_000);
    assert_eq!(c.resize_step, 50_000_000);
    assert_eq!(c.num_tags(), 9);
    assert!(!c.lid.enable);
}

#[test]
fn default_lid_is_off_and_empty() {
    let lid = Lid::default();
    assert!(!lid.enable);
    assert_eq!(lid.close_profile, "");
    assert_eq!(lid.internal_output, "");
}

#[test]
fn floating_app_ids_match_exactly() {
    let mut c = Config::default();
    assert!(!c.is_floating_app("gnome-calculator"));
    c.floating_app_ids.push("gnome-calculator".into());
    c.floating_app_ids.push("google-meet".into());
    assert!(c.is_floating_app("gnome-calculator"));
    assert!(c.is_floating_app("google-meet"));
    assert!(!c.is_floating_app("Google-meet"));
    assert!(!c.is_floating_app("gnome"));
}
