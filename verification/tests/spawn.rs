use streamwm::wm::spawn::{
    direct_command_args, launcher, shell_syntax_byte, spawn, spawn_command, terminal,
};

#[test]
fn simple_command_can_spawn_directly() {
    assert_eq!(
        direct_command_args("alacritty"),
        Some(vec!["alacritty".into()])
    );
    assert_eq!(
        direct_command_args("alacritty --class term"),
        Some(vec!["alacritty".into(), "--class".into(), "term".into()])
    );
}

#[test]
fn shell_syntax_uses_shell() {
    assert_eq!(direct_command_args("alacritty -e 'nvim notes.md'"), None);
    assert_eq!(direct_command_args("notify-send hi && alacritty"), None);
    assert_eq!(direct_command_args("FOO=bar alacritty"), None);
}

#[test]
fn shell_commands_run_in_the_shell_of_the_environment() {
    assert_eq!(
        spawn("a | b", &Some("/bin/zsh".into())),
        vec!["/bin/zsh".to_string(), "-c".to_string(), "a | b".to_string()]
    );
    assert_eq!(spawn("a | b", &None)[1..], ["-c".to_string(), "a | b".to_string()]);
    assert_eq!(
        terminal("  foot   -e top ", &None),
        vec!["foot".to_string(), "-e".to_string(), "top".to_string()]
    );
    assert_eq!(launcher("fuzzel", &None), vec!["fuzzel".to_string()]);
}

#[test]
fn every_byte_of_shell_syntax_is_known() {
    let syntax = b"'\"\\|&;<>()$`*?~{}[]=\n\r";
    for byte in 0..=255u8 {
        assert_eq!(shell_syntax_byte(byte), syntax.contains(&byte), "byte {byte}");
    }
}

#[test]
fn a_command_is_a_program_and_its_arguments() {
    assert_eq!(spawn_command(vec![]), None);
    assert_eq!(
        spawn_command(vec!["a".into(), "b".into(), "c".into()]),
        Some(("a".into(), vec!["b".into(), "c".into()]))
    );
}

#[test]
fn blank_commands_are_not_direct() {
    assert_eq!(direct_command_args("   "), None);
    assert_eq!(direct_command_args(""), None);
}
