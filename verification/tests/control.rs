use serde_json::Value;

use streamwm::config::Config;
use streamwm::connection::AppData;
use streamwm::control::{
    answer, apply_command, parse_command_value, reply_line, socket_dir, socket_file, Command,
    Reply,
};
use streamwm::events::{on_output_name, on_wm_event, WmEvent};

/// A JSON object with the given members.
fn object(members: &[(&str, Value)]) -> Value {
    Value::Object(
        members
            .iter()
            .map(|(key, value)| (key.to_string(), value.clone()))
            .collect(),
    )
}

/// A JSON string.
fn text(s: &str) -> Value {
    Value::String(s.to_string())
}

/// A JSON number.
fn number(n: u64) -> Value {
    Value::Number(n.into())
}

#[test]
fn parses_control_commands() {
    assert_eq!(
        parse_command_value(&object(&[("cmd", text("focus_tag")), ("tag", number(4))])),
        Some(Command::FocusTag(4, None))
    );
    assert_eq!(
        parse_command_value(&object(&[
            ("cmd", text("focus_tag")),
            ("tag", number(4)),
            ("output", text("eDP-1"))
        ])),
        Some(Command::FocusTag(4, Some("eDP-1".into())))
    );
    assert_eq!(
        parse_command_value(&object(&[("cmd", text("send_to_tag")), ("tag", number(8))])),
        Some(Command::SendToTag(8))
    );
    assert_eq!(
        parse_command_value(&object(&[
            ("cmd", text("focus_output")),
            ("output", text("eDP-1"))
        ])),
        Some(Command::FocusOutput("eDP-1".into()))
    );
    assert_eq!(
        parse_command_value(&object(&[
            ("cmd", text("focus_window")),
            ("app_id", text("foot"))
        ])),
        Some(Command::FocusWindow("foot".into(), None))
    );
    assert_eq!(
        parse_command_value(&object(&[
            ("cmd", text("focus_window")),
            ("app_id", text("foot")),
            ("title", text("Term"))
        ])),
        Some(Command::FocusWindow("foot".into(), Some("Term".into())))
    );
    assert_eq!(
        parse_command_value(&object(&[
            ("cmd", text("spawn")),
            ("command", text("foot"))
        ])),
        Some(Command::Spawn("foot".into()))
    );
    assert_eq!(
        parse_command_value(&object(&[("cmd", text("quit"))])),
        Some(Command::Quit)
    );
}

#[test]
fn rejects_missing_or_wrong_command_args() {
    assert_eq!(
        parse_command_value(&object(&[("cmd", text("focus_tag"))])),
        None
    );
    assert_eq!(
        parse_command_value(&object(&[("cmd", text("focus_tag")), ("tag", text("4"))])),
        None
    );
    assert_eq!(
        parse_command_value(&object(&[("cmd", text("focus_output"))])),
        None
    );
    assert_eq!(
        parse_command_value(&object(&[("cmd", text("unknown"))])),
        None
    );
}

#[test]
fn values_that_are_no_requests_are_no_commands() {
    assert_eq!(parse_command_value(&Value::Null), None);
    assert_eq!(parse_command_value(&text("quit")), None);
    assert_eq!(parse_command_value(&object(&[("cmd", number(1))])), None);
    // Only the lower 32 bits of a tag count.
    assert_eq!(
        parse_command_value(&object(&[
            ("cmd", text("send_to_tag")),
            ("tag", number(0x5_0000_0003))
        ])),
        Some(Command::SendToTag(3))
    );
}

/// The line that a client is answered.
fn reply_to(line: &str) -> Option<String> {
    reply_line(&answer(line))
}

#[test]
fn lines_are_answered() {
    assert!(matches!(answer("   "), Reply::Ignore));
    assert!(matches!(answer(" get_status\r"), Reply::Status));
    assert!(matches!(answer("{\"cmd\":\"subscribe\"}"), Reply::Subscribe));
    assert!(matches!(
        answer("{\"cmd\": \"send_to_tag\", \"tag\": 2}"),
        Reply::Accepted(Command::SendToTag(2))
    ));
    assert!(matches!(answer("get_statuses"), Reply::BadJson));
    assert_eq!(
        reply_to("{\"cmd\":\"quit\"}").as_deref(),
        Some("{\"status\":\"ok\"}")
    );
    assert_eq!(
        reply_to("{quit}").as_deref(),
        Some("{\"error\":\"bad json\"}")
    );
    assert_eq!(
        reply_to("{\"cmd\":\"dance\"}").as_deref(),
        Some("{\"error\":\"unknown command: dance\"}")
    );
    assert_eq!(
        reply_to("[]").as_deref(),
        Some("{\"error\":\"unknown command: \"}")
    );
    assert_eq!(reply_to("get_status"), None);
}

/// A context with two named outputs and a window on each.
fn two_outputs() -> AppData {
    let mut data = AppData::start(Config::default());
    for (o, name) in ["eDP-1", "DP-1"].iter().enumerate() {
        on_wm_event(
            &mut data,
            WmEvent::Output {
                proxy: 10 + o as u64,
                layer: None,
            },
        );
        data.state.outputs[o].wl_global = Some(o as u32);
        on_output_name(&mut data.state, o as u32, name.to_string());
        data.state.focused_output = Some(o);
        on_wm_event(
            &mut data,
            WmEvent::Window {
                proxy: 20 + o as u64,
            },
        );
    }
    data.state.focused_output = Some(0);
    data
}

#[test]
fn commands_focus_tags_on_named_outputs() {
    let mut data = two_outputs();
    let effect = apply_command(&mut data, Command::FocusTag(5, Some("DP-1".into())));
    assert!(effect.manage && effect.spawn.is_none());
    assert_eq!(data.state.outputs[1].active_tag, 5);
    assert_eq!(data.state.focused_output, Some(0));
    apply_command(&mut data, Command::FocusTag(6, None));
    assert_eq!(data.state.outputs[0].active_tag, 6);
    apply_command(&mut data, Command::FocusTag(7, Some("nope".into())));
    assert_eq!(data.state.tag_owner(7), None);
}

#[test]
fn commands_send_windows_and_focus_outputs() {
    let mut data = two_outputs();
    apply_command(&mut data, Command::SendToTag(4));
    assert_eq!(data.state.windows[0].tag, 4);
    apply_command(&mut data, Command::FocusOutput("DP-1".into()));
    assert_eq!(data.state.focused_output, Some(1));
    apply_command(&mut data, Command::FocusOutput("HDMI-1".into()));
    assert_eq!(data.state.focused_output, Some(1));
}

#[test]
fn windows_are_focused_by_app_id_and_title() {
    let mut data = two_outputs();
    data.state.windows[0].app_id = Some("foot".into());
    data.state.windows[0].title = Some("A".into());
    data.state.windows[1].app_id = Some("foot".into());
    data.state.windows[1].title = Some("B".into());
    apply_command(
        &mut data,
        Command::FocusWindow("foot".into(), Some("B".into())),
    );
    assert_eq!(data.state.focused_output, Some(1));
    assert_eq!(
        data.state.outputs[1].focused_window,
        Some(data.state.windows[1].id)
    );
    apply_command(&mut data, Command::FocusWindow("foot".into(), None));
    assert_eq!(data.state.focused_output, Some(0));
    apply_command(
        &mut data,
        Command::FocusWindow("foot".into(), Some("C".into())),
    );
    assert_eq!(data.state.focused_output, Some(0));
}

#[test]
fn the_socket_spawns_only_where_that_is_allowed() {
    let mut data = two_outputs();
    let effect = apply_command(&mut data, Command::Spawn("foot".into()));
    assert!(effect.manage && effect.spawn.is_none());
    data.config.allow_spawn = true;
    let effect = apply_command(&mut data, Command::Spawn("foot".into()));
    assert_eq!(effect.spawn.as_deref(), Some("foot"));
    assert!(!data.quit);
    assert!(apply_command(&mut data, Command::Refresh).manage);
    apply_command(&mut data, Command::Quit);
    assert!(data.quit);
}

#[test]
fn the_socket_is_named_after_the_display() {
    assert_eq!(
        socket_file(&Some("wayland-1".into())),
        "streamwm-wayland-1.sock"
    );
    assert_eq!(socket_file(&None), "streamwm-wayland-0.sock");
    assert_eq!(socket_dir(&Some("/run/user/1000".into())), "/run/user/1000");
    assert_eq!(socket_dir(&None), "/tmp");
}
