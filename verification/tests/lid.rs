use streamwm::config::Lid;
use streamwm::lid::{
    apply_closed_profile, apply_current_profile, clamshell_available, connector_is_connected,
    display_topology, drm_output_name, lid_is_closed, next_try, profile_candidates,
    recover_open_outputs, should_recover_undocked, switch_commands, Commands, DisplayTopology,
    Switch,
};

#[test]
fn extracts_output_name_from_drm_connector() {
    assert_eq!(drm_output_name("card1-eDP-1"), Some("eDP-1"));
    assert_eq!(drm_output_name("card1-DP-2"), Some("DP-2"));
    assert_eq!(drm_output_name("renderD128"), None);
}

#[test]
fn parses_kanshi_profile_fallbacks() {
    assert_eq!(
        profile_candidates("office, home ,,"),
        vec!["office", "home"]
    );
}

#[test]
fn recovery_requires_an_open_lid_and_only_the_internal_output() {
    let undocked = DisplayTopology {
        internal_connected: true,
        external_connected: false,
    };
    let docked = DisplayTopology {
        internal_connected: true,
        external_connected: true,
    };

    assert!(should_recover_undocked(false, undocked, true, false, false));
    assert!(should_recover_undocked(false, undocked, false, true, false));
    assert!(!should_recover_undocked(true, undocked, true, true, true));
    assert!(!should_recover_undocked(false, docked, true, true, true));
}

#[test]
fn clamshell_requires_an_external_output() {
    let external = DisplayTopology {
        internal_connected: true,
        external_connected: true,
    };
    let internal_only = DisplayTopology {
        internal_connected: true,
        external_connected: false,
    };

    assert!(clamshell_available(external));
    assert!(!clamshell_available(internal_only));
}

/// A connector with its status.
fn entry(name: &str, status: Option<&str>) -> (String, Option<String>) {
    (name.to_string(), status.map(|s| s.to_string()))
}

#[test]
fn topology_tells_the_internal_panel_from_other_outputs() {
    let entries = vec![
        entry("card1", None),
        entry("card1-eDP-1", Some("connected\n")),
        entry("card1-DP-1", Some("disconnected\n")),
        entry("renderD128", Some("connected")),
        entry("card1-HDMI-A-1", None),
    ];
    assert_eq!(
        display_topology(&entries, "eDP-1"),
        DisplayTopology {
            internal_connected: true,
            external_connected: false,
        }
    );
    assert_eq!(
        display_topology(&entries, "eDP-2"),
        DisplayTopology {
            internal_connected: false,
            external_connected: true,
        }
    );
    assert_eq!(
        display_topology(&vec![], "eDP-1"),
        DisplayTopology {
            internal_connected: false,
            external_connected: false,
        }
    );
    assert!(connector_is_connected(&Some(" connected ".into())));
    assert!(!connector_is_connected(&Some("Connected".into())));
}

#[test]
fn lid_is_open_unless_a_state_file_says_otherwise() {
    let closed = Some("state:      closed\n".to_string());
    let open = Some("state:      OPEN\n".to_string());
    let odd = Some("state:      unknown\n".to_string());
    assert!(lid_is_closed(&vec![closed.clone(), open.clone()]));
    assert!(!lid_is_closed(&vec![open.clone(), closed.clone()]));
    assert!(lid_is_closed(&vec![None, closed.clone()]));
    assert!(lid_is_closed(&vec![odd.clone(), closed]));
    assert!(!lid_is_closed(&vec![odd, None]));
    assert!(!lid_is_closed(&vec![]));
}

#[test]
fn closed_lid_without_external_output_keeps_the_panel_on() {
    let none = DisplayTopology {
        internal_connected: false,
        external_connected: false,
    };
    let internal = DisplayTopology {
        internal_connected: true,
        external_connected: false,
    };
    let external = DisplayTopology {
        internal_connected: false,
        external_connected: true,
    };
    assert_eq!(apply_closed_profile(internal), Switch::Undocked);
    assert_eq!(apply_closed_profile(none), Switch::Undocked);
    assert_eq!(apply_closed_profile(external), Switch::Close);
    assert_eq!(recover_open_outputs(internal), Switch::Undocked);
    assert_eq!(recover_open_outputs(none), Switch::Open);
    assert_eq!(recover_open_outputs(external), Switch::Open);
    assert_eq!(apply_current_profile(true, external), Switch::Close);
    assert_eq!(apply_current_profile(false, external), Switch::Open);
    assert_eq!(apply_current_profile(false, internal), Switch::Undocked);
}

#[test]
fn switches_are_commands() {
    let config = Lid {
        enable: true,
        close_profile: "clamshell".into(),
        open_profile: "office, home".into(),
        undocked_profile: "".into(),
        internal_output: "eDP-1".into(),
    };
    let open = switch_commands(&config, Switch::Open);
    assert!(open.first.is_none());
    assert_eq!(
        open.tries,
        vec![
            vec!["kanshictl", "switch", "office"],
            vec!["kanshictl", "switch", "home"]
        ]
    );
    let undocked = switch_commands(&config, Switch::Undocked);
    assert_eq!(
        undocked.first.unwrap(),
        vec!["wlr-randr", "--output", "eDP-1", "--on", "--preferred"]
    );
    assert!(undocked.tries.is_empty());
    let close = switch_commands(&config, Switch::Close);
    assert!(close.first.is_none());
    assert_eq!(close.tries, vec![vec!["kanshictl", "switch", "clamshell"]]);
}

#[test]
fn profiles_are_tried_until_one_succeeds() {
    /// Which commands are run, where `outcomes` says which succeed.
    fn run(outcomes: &[bool]) -> Vec<usize> {
        let commands = Commands {
            first: None,
            tries: outcomes.iter().map(|_| vec!["kanshictl".into()]).collect(),
        };
        let mut made = Vec::new();
        let mut succeeded = false;
        while let Some(i) = next_try(&commands, made.len(), succeeded) {
            succeeded = outcomes[i];
            made.push(i);
        }
        made
    }
    assert_eq!(run(&[]), Vec::<usize>::new());
    assert_eq!(run(&[true, true]), vec![0]);
    assert_eq!(run(&[false, true, true]), vec![0, 1]);
    assert_eq!(run(&[false, false]), vec![0, 1]);
}
