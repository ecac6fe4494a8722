use streamwm::config::Config;
use streamwm::connection::AppData;
use streamwm::events::{on_wm_event, WmEvent};
use streamwm::state::State;
use streamwm::status::build_snapshot;

#[test]
fn build_snapshot_single_pass_occupied_mask() {
    let mut state = State::new(550_000_000);
    state.tags[0].output = Some(0);
    state.tags[1].output = Some(0);

    let snap = build_snapshot(&state, false);
    assert_eq!(snap.outputs.len(), 0);
}

#[test]
fn snapshot_shows_masks_and_windows_of_each_output() {
    let mut data = AppData::start(Config::default());
    for proxy in [10, 11] {
        on_wm_event(&mut data, WmEvent::Output { proxy, layer: None });
    }
    data.state.focused_output = Some(1);
    on_wm_event(&mut data, WmEvent::Window { proxy: 20 });
    on_wm_event(&mut data, WmEvent::Window { proxy: 21 });
    data.state.windows[1].tag = 4;
    data.state.windows[1].app_id = Some("foot".into());
    data.state.tags[4].output = Some(1);
    data.state.tags[8].output = Some(1);
    data.state.tags[4].label = Some("mail".into());
    data.state.outputs[0].name = Some("eDP-1".into());

    let snap = build_snapshot(&data.state, true);
    assert_eq!(snap.focused_output.as_deref(), Some("output-1"));
    assert_eq!(snap.outputs.len(), 2);
    let first = &snap.outputs[0];
    assert_eq!(first.name, "eDP-1");
    assert!(!first.focused);
    assert_eq!(
        (first.active_mask, first.owned_mask, first.occupied_mask, first.urgent_mask),
        (1, 1, 0, 0)
    );
    assert!(first.windows.is_empty());
    assert_eq!(first.focused_window, None);
    let second = &snap.outputs[1];
    assert!(second.focused);
    assert_eq!(
        (second.active_mask, second.owned_mask, second.occupied_mask),
        (0b10, 0b1_0001_0010, 0b1_0010)
    );
    assert_eq!(second.tags.len(), 9);
    assert_eq!(second.tags[4].id, 4);
    assert_eq!(second.tags[4].label.as_deref(), Some("mail"));
    assert_eq!(second.tags[5].label, None);
    assert_eq!(second.windows.len(), 2);
    assert_eq!(second.windows[1].tag, 4);
    assert_eq!(second.windows[1].app_id.as_deref(), Some("foot"));
    assert_eq!(second.focused_window, Some(data.state.windows[1].id));
}

#[test]
fn windows_on_unassigned_tags_are_not_listed() {
    let mut data = AppData::start(Config::default());
    on_wm_event(&mut data, WmEvent::Window { proxy: 20 });
    assert_eq!(data.state.windows[0].tag, 0);
    let snap = build_snapshot(&data.state, false);
    assert_eq!(snap.focused_output, None);
    on_wm_event(&mut data, WmEvent::Output { proxy: 1, layer: None });
    data.state.windows[0].tag = 7;
    let snap = build_snapshot(&data.state, false);
    assert!(snap.outputs[0].windows.is_empty());
}
