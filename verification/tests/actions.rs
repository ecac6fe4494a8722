use streamwm::actions::{dispatch_action, run_action};
use streamwm::bindings::default_bindings;
use streamwm::config::{Binding, Config};
use streamwm::connection::AppData;
use streamwm::events::{on_output_event, on_wm_event, OutputEvent, WmEvent};
use streamwm::wm::layout::compute_all;

/// A context with some outputs of 1000 by 1000, side by side, and some windows
/// on the first.
fn context(outputs: u64, windows: u64) -> AppData {
    let mut data = AppData::start(Config::default());
    for o in 0..outputs {
        on_wm_event(&mut data, WmEvent::Output { proxy: o, layer: None });
        let position = OutputEvent::Position {
            x: 1000 * o as i32,
            y: 0,
        };
        on_output_event(&mut data.state, o, position);
        let dimensions = OutputEvent::Dimensions {
            width: 1000,
            height: 1000,
        };
        on_output_event(&mut data.state, o, dimensions);
    }
    data.state.focused_output = Some(0);
    for w in 0..windows {
        on_wm_event(&mut data, WmEvent::Window { proxy: 100 + w });
    }
    data
}

#[test]
fn spawn_actions_hand_out_the_command() {
    let mut data = context(1, 0);
    let effect = run_action(&mut data, "spawn_terminal");
    assert!(!effect.manage);
    assert_eq!(effect.spawn.as_deref(), Some("alacritty"));
    data.config.launcher = "fuzzel".into();
    assert_eq!(
        run_action(&mut data, "spawn_launcher").spawn.as_deref(),
        Some("fuzzel")
    );
    assert_eq!(
        run_action(&mut data, "spawn:a:b").spawn.as_deref(),
        Some("a:b")
    );
    assert_eq!(run_action(&mut data, "spawn").spawn, None);
}

#[test]
fn close_queues_the_focused_window() {
    let mut data = context(1, 2);
    assert!(run_action(&mut data, "close").manage);
    assert_eq!(data.pending_close, vec![2]);
    let mut empty = context(1, 0);
    assert!(!run_action(&mut empty, "close").manage);
    assert!(empty.pending_close.is_empty());
}

#[test]
fn focus_cycles_through_tiled_windows_and_back() {
    let mut data = context(1, 3);
    data.state.windows[1].floating = true;
    assert_eq!(data.focused_window(), Some(3));
    assert!(run_action(&mut data, "focus_next").manage);
    assert_eq!(data.focused_window(), Some(1));
    run_action(&mut data, "focus_prev");
    assert_eq!(data.focused_window(), Some(3));
    run_action(&mut data, "focus_prev");
    assert_eq!(data.focused_window(), Some(1));
    // A floating window counts as the first.
    data.state.outputs[0].focused_window = Some(2);
    run_action(&mut data, "focus_next");
    assert_eq!(data.focused_window(), Some(3));
}

#[test]
fn tag_actions_parse_their_argument() {
    let mut data = context(2, 1);
    assert!(run_action(&mut data, "focus_tag:1").manage);
    assert_eq!(data.state.focused_output, Some(1));
    assert_eq!(data.pending_pointer_warp, Some(1));
    data.state.focused_output = Some(0);
    run_action(&mut data, "focus_tag:3");
    assert_eq!(data.pending_pointer_warp, None);
    assert_eq!(data.state.outputs[0].active_tag, 3);
    assert!(!run_action(&mut data, "focus_tag:x").manage);
    assert!(!run_action(&mut data, "focus_tag").manage);
    // Tags out of range change nothing but ask for a manage sequence.
    assert!(run_action(&mut data, "focus_tag:9").manage);
    assert_eq!(data.state.outputs[0].active_tag, 3);
    run_action(&mut data, "focus_tag:0");
    run_action(&mut data, "send_to_tag:+5");
    assert_eq!(data.state.windows[0].tag, 5);
    assert!(!run_action(&mut data, "send_to_tag:-1").manage);
}

#[test]
fn fullscreen_toggles() {
    let mut data = context(1, 1);
    run_action(&mut data, "fullscreen");
    assert!(data.state.windows[0].fullscreen);
    run_action(&mut data, "fullscreen");
    assert!(!data.state.windows[0].fullscreen);
}

#[test]
fn float_takes_over_the_cell_on_the_output_that_owns_the_tag() {
    // All nine tags are taken, so the tenth output shows one that is not its own.
    let mut data = context(10, 0);
    data.state.focused_output = Some(9);
    on_wm_event(&mut data, WmEvent::Window { proxy: 100 });
    assert_eq!(data.state.windows[0].tag, 0);
    assert_eq!(data.state.tag_owner(0), Some(0));
    let cells = compute_all(&data.state, &data.config);
    assert_eq!(cells.len(), 1);
    run_action(&mut data, "float");
    let w = &data.state.windows[0];
    assert!(w.floating);
    let gap = data.config.gap;
    assert_eq!(
        (w.float_x, w.float_y, w.float_w, w.float_h),
        (gap as i32, gap as i32, 1000 - 2 * gap, 1000 - 2 * gap)
    );
    let (id, g) = cells[0];
    assert_eq!(
        (w.id, w.float_x, w.float_y, w.float_w, w.float_h),
        (id, g.x, g.y, g.width, g.height)
    );
    // A window that no output shows has no cell to take over.
    let mut data = context(1, 1);
    data.state.windows[0].tag = 5;
    run_action(&mut data, "float");
    let w = &data.state.windows[0];
    assert_eq!((w.floating, w.float_x, w.float_w), (true, 0, 400));
}

#[test]
fn float_takes_over_the_tiling_cell() {
    let mut data = context(1, 2);
    // The second window has the focus, so it is the master.
    assert!(run_action(&mut data, "float").manage);
    let w = &data.state.windows[1];
    assert!(w.floating);
    assert_eq!(
        (w.float_x, w.float_y, w.float_w, w.float_h),
        (8, 8, 541, 984)
    );
    run_action(&mut data, "float");
    assert!(!data.state.windows[1].floating);
    assert_eq!(data.state.windows[1].float_w, 541);
}

#[test]
fn outputs_cycle_with_the_pointer() {
    let mut data = context(3, 0);
    assert!(run_action(&mut data, "focus_prev_output").manage);
    assert_eq!(data.state.focused_output, Some(2));
    assert_eq!(data.pending_pointer_warp, Some(2));
    run_action(&mut data, "focus_next_output");
    assert_eq!(data.state.focused_output, Some(0));
    let mut single = context(1, 0);
    assert!(!run_action(&mut single, "focus_next_output").manage);
}

#[test]
fn resize_steps_work_in_resize_mode_only_and_per_tag() {
    let mut data = context(1, 0);
    assert!(!run_action(&mut data, "resize_step_right").manage);
    assert_eq!(data.state.master_fraction(0), 550_000_000);
    run_action(&mut data, "enter_resize_mode");
    assert!(data.state.resize_mode);
    assert!(run_action(&mut data, "resize_step_right").manage);
    assert_eq!(data.state.master_fraction(0), 600_000_000);
    assert_eq!(data.state.master_fraction(1), 550_000_000);
    for _ in 0..20 {
        run_action(&mut data, "resize_step_left");
    }
    assert_eq!(data.state.master_fraction(0), 100_000_000);
    run_action(&mut data, "exit_resize_mode");
    assert!(!data.state.resize_mode);
}

#[test]
fn other_actions_do_nothing_but_quit_ends_the_loop() {
    let mut data = context(1, 1);
    for action in ["cycle_layout", "dance", "", ":"] {
        let effect = run_action(&mut data, action);
        assert!(!effect.manage && effect.spawn.is_none() && !data.quit);
    }
    run_action(&mut data, "quit");
    assert!(data.quit);
}

#[test]
fn triggered_bindings_run_their_action() {
    let mut data = context(1, 1);
    data.bindings.push((7, "fullscreen".into()));
    data.bindings.push((8, "quit".into()));
    assert!(!dispatch_action(&mut data, 9).manage);
    assert!(dispatch_action(&mut data, 7).manage);
    assert!(data.state.windows[0].fullscreen);
    dispatch_action(&mut data, 8);
    assert!(data.quit);
}

#[test]
fn tag_keys_focus_and_send_to_their_tags() {
    let mut data = context(1, 1);
    let all = default_bindings(&data.config);
    for tag in 0..9 {
        let (key, modifiers, action) = &all[17 + 2 * tag];
        assert_eq!((key.as_str(), modifiers.as_str()), ((tag + 1).to_string().as_str(), ""));
        run_action(&mut data, action);
        assert_eq!(data.state.outputs[0].active_tag, tag);
        // Bring the window along.
        let id = data.state.windows[0].id;
        data.state.windows[0].tag = tag;
        data.state.outputs[0].focused_window = Some(id);
        let next = (tag + 1) % 9;
        let (_, modifiers, action) = &all[18 + 2 * next];
        assert_eq!(modifiers, "super+shift");
        run_action(&mut data, action);
        assert_eq!(data.state.windows[0].tag, next);
    }
}

#[test]
fn configured_spawn_bindings_spawn_their_argument() {
    let mut data = context(1, 0);
    data.config.bindings.push(Binding {
        keysym: "F1".into(),
        modifiers: "".into(),
        action: "spawn".into(),
        arg: Some("sh -c 'a:b'".into()),
    });
    let all = default_bindings(&data.config);
    let effect = run_action(&mut data, &all[35].2);
    assert_eq!(effect.spawn.as_deref(), Some("sh -c 'a:b'"));
}
