use streamwm::actions::run_action;
use streamwm::config::Config;
use streamwm::connection::{AppData, Edges, OpKind, PointerOp};
use streamwm::events::{on_output_event, on_wm_event, OutputEvent, WmEvent};
use streamwm::request::Request;
use streamwm::wm::layout::all_can_be_tiled;
use streamwm::wm::manage::{can_warp, on_manage_start};
use streamwm::wm::render::on_render_start;

/// A context with two outputs of 1016 by 516, a seat, and two windows on the
/// first output.
fn session() -> AppData {
    let mut config = Config::default();
    config.master_fraction = 500_000_000;
    let mut data = AppData::start(config);
    for o in 0..2u64 {
        on_wm_event(
            &mut data,
            WmEvent::Output {
                proxy: 10 + o,
                layer: Some(50 + o),
            },
        );
        let position = OutputEvent::Position {
            x: 1016 * o as i32,
            y: 0,
        };
        on_output_event(&mut data.state, 10 + o, position);
        let dimensions = OutputEvent::Dimensions {
            width: 1016,
            height: 516,
        };
        on_output_event(&mut data.state, 10 + o, dimensions);
    }
    on_wm_event(
        &mut data,
        WmEvent::Seat {
            proxy: 70,
            layer: None,
        },
    );
    on_wm_event(&mut data, WmEvent::Window { proxy: 1 });
    on_wm_event(&mut data, WmEvent::Window { proxy: 2 });
    data.bindings.push((80, "close".into()));
    data.bindings.push((81, "resize_step_left".into()));
    data.pointer_bindings.push((90, "move".into()));
    data
}

#[test]
fn manage_sequence_in_order() {
    let mut data = session();
    data.pending_close.push(1);
    data.pending_close.push(99);
    data.pending_pointer_warp = Some(1);
    data.state.windows[1].fullscreen = true;
    assert!(all_can_be_tiled(&data.state, &data.config) && can_warp(&data));
    let requests = on_manage_start(&mut data);
    let names: Vec<String> = requests
        .iter()
        .map(|r| format!("{r:?}").split_whitespace().next().unwrap().to_string())
        .collect();
    assert_eq!(
        names,
        vec![
            "Hide",
            "Hide",
            "Close",
            "SetCapabilities",
            "UseSsd",
            "SetCapabilities",
            "UseSsd",
            "Fullscreen",
            "InformMaximized",
            "InformFullscreen",
            "SetDefaultLayer",
            "FocusWindow",
            "ProposeDimensions",
            "ProposeDimensions",
            "EnableBinding",
            "DisableBinding",
            "EnablePointerBinding",
            "WarpPointer",
            "ManageFinish",
        ]
    );
    assert!(requests.contains(&Request::Fullscreen {
        window: 2,
        output: 10
    }));
    assert!(requests.contains(&Request::FocusWindow {
        seat: 70,
        window: 2
    }));
    // The focused window is the master.
    assert!(requests.contains(&Request::ProposeDimensions {
        window: 2,
        width: 500,
        height: 500
    }));
    assert!(requests.contains(&Request::ProposeDimensions {
        window: 1,
        width: 492,
        height: 500
    }));
    assert!(requests.contains(&Request::WarpPointer {
        seat: 70,
        x: 1016 + 508,
        y: 258
    }));
    assert!(data.pending_close.is_empty() && data.pending_pointer_warp.is_none());
    assert!(data.layer_default_set);
}

#[test]
fn what_was_sent_is_not_sent_again() {
    let mut data = session();
    on_manage_start(&mut data);
    let again = on_manage_start(&mut data);
    assert!(!again.iter().any(|r| matches!(
        r,
        Request::ProposeDimensions { .. }
            | Request::SetCapabilities { .. }
            | Request::UseSsd { .. }
            | Request::SetDefaultLayer { .. }
    )));
    data.config.use_ssd = false;
    run_action(&mut data, "fullscreen");
    on_manage_start(&mut data);
    run_action(&mut data, "fullscreen");
    let back = on_manage_start(&mut data);
    assert!(back.contains(&Request::ExitFullscreen { window: 2 }));
    assert!(back.contains(&Request::InformUnmaximized { window: 2 }));
    assert!(back.contains(&Request::InformNotFullscreen { window: 2 }));
}

#[test]
fn resize_keys_are_enabled_in_resize_mode() {
    let mut data = session();
    run_action(&mut data, "enter_resize_mode");
    let requests = on_manage_start(&mut data);
    assert!(requests.contains(&Request::EnableBinding { binding: 81 }));
    run_action(&mut data, "exit_resize_mode");
    let requests = on_manage_start(&mut data);
    assert!(requests.contains(&Request::DisableBinding { binding: 81 }));
    assert!(requests.contains(&Request::EnableBinding { binding: 80 }));
}

#[test]
fn pointer_operations_start_and_end_in_manage_sequences() {
    let mut data = session();
    data.pending_op = Some(PointerOp {
        window: 1,
        kind: OpKind::Move,
        start_x: 0,
        start_y: 0,
        start_float_x: 0,
        start_float_y: 0,
        start_w: 0,
        start_h: 0,
        edges: Edges {
            top: false,
            bottom: false,
            left: false,
            right: false,
        },
        seat: 70,
    });
    let requests = on_manage_start(&mut data);
    assert_eq!(requests[0], Request::OpStartPointer { seat: 70 });
    assert!(data.pointer_op.is_some() && data.pending_op.is_none());
    data.op_end_requested = true;
    let requests = on_manage_start(&mut data);
    assert_eq!(requests[0], Request::OpEnd { seat: 70 });
    assert!(data.pointer_op.is_none() && !data.op_end_requested);
}

#[test]
fn focus_is_cleared_where_nothing_can_have_it() {
    let mut data = session();
    data.state.focused_output = Some(1);
    let requests = on_manage_start(&mut data);
    assert!(requests.contains(&Request::ClearFocus { seat: 70 }));
}

#[test]
fn floating_windows_are_proposed_their_size() {
    let mut data = session();
    data.state.windows[0].floating = true;
    let requests = on_manage_start(&mut data);
    assert!(requests.contains(&Request::ProposeDimensions {
        window: 1,
        width: 400,
        height: 300
    }));
}

#[test]
fn render_sequence_shows_visible_windows_with_floating_ones_on_top() {
    let mut data = session();
    data.state.windows[0].floating = true;
    data.state.windows[0].float_x = 30;
    data.state.windows[0].float_y = 40;
    on_wm_event(&mut data, WmEvent::Window { proxy: 3 });
    data.state.windows[2].tag = 6;
    data.state.outputs[0].focused_window = Some(1);
    let requests = on_render_start(&mut data);
    let edges = Edges {
        top: true,
        bottom: true,
        left: true,
        right: true,
    };
    assert_eq!(
        requests,
        vec![
            Request::GetNode { window: 1 },
            Request::GetNode { window: 2 },
            Request::SetPosition {
                window: 2,
                x: 8,
                y: 8
            },
            Request::PlaceTop { window: 2 },
            Request::SetBorders {
                window: 2,
                edges,
                width: 2,
                red: 0x4c4c_4c4c,
                green: 0x4c4c_4c4c,
                blue: 0x4c4c_4c4c,
                alpha: 0xffff_ffff
            },
            Request::Show { window: 2 },
            Request::Hide { window: 3 },
            Request::SetPosition {
                window: 1,
                x: 30,
                y: 40
            },
            Request::PlaceTop { window: 1 },
            Request::SetBorders {
                window: 1,
                edges,
                width: 2,
                red: 0x5252_5252,
                green: 0x9494_9494,
                blue: 0xe2e2_e2e2,
                alpha: 0xffff_ffff
            },
            Request::Show { window: 1 },
            Request::RenderFinish,
        ]
    );
    // Nodes are created once.
    let again = on_render_start(&mut data);
    assert!(!again.iter().any(|r| matches!(r, Request::GetNode { .. })));
}

#[test]
fn warps_beyond_32_bits_are_told() {
    let mut data = session();
    data.pending_pointer_warp = Some(1);
    data.state.outputs[1].x = i32::MAX;
    assert!(!can_warp(&data));
    data.pending_pointer_warp = Some(5);
    assert!(can_warp(&data));
    let requests = on_manage_start(&mut data);
    assert!(!requests
        .iter()
        .any(|r| matches!(r, Request::WarpPointer { .. })));
}
