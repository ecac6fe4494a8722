use streamwm::config::Config;
use streamwm::connection::AppData;
use streamwm::events::{
    find_output, on_non_exclusive_area, on_output_event, on_output_name, on_window_event,
    on_wm_event, try_non_exclusive_area, try_output_event, OutputEvent, WindowEvent, WmEvent,
};
use streamwm::pointer::{can_apply_delta, start_pointer_op};
use streamwm::seats::{can_find_output_at, on_seat_event, SeatEvent};

/// A context with some outputs of 1000 by 800, side by side.
fn outputs(n: u64) -> AppData {
    let mut data = AppData::start(Config::default());
    for o in 0..n {
        on_wm_event(
            &mut data,
            WmEvent::Output {
                proxy: 10 + o,
                layer: Some(50 + o),
            },
        );
        let position = OutputEvent::Position {
            x: 1000 * o as i32,
            y: 0,
        };
        on_output_event(&mut data.state, 10 + o, position);
        let dimensions = OutputEvent::Dimensions {
            width: 1000,
            height: 800,
        };
        on_output_event(&mut data.state, 10 + o, dimensions);
    }
    data
}

#[test]
fn a_master_fraction_out_of_range_is_brought_into_it() {
    let mut config = Config::default();
    config.master_fraction = 2_000_000_000;
    assert_eq!(AppData::start(config).state.default_master_fraction, 900_000_000);
    let mut config = Config::default();
    config.master_fraction = -5;
    assert_eq!(AppData::start(config).state.master_fraction(3), 100_000_000);
}

#[test]
fn outputs_appear_with_a_tag_and_a_layer() {
    let data = outputs(2);
    assert_eq!(data.state.focused_output, Some(0));
    assert_eq!(data.state.outputs[1].active_tag, 1);
    assert_eq!(data.state.tag_owner(1), Some(1));
    assert_eq!(data.state.outputs[1].layer, Some(51));
    assert_eq!(find_output(&data.state, 11), Some(1));
    assert_eq!(find_output(&data.state, 12), None);
}

#[test]
fn a_tenth_output_gets_no_tag() {
    let data = outputs(10);
    assert_eq!(data.state.outputs.len(), 10);
    assert!(data.state.tags.iter().all(|t| t.output != Some(9)));
}

#[test]
fn windows_appear_focused_on_the_active_output() {
    let mut data = outputs(2);
    data.state.focused_output = Some(1);
    on_wm_event(&mut data, WmEvent::Window { proxy: 1 });
    on_wm_event(&mut data, WmEvent::Window { proxy: 2 });
    assert_eq!(data.state.windows[0].tag, 1);
    assert_eq!(
        (data.state.windows[0].id, data.state.windows[1].id),
        (1, 2)
    );
    assert_eq!(data.state.outputs[1].focused_window, Some(2));
    assert_eq!(data.state.outputs[0].focused_window, None);
}

#[test]
fn the_loop_ends_when_the_compositor_says_so() {
    let mut data = outputs(1);
    on_wm_event(&mut data, WmEvent::Finished);
    assert!(data.quit);
    let mut data = outputs(1);
    on_wm_event(&mut data, WmEvent::Unavailable);
    assert!(data.quit);
}

#[test]
fn window_events_change_the_window_they_are_for() {
    let mut data = outputs(1);
    on_wm_event(&mut data, WmEvent::Window { proxy: 1 });
    on_wm_event(&mut data, WmEvent::Window { proxy: 2 });
    let title = WindowEvent::Title {
        title: Some("t".into()),
    };
    on_window_event(&mut data, 2, title);
    assert_eq!(data.state.windows[1].title.as_deref(), Some("t"));
    assert_eq!(data.state.windows[0].title, None);
    let dimensions = WindowEvent::Dimensions {
        width: -1,
        height: 20,
    };
    on_window_event(&mut data, 2, dimensions);
    assert_eq!(
        (data.state.windows[1].width, data.state.windows[1].height),
        (u32::MAX, 20)
    );
    on_window_event(&mut data, 1, WindowEvent::Closed);
    on_window_event(&mut data, 9, WindowEvent::Closed);
    assert_eq!(data.state.windows.len(), 1);
    assert_eq!(data.state.windows[0].proxy, 2);
}

#[test]
fn windows_that_are_never_tiled_launch_floating_and_centered() {
    let mut data = outputs(1);
    data.config.floating_app_ids.push("calc".into());
    on_wm_event(&mut data, WmEvent::Window { proxy: 1 });
    let app_id = WindowEvent::AppId {
        app_id: Some("foot".into()),
    };
    on_window_event(&mut data, 1, app_id);
    assert!(!data.state.windows[0].floating);
    let app_id = WindowEvent::AppId {
        app_id: Some("calc".into()),
    };
    on_window_event(&mut data, 1, app_id);
    let w = &data.state.windows[0];
    assert!(w.floating);
    assert_eq!(w.app_id.as_deref(), Some("calc"));
    assert_eq!((w.float_x, w.float_y), ((1000 - 400) / 2, (800 - 300) / 2));
    // It stays where it was put from then on.
    data.state.windows[0].float_x = 3;
    let app_id = WindowEvent::AppId {
        app_id: Some("calc".into()),
    };
    on_window_event(&mut data, 1, app_id);
    assert_eq!(data.state.windows[0].float_x, 3);
    on_window_event(&mut data, 1, WindowEvent::AppId { app_id: None });
    assert_eq!(data.state.windows[0].app_id, None);
    assert!(data.state.windows[0].floating);
}

#[test]
fn panels_take_from_the_usable_area() {
    let mut data = outputs(2);
    on_non_exclusive_area(&mut data.state, 51, 1000, 30, 1000, 770);
    assert_eq!(data.state.outputs[1].usable(), (1000, 30, 1000, 770));
    assert_eq!(data.state.outputs[0].usable(), (0, 0, 1000, 800));
    on_non_exclusive_area(&mut data.state, 51, 0, 0, -5, -5);
    assert_eq!(data.state.outputs[1].usable_width, 0);
    // A new position moves the usable area only while it is not known.
    on_output_event(&mut data.state, 10, OutputEvent::Position { x: 7, y: 8 });
    assert_eq!(data.state.outputs[0].usable(), (0, 0, 1000, 800));
    assert_eq!((data.state.outputs[0].x, data.state.outputs[0].y), (7, 8));
}

#[test]
fn outputs_are_named_through_their_registry_id() {
    let mut data = outputs(2);
    let event = OutputEvent::WlOutput {
        name: 33,
        bound: Some(5),
    };
    on_output_event(&mut data.state, 11, event);
    assert_eq!(data.state.outputs[1].wl_global, Some(33));
    assert_eq!(data.state.outputs[1].wl_output, Some(5));
    on_output_name(&mut data.state, 33, "DP-1".into());
    on_output_name(&mut data.state, 34, "DP-2".into());
    assert_eq!(data.state.find_output_by_name("DP-1"), Some(1));
    assert_eq!(data.state.find_output_by_name("DP-2"), None);
}

#[test]
fn a_removed_output_is_gone() {
    let mut data = outputs(2);
    on_output_event(&mut data.state, 10, OutputEvent::Removed);
    assert_eq!(data.state.outputs.len(), 1);
    assert_eq!(data.state.tag_owner(0), Some(0));
    assert_eq!(data.state.tag_owner(1), Some(0));
}

/// Where the first window floats.
fn float_place(data: &AppData) -> (i32, i32) {
    (data.state.windows[0].float_x, data.state.windows[0].float_y)
}

/// A context with two outputs and a window of 400 by 300 that floats at the far
/// corner of the first.
fn floating() -> AppData {
    let mut data = outputs(2);
    on_wm_event(&mut data, WmEvent::Window { proxy: 1 });
    data.state.windows[0].floating = true;
    data.state.windows[0].float_x = 600;
    data.state.windows[0].float_y = 500;
    data
}

#[test]
fn floating_windows_make_way_for_panels() {
    let mut data = floating();
    on_non_exclusive_area(&mut data.state, 50, 0, 0, 1000, 770);
    assert_eq!(float_place(&data), (600, 470));
    data.state.windows[0].float_x = 0;
    data.state.windows[0].float_y = 0;
    on_non_exclusive_area(&mut data.state, 50, 40, 30, 960, 770);
    assert_eq!(float_place(&data), (40, 30));
    // A window that is too large starts at the origin.
    on_non_exclusive_area(&mut data.state, 50, 10, 20, 300, 200);
    assert_eq!(float_place(&data), (10, 20));
    // The panels of another output do not matter, and an unknown area is all of
    // the output.
    on_non_exclusive_area(&mut data.state, 51, 1500, 0, 500, 800);
    on_non_exclusive_area(&mut data.state, 50, 0, 0, 0, 0);
    assert_eq!(float_place(&data), (10, 20));
    // Tiled windows have no place to be kept.
    data.state.windows[0].floating = false;
    on_non_exclusive_area(&mut data.state, 50, 500, 500, 500, 300);
    assert_eq!(float_place(&data), (10, 20));
}

#[test]
fn floating_windows_follow_the_geometry_of_their_output() {
    let mut data = floating();
    // While the usable area is not known, it follows position and size.
    on_non_exclusive_area(&mut data.state, 50, 0, 0, 0, 0);
    let dimensions = OutputEvent::Dimensions {
        width: 800,
        height: 700,
    };
    on_output_event(&mut data.state, 10, dimensions);
    assert_eq!(float_place(&data), (400, 400));
    on_non_exclusive_area(&mut data.state, 50, 0, 0, 0, 0);
    on_output_event(&mut data.state, 10, OutputEvent::Position { x: 900, y: 30 });
    assert_eq!(float_place(&data), (900, 400));
    let dimensions = OutputEvent::Dimensions {
        width: 800,
        height: 700,
    };
    on_output_event(&mut data.state, 10, dimensions);
    assert_eq!(float_place(&data), (900, 400));
    // A name changes nothing about where windows are.
    data.state.windows[0].float_x = 0;
    let name = OutputEvent::WlOutput {
        name: 33,
        bound: None,
    };
    on_output_event(&mut data.state, 10, name);
    assert_eq!(float_place(&data), (0, 400));
    // A position brings it back, also where the usable area stays.
    on_output_event(&mut data.state, 10, OutputEvent::Position { x: 0, y: 0 });
    assert_eq!(float_place(&data), (900, 400));
    // When the output goes, the window moves to the one that takes its tags.
    on_output_event(&mut data.state, 10, OutputEvent::Removed);
    assert_eq!(float_place(&data), (1000, 400));
}

#[test]
fn events_say_whether_floating_windows_could_be_kept_inside() {
    let far = i32::MAX - 10;
    let mut data = floating();
    assert!(try_non_exclusive_area(&mut data.state, 50, 0, 0, 1000, 770));
    assert_eq!(float_place(&data), (600, 470));
    assert!(try_non_exclusive_area(&mut data.state, 77, far, far, 1000, 770));
    assert!(!try_non_exclusive_area(&mut data.state, 50, far, 0, 1000, 770));
    assert_eq!(float_place(&data), (600, 470));
    assert_eq!(data.state.outputs[0].usable(), (far, 0, 1000, 770));
    let position = OutputEvent::Position { x: 0, y: 0 };
    assert!(!try_output_event(&mut data.state, 10, position));
    let name = OutputEvent::WlOutput {
        name: 33,
        bound: None,
    };
    assert!(try_output_event(&mut data.state, 10, name));
    assert!(try_output_event(&mut data.state, 12, OutputEvent::Removed));
    assert!(try_output_event(&mut data.state, 10, OutputEvent::Removed));
    assert_eq!(data.state.outputs.len(), 1);
    assert_eq!(float_place(&data), (1000, 470));
    // Without floating windows there is nothing to keep inside.
    data.state.windows[0].floating = false;
    assert!(try_non_exclusive_area(&mut data.state, 51, far, far, 1000, 770));
    assert!(try_output_event(&mut data.state, 11, OutputEvent::Removed));
}

#[test]
fn identifiers_are_not_used_again() {
    let mut data = outputs(1);
    assert_eq!(data.state.next_window_id, 1);
    on_wm_event(&mut data, WmEvent::Window { proxy: 1 });
    on_wm_event(&mut data, WmEvent::Window { proxy: 2 });
    assert_eq!((data.state.windows[0].id, data.state.windows[1].id), (1, 2));
    on_window_event(&mut data, 1, WindowEvent::Closed);
    on_window_event(&mut data, 2, WindowEvent::Closed);
    on_output_event(&mut data.state, 10, OutputEvent::Removed);
    assert_eq!(data.state.next_window_id, 3);
    on_wm_event(&mut data, WmEvent::Window { proxy: 1 });
    let w = &data.state.windows[0];
    assert_eq!((w.id, w.proxy, w.tag), (3, 1, 0));
    assert!(!w.floating && !w.fullscreen && !w.node && w.app_id.is_none());
    assert_eq!((w.float_w, w.float_h), (400, 300));
    assert_eq!(data.state.next_window_id, 4);
}

/// A context with two outputs, a seat, and a window on each output.
fn desk() -> AppData {
    let mut data = outputs(2);
    on_wm_event(
        &mut data,
        WmEvent::Seat {
            proxy: 70,
            layer: Some(71),
        },
    );
    on_wm_event(&mut data, WmEvent::Window { proxy: 1 });
    data.state.focused_output = Some(1);
    on_wm_event(&mut data, WmEvent::Window { proxy: 2 });
    data.state.focused_output = Some(0);
    data
}

#[test]
fn focus_follows_the_pointer_into_windows() {
    let mut data = desk();
    assert_eq!(data.state.seats[0].layer, Some(71));
    on_seat_event(&mut data, 70, SeatEvent::PointerEnter { window: 2 });
    assert_eq!(data.state.seats[0].pointer_window, Some(2));
    assert_eq!(data.state.focused_output, Some(1));
    on_seat_event(&mut data, 70, SeatEvent::PointerLeave);
    assert_eq!(data.state.seats[0].pointer_window, None);

    let mut data = desk();
    data.config.focus_follows_mouse = false;
    on_seat_event(&mut data, 70, SeatEvent::PointerEnter { window: 2 });
    assert_eq!(data.state.seats[0].pointer_window, Some(2));
    assert_eq!(data.state.focused_output, Some(0));
    on_seat_event(&mut data, 70, SeatEvent::WindowInteraction { window: 2 });
    assert_eq!(data.state.focused_output, Some(1));
}

#[test]
fn pointer_focus_leaves_no_fullscreen_window_behind() {
    let mut data = desk();
    data.state.windows[0].tag = 5;
    data.state.windows[0].fullscreen = true;
    data.state.tags[5].output = Some(1);
    data.state.windows[1].fullscreen = true;
    on_seat_event(&mut data, 70, SeatEvent::WindowInteraction { window: 1 });
    assert_eq!(data.state.outputs[1].active_tag, 5);
    assert_eq!(data.state.outputs[1].focused_window, Some(1));
    assert!(!data.state.windows[1].fullscreen);
    assert!(data.state.windows[0].fullscreen);
}

#[test]
fn focus_follows_the_pointer_onto_empty_outputs() {
    let mut data = desk();
    assert!(can_find_output_at(&data.state, 1500, 799));
    on_seat_event(&mut data, 70, SeatEvent::PointerPosition { x: 1500, y: 799 });
    assert_eq!(data.state.focused_output, Some(1));
    assert_eq!(
        (data.state.seats[0].pointer_x, data.state.seats[0].pointer_y),
        (1500, 799)
    );
    // Off all outputs the focus stays.
    on_seat_event(&mut data, 70, SeatEvent::PointerPosition { x: 10, y: 800 });
    assert_eq!(data.state.focused_output, Some(1));
    on_seat_event(&mut data, 70, SeatEvent::PointerPosition { x: 0, y: 0 });
    assert_eq!(data.state.focused_output, Some(0));
    data.state.outputs[0].x = i32::MAX - 5;
    assert!(!can_find_output_at(&data.state, i32::MAX, 0));
    assert!(can_find_output_at(&data.state, 0, 0));
}

#[test]
fn floating_windows_are_dragged_and_resized() {
    let mut data = desk();
    data.pointer_bindings.push((1, "move".into()));
    data.pointer_bindings.push((2, "resize".into()));
    data.state.windows[0].floating = true;
    data.state.windows[0].float_x = 100;
    data.state.windows[0].float_y = 100;
    assert!(!start_pointer_op(&mut data, 1));
    on_seat_event(&mut data, 70, SeatEvent::PointerEnter { window: 1 });
    on_seat_event(&mut data, 70, SeatEvent::PointerPosition { x: 150, y: 160 });
    assert!(!start_pointer_op(&mut data, 3));
    assert!(start_pointer_op(&mut data, 1));
    let op = data.pending_op.take().unwrap();
    assert_eq!((op.window, op.start_x, op.start_y, op.seat), (1, 150, 160, 70));
    assert!(!op.edges.right && !op.edges.bottom);
    data.pointer_op = Some(op);
    on_seat_event(&mut data, 70, SeatEvent::OpDelta { dx: 0, dy: 0 });
    assert_eq!(
        (data.state.windows[0].float_x, data.state.windows[0].float_y),
        (100, 100)
    );
    assert!(can_apply_delta(&data, 20, -10));
    on_seat_event(&mut data, 70, SeatEvent::OpDelta { dx: 20, dy: -10 });
    assert_eq!(
        (data.state.windows[0].float_x, data.state.windows[0].float_y),
        (120, 90)
    );
    // The motion is counted from the start, not from the motion before.
    on_seat_event(&mut data, 70, SeatEvent::OpDelta { dx: 25, dy: 0 });
    assert_eq!(
        (data.state.windows[0].float_x, data.state.windows[0].float_y),
        (125, 100)
    );
    assert!(can_apply_delta(&data, i32::MIN, 0));
    assert!(!can_apply_delta(&data, i32::MAX, 0));
    assert!(on_seat_event(&mut data, 70, SeatEvent::OpRelease));
    assert!(data.op_end_requested);

    data.pointer_op = None;
    assert!(!on_seat_event(&mut data, 70, SeatEvent::OpRelease));
    assert!(start_pointer_op(&mut data, 2));
    let op = data.pending_op.take().unwrap();
    assert!(op.edges.right && op.edges.bottom && !op.edges.top && !op.edges.left);
    data.pointer_op = Some(op);
    on_seat_event(&mut data, 70, SeatEvent::OpDelta { dx: 100, dy: -900 });
    assert_eq!(
        (data.state.windows[0].float_w, data.state.windows[0].float_h),
        (500, 50)
    );
}

#[test]
fn a_removed_seat_is_gone() {
    let mut data = desk();
    on_seat_event(&mut data, 71, SeatEvent::Removed);
    assert_eq!(data.state.seats.len(), 1);
    on_seat_event(&mut data, 70, SeatEvent::Removed);
    assert!(data.state.seats.is_empty());
}
