use streamwm::state::{
    can_clamp_rect, choose_active_tag, clamp_rect_to_area, remap_tag_owners, Output, State, Window,
};

/// A fraction, as it is held.
fn fraction(f: f64) -> i64 {
    (f * 1e9).round() as i64
}

/// A state with outputs that each have a tag of their own.
fn with_outputs(n: u64) -> State {
    let mut state = State::new(fraction(0.55));
    for o in 0..n {
        state.outputs.push(Output::new(100 + o));
        let index = state.outputs.len() - 1;
        state.assign_initial_tag(index);
    }
    state
}

/// Add a window on a tag.
fn add_window(state: &mut State, tag: usize) -> u32 {
    let id = state.next_window_id;
    state.next_window_id += 1;
    state.windows.push(Window::new(id, id as u64, tag));
    id
}

#[test]
fn remap_keeps_lower_owners_and_shifts_upper() {
    // outputs: [0, 1, 2], remove index 1.
    let mut owners = [Some(0), Some(1), Some(2), None, Some(3)];
    remap_tag_owners(&mut owners, 1, 2);
    assert_eq!(owners, [Some(0), Some(0), Some(1), None, Some(2)]);
}

#[test]
fn remap_moves_removed_output_tags_to_first_output() {
    // remove index 0 -> its tags move to output 0 (which was output 1).
    let mut owners = [Some(0), Some(1)];
    remap_tag_owners(&mut owners, 0, 1);
    assert_eq!(owners, [Some(0), Some(0)]);
}

#[test]
fn remap_unassigns_all_when_no_outputs_remain() {
    let mut owners = [Some(0), Some(1), None];
    remap_tag_owners(&mut owners, 0, 0);
    assert_eq!(owners, [None, None, None]);
}

#[test]
fn master_fraction_is_per_tag_and_clamped() {
    let mut state = State::new(fraction(0.55));
    assert_eq!(state.master_fraction(0), fraction(0.55));
    assert_eq!(state.master_fraction(8), fraction(0.55));

    // Changing one tag does not affect another.
    state.set_master_fraction(0, fraction(0.8));
    assert_eq!(state.master_fraction(0), fraction(0.8));
    assert_eq!(state.master_fraction(1), fraction(0.55));

    // Out-of-range fractions are clamped.
    state.set_master_fraction(2, fraction(5.0));
    assert_eq!(state.master_fraction(2), fraction(0.9));
    state.set_master_fraction(2, fraction(-1.0));
    assert_eq!(state.master_fraction(2), fraction(0.1));
}

#[test]
fn normalize_active_tags_prefers_owned_occupied_tags() {
    let mut owners = vec![Some(0), Some(0), Some(1), None];
    assert_eq!(choose_active_tag(&owners, 2, 0, &[1]), Some(1));
    assert_eq!(choose_active_tag(&owners, 0, 1, &[1]), Some(2));

    owners[3] = Some(1);
    assert_eq!(choose_active_tag(&owners, 0, 1, &[]), Some(2));
}

#[test]
fn clamp_rect_keeps_floating_window_inside_output_area() {
    assert_eq!(
        clamp_rect_to_area(2500, -200, 400, 300, 100, 50, 900, 700),
        (600, 50)
    );
    assert_eq!(
        clamp_rect_to_area(-20, 900, 1200, 800, 100, 50, 900, 700),
        (100, 50)
    );
}

#[test]
fn choose_active_tag_keeps_valid_current_tag() {
    let owners = vec![Some(0), Some(0), Some(1)];
    assert_eq!(choose_active_tag(&owners, 1, 0, &[0]), Some(1));
}

#[test]
fn clamp_floating_windows_zero_allocation() {
    let mut state = State::new(fraction(0.55));
    state.clamp_floating_windows();
    assert!(state.windows.is_empty());
}

#[test]
fn best_tag_for_output_uses_bitmask() {
    let mut state = State::new(fraction(0.55));
    state.tags[0].output = Some(0);
    state.tags[1].output = Some(0);
    assert_eq!(state.best_tag_for_output(0), None);
}

#[test]
fn outputs_get_the_first_free_tag() {
    let state = with_outputs(3);
    for o in 0..3 {
        assert_eq!(state.outputs[o].active_tag, o);
        assert_eq!(state.tag_owner(o), Some(o));
    }
    assert_eq!(state.tag_owner(3), None);
    assert_eq!(state.tag_owner(9), None);
    assert_eq!(state.focused_output, Some(0));
}

#[test]
fn focusing_an_unassigned_tag_creates_it_and_drops_the_empty_one_left() {
    let mut state = with_outputs(1);
    state.focus_tag(0, 4);
    assert_eq!(state.outputs[0].active_tag, 4);
    assert_eq!(state.tag_owner(4), Some(0));
    assert_eq!(state.tag_owner(0), None);
}

#[test]
fn focusing_keeps_the_tag_left_while_windows_are_on_it() {
    let mut state = with_outputs(1);
    let id = add_window(&mut state, 0);
    state.windows[0].fullscreen = true;
    state.refocus_output(0);
    assert_eq!(state.outputs[0].focused_window, Some(id));
    state.focus_tag(0, 1);
    assert_eq!(state.tag_owner(0), Some(0));
    assert_eq!(state.outputs[0].focused_window, None);
    assert!(!state.windows[0].fullscreen);
    state.focus_tag(0, 0);
    assert_eq!(state.outputs[0].focused_window, Some(id));
    assert_eq!(state.tag_owner(1), None);
}

#[test]
fn focusing_a_tag_of_another_output_moves_the_focus_there() {
    let mut state = with_outputs(2);
    state.focus_tag(0, 1);
    assert_eq!(state.focused_output, Some(1));
    assert_eq!(state.outputs[0].active_tag, 0);
    assert_eq!(state.outputs[1].active_tag, 1);
    // Tags out of range are ignored.
    state.focus_tag(0, 9);
    assert_eq!(state.focused_output, Some(1));
}

#[test]
fn sending_moves_the_focused_window_and_assigns_the_tag() {
    let mut state = with_outputs(1);
    let first = add_window(&mut state, 0);
    let second = add_window(&mut state, 0);
    state.outputs[0].focused_window = Some(first);
    state.send_focused_to_tag(0, 5);
    assert_eq!(state.find_window(first).unwrap().tag, 5);
    assert_eq!(state.tag_owner(5), Some(0));
    assert_eq!(state.outputs[0].focused_window, Some(second));
    assert!(!state.window_is_visible(&state.windows[0]));
    assert!(state.window_is_visible(&state.windows[1]));
    assert_eq!(state.window_output(&state.windows[0]), Some(0));
}

#[test]
fn switching_clears_fullscreen_on_the_tag_left_only() {
    let mut state = with_outputs(1);
    add_window(&mut state, 0);
    add_window(&mut state, 1);
    state.windows[0].fullscreen = true;
    state.windows[1].fullscreen = true;
    state.switch_active_tag(0, 1);
    assert!(!state.windows[0].fullscreen);
    assert!(state.windows[1].fullscreen);
    assert_eq!(state.outputs[0].active_tag, 1);
    // Unlike focusing, switching leaves ownership alone.
    assert_eq!(state.tag_owner(0), Some(0));
}

#[test]
fn removed_output_hands_its_tags_to_the_first_one() {
    let mut state = with_outputs(3);
    state.focused_output = Some(2);
    let id = add_window(&mut state, 1);
    state.remove_output(1);
    assert_eq!(state.outputs.len(), 2);
    assert_eq!(state.tag_owner(0), Some(0));
    assert_eq!(state.tag_owner(1), Some(0));
    assert_eq!(state.tag_owner(2), Some(1));
    assert_eq!(state.focused_output, Some(1));
    assert_eq!(state.outputs[0].active_tag, 0);
    assert!(!state.window_is_visible(state.find_window(id).unwrap()));

    state.remove_output(0);
    state.remove_output(0);
    assert_eq!(state.focused_output, None);
    assert!(state.tags.iter().all(|t| t.output.is_none()));
    state.remove_output(0);
    assert!(state.outputs.is_empty());
}

#[test]
fn floating_windows_come_back_into_the_usable_area() {
    let mut state = with_outputs(1);
    add_window(&mut state, 0);
    state.windows[0].floating = true;
    state.windows[0].float_x = 5000;
    state.windows[0].float_y = -100;
    state.outputs[0].usable_x = 0;
    state.outputs[0].usable_y = 30;
    state.outputs[0].usable_width = 1920;
    state.outputs[0].usable_height = 1050;
    assert!(state.can_clamp_floating_windows());
    state.repair_outputs();
    assert_eq!(
        (state.windows[0].float_x, state.windows[0].float_y),
        (1920 - 400, 30)
    );
    // An area that ends past the largest coordinate holds no floating window.
    state.outputs[0].usable_x = i32::MAX;
    assert!(!state.can_clamp_floating_windows());
    assert!(!state.try_repair_outputs());
    assert_eq!(state.windows[0].float_x, 1920 - 400);
    state.windows[0].floating = false;
    assert!(state.can_clamp_floating_windows());
    assert!(state.try_repair_outputs());
}

#[test]
fn rectangles_are_brought_inside_within_the_range_of_coordinates() {
    assert!(can_clamp_rect(400, 300, 0, 0, 1920, 1080));
    assert!(can_clamp_rect(400, 300, i32::MAX, 0, 0, 1080));
    assert!(can_clamp_rect(1920, 1080, i32::MAX, i32::MAX, 1920, 1080));
    assert!(can_clamp_rect(400, 300, i32::MAX - 1520, 0, 1920, 1080));
    assert!(!can_clamp_rect(400, 300, i32::MAX - 1519, 0, 1920, 1080));
    assert!(!can_clamp_rect(400, 300, 0, i32::MAX, 1920, 1080));
    assert!(!can_clamp_rect(0, 0, i32::MIN, 0, u32::MAX, 1080));
}

#[test]
fn windows_and_outputs_are_found_by_what_names_them() {
    let mut state = with_outputs(2);
    state.outputs[1].name = Some("DP-1".into());
    assert_eq!(state.find_output_by_name("DP-1"), Some(1));
    assert_eq!(state.find_output_by_name("DP-2"), None);
    let id = add_window(&mut state, 0);
    assert_eq!(state.find_window_by_proxy(id as u64), Some(id));
    assert_eq!(state.find_window_by_proxy(77), None);
    assert_eq!(state.find_window_index(id), Some(0));
    state.find_window_mut(id).unwrap().title = Some("x".into());
    assert_eq!(state.windows[0].title.as_deref(), Some("x"));
    assert!(state.find_window_mut(99).is_none());
    assert_eq!(state.active_master_fraction(0), fraction(0.55));
    assert_eq!(state.active_master_fraction(9), fraction(0.55));
    state.focused_output = None;
    assert_eq!(state.active_output(), Some(0));
    assert_eq!(State::new(0).active_output(), None);
}

/// What a state says of its outputs, tags and floating windows.
fn picture(state: &State) -> String {
    let mut text = format!("{:?}", state.focused_output);
    for o in &state.outputs {
        text += &format!(" {} {:?}", o.active_tag, o.focused_window);
    }
    for t in &state.tags {
        text += &format!(" {:?}", t.output);
    }
    for w in &state.windows {
        text += &format!(" {} {}", w.float_x, w.float_y);
    }
    text
}

#[test]
fn a_second_repair_changes_nothing() {
    let mut state = with_outputs(3);
    let first = add_window(&mut state, 4);
    let second = add_window(&mut state, 4);
    state.windows[1].floating = true;
    state.windows[1].float_x = 9000;
    for o in &mut state.outputs {
        o.width = 1000;
        o.height = 800;
    }
    // The first output lost the tag that it shows and has another with windows;
    // the second lost all it had; and the focused output is gone.
    state.tags[0].output = None;
    state.tags[4].output = Some(0);
    state.tags[1].output = None;
    state.outputs[1].focused_window = Some(second);
    state.outputs[0].focused_window = Some(77);
    state.focused_output = Some(9);
    state.repair_outputs();
    assert_eq!(state.focused_output, Some(0));
    assert_eq!(state.outputs[0].active_tag, 4);
    assert_eq!(state.outputs[0].focused_window, Some(first));
    assert_eq!(state.outputs[1].active_tag, 0);
    assert_eq!(state.outputs[1].focused_window, None);
    assert_eq!(state.tag_owner(0), Some(1));
    assert_eq!(state.tag_owner(1), None);
    assert_eq!(state.windows[1].float_x, 600);
    let before = picture(&state);
    state.repair_outputs();
    assert_eq!(picture(&state), before);
}

#[test]
fn focus_stays_or_goes_to_the_first_window_shown() {
    let mut state = with_outputs(1);
    let first = add_window(&mut state, 0);
    let second = add_window(&mut state, 0);
    let hidden = add_window(&mut state, 3);
    state.outputs[0].focused_window = Some(second);
    state.refocus_output(0);
    assert_eq!(state.outputs[0].focused_window, Some(second));
    state.outputs[0].focused_window = Some(hidden);
    state.refocus_output(0);
    assert_eq!(state.outputs[0].focused_window, Some(first));
    state.refocus_output(0);
    assert_eq!(state.outputs[0].focused_window, Some(first));
    state.outputs[0].active_tag = 5;
    state.refocus_output(0);
    assert_eq!(state.outputs[0].focused_window, None);
}

#[test]
fn tags_are_not_focused_from_an_output_that_is_not_there() {
    let mut state = with_outputs(1);
    // Even where the owner of the tag is gone too.
    state.tags[2].output = Some(6);
    state.focus_tag(5, 2);
    state.send_focused_to_tag(5, 2);
    state.focus_tag(0, 9);
    assert_eq!(state.tag_owner(2), Some(6));
    assert_eq!(state.outputs[0].active_tag, 0);
}
