//! What each action does, in terms of the windows, tags and outputs that it
//! is about.
use vstd::prelude::*;

use crate::actions;
use crate::connection::AppModel;
use crate::invariants;
use crate::keys;
use crate::laws;
use crate::search;
use crate::state::{StateModel, Tag, Window};
use crate::text;
use crate::wm::layout;
use crate::wm::manage;

verus! {

/// The name of an action without an argument is the action.
proof fn lemma_bare_action(name: Seq<char>)
    requires
        forall|i: int| 0 <= i < name.len() ==> name[i] != ':',
    ensures
        actions::action_name(name) == name,
        actions::action_arg(name) is None,
{
    keys::lemma_no_position(name, ':');
}

/// The names of actions differ.
proof fn lemma_names()
    ensures
        "spawn_terminal"@ != "spawn_launcher"@,
        "spawn_terminal"@ != "spawn"@,
        "spawn_terminal"@ != "close"@,
        "spawn_terminal"@ != "focus_next"@,
        "spawn_terminal"@ != "focus_prev"@,
        "spawn_terminal"@ != "focus_tag"@,
        "spawn_terminal"@ != "send_to_tag"@,
        "spawn_terminal"@ != "fullscreen"@,
        "spawn_terminal"@ != "float"@,
        "spawn_terminal"@ != "focus_next_output"@,
        "spawn_terminal"@ != "focus_prev_output"@,
        "spawn_terminal"@ != "enter_resize_mode"@,
        "spawn_terminal"@ != "exit_resize_mode"@,
        "spawn_terminal"@ != "resize_step_left"@,
        "spawn_terminal"@ != "resize_step_right"@,
        "spawn_terminal"@ != "quit"@,
        "spawn_launcher"@ != "spawn"@,
        "spawn_launcher"@ != "close"@,
        "spawn_launcher"@ != "focus_next"@,
        "spawn_launcher"@ != "focus_prev"@,
        "spawn_launcher"@ != "focus_tag"@,
        "spawn_launcher"@ != "send_to_tag"@,
        "spawn_launcher"@ != "fullscreen"@,
        "spawn_launcher"@ != "float"@,
        "spawn_launcher"@ != "focus_next_output"@,
        "spawn_launcher"@ != "focus_prev_output"@,
        "spawn_launcher"@ != "enter_resize_mode"@,
        "spawn_launcher"@ != "exit_resize_mode"@,
        "spawn_launcher"@ != "resize_step_left"@,
        "spawn_launcher"@ != "resize_step_right"@,
        "spawn_launcher"@ != "quit"@,
        "spawn"@ != "close"@,
        "spawn"@ != "focus_next"@,
        "spawn"@ != "focus_prev"@,
        "spawn"@ != "focus_tag"@,
        "spawn"@ != "send_to_tag"@,
        "spawn"@ != "fullscreen"@,
        "spawn"@ != "float"@,
        "spawn"@ != "focus_next_output"@,
        "spawn"@ != "focus_prev_output"@,
        "spawn"@ != "enter_resize_mode"@,
        "spawn"@ != "exit_resize_mode"@,
        "spawn"@ != "resize_step_left"@,
        "spawn"@ != "resize_step_right"@,
        "spawn"@ != "quit"@,
        "close"@ != "focus_next"@,
        "close"@ != "focus_prev"@,
        "close"@ != "focus_tag"@,
        "close"@ != "send_to_tag"@,
        "close"@ != "fullscreen"@,
        "close"@ != "float"@,
        "close"@ != "focus_next_output"@,
        "close"@ != "focus_prev_output"@,
        "close"@ != "enter_resize_mode"@,
        "close"@ != "exit_resize_mode"@,
        "close"@ != "resize_step_left"@,
        "close"@ != "resize_step_right"@,
        "close"@ != "quit"@,
        "focus_next"@ != "focus_prev"@,
        "focus_next"@ != "focus_tag"@,
        "focus_next"@ != "send_to_tag"@,
        "focus_next"@ != "fullscreen"@,
        "focus_next"@ != "float"@,
        "focus_next"@ != "focus_next_output"@,
        "focus_next"@ != "focus_prev_output"@,
        "focus_next"@ != "enter_resize_mode"@,
        "focus_next"@ != "exit_resize_mode"@,
        "focus_next"@ != "resize_step_left"@,
        "focus_next"@ != "resize_step_right"@,
        "focus_next"@ != "quit"@,
        "focus_prev"@ != "focus_tag"@,
        "focus_prev"@ != "send_to_tag"@,
        "focus_prev"@ != "fullscreen"@,
        "focus_prev"@ != "float"@,
        "focus_prev"@ != "focus_next_output"@,
        "focus_prev"@ != "focus_prev_output"@,
        "focus_prev"@ != "enter_resize_mode"@,
        "focus_prev"@ != "exit_resize_mode"@,
        "focus_prev"@ != "resize_step_left"@,
        "focus_prev"@ != "resize_step_right"@,
        "focus_prev"@ != "quit"@,
        "focus_tag"@ != "send_to_tag"@,
        "focus_tag"@ != "fullscreen"@,
        "focus_tag"@ != "float"@,
        "focus_tag"@ != "focus_next_output"@,
        "focus_tag"@ != "focus_prev_output"@,
        "focus_tag"@ != "enter_resize_mode"@,
        "focus_tag"@ != "exit_resize_mode"@,
        "focus_tag"@ != "resize_step_left"@,
        "focus_tag"@ != "resize_step_right"@,
        "focus_tag"@ != "quit"@,
        "send_to_tag"@ != "fullscreen"@,
        "send_to_tag"@ != "float"@,
        "send_to_tag"@ != "focus_next_output"@,
        "send_to_tag"@ != "focus_prev_output"@,
        "send_to_tag"@ != "enter_resize_mode"@,
        "send_to_tag"@ != "exit_resize_mode"@,
        "send_to_tag"@ != "resize_step_left"@,
        "send_to_tag"@ != "resize_step_right"@,
        "send_to_tag"@ != "quit"@,
        "fullscreen"@ != "float"@,
        "fullscreen"@ != "focus_next_output"@,
        "fullscreen"@ != "focus_prev_output"@,
        "fullscreen"@ != "enter_resize_mode"@,
        "fullscreen"@ != "exit_resize_mode"@,
        "fullscreen"@ != "resize_step_left"@,
        "fullscreen"@ != "resize_step_right"@,
        "fullscreen"@ != "quit"@,
        "float"@ != "focus_next_output"@,
        "float"@ != "focus_prev_output"@,
        "float"@ != "enter_resize_mode"@,
        "float"@ != "exit_resize_mode"@,
        "float"@ != "resize_step_left"@,
        "float"@ != "resize_step_right"@,
        "float"@ != "quit"@,
        "focus_next_output"@ != "focus_prev_output"@,
        "focus_next_output"@ != "enter_resize_mode"@,
        "focus_next_output"@ != "exit_resize_mode"@,
        "focus_next_output"@ != "resize_step_left"@,
        "focus_next_output"@ != "resize_step_right"@,
        "focus_next_output"@ != "quit"@,
        "focus_prev_output"@ != "enter_resize_mode"@,
        "focus_prev_output"@ != "exit_resize_mode"@,
        "focus_prev_output"@ != "resize_step_left"@,
        "focus_prev_output"@ != "resize_step_right"@,
        "focus_prev_output"@ != "quit"@,
        "enter_resize_mode"@ != "exit_resize_mode"@,
        "enter_resize_mode"@ != "resize_step_left"@,
        "enter_resize_mode"@ != "resize_step_right"@,
        "enter_resize_mode"@ != "quit"@,
        "exit_resize_mode"@ != "resize_step_left"@,
        "exit_resize_mode"@ != "resize_step_right"@,
        "exit_resize_mode"@ != "quit"@,
        "resize_step_left"@ != "resize_step_right"@,
        "resize_step_left"@ != "quit"@,
        "resize_step_right"@ != "quit"@,
{
    reveal_strlit("spawn_terminal");
    reveal_strlit("spawn_launcher");
    reveal_strlit("spawn");
    reveal_strlit("close");
    reveal_strlit("focus_next");
    reveal_strlit("focus_prev");
    reveal_strlit("focus_tag");
    reveal_strlit("send_to_tag");
    reveal_strlit("fullscreen");
    reveal_strlit("float");
    reveal_strlit("focus_next_output");
    reveal_strlit("focus_prev_output");
    reveal_strlit("enter_resize_mode");
    reveal_strlit("exit_resize_mode");
    reveal_strlit("resize_step_left");
    reveal_strlit("resize_step_right");
    reveal_strlit("quit");
    assert("spawn_terminal"@.len() == 14);
    assert("spawn_launcher"@.len() == 14);
    assert("spawn"@.len() == 5);
    assert("close"@.len() == 5);
    assert("focus_next"@.len() == 10);
    assert("focus_prev"@.len() == 10);
    assert("focus_tag"@.len() == 9);
    assert("send_to_tag"@.len() == 11);
    assert("fullscreen"@.len() == 10);
    assert("float"@.len() == 5);
    assert("focus_next_output"@.len() == 17);
    assert("focus_prev_output"@.len() == 17);
    assert("enter_resize_mode"@.len() == 17);
    assert("exit_resize_mode"@.len() == 16);
    assert("resize_step_left"@.len() == 16);
    assert("resize_step_right"@.len() == 17);
    assert("quit"@.len() == 4);
    assert("spawn_terminal"@[6] != "spawn_launcher"@[6]);
    assert("spawn"@[0] != "close"@[0]);
    assert("spawn"@[0] != "float"@[0]);
    assert("close"@[0] != "float"@[0]);
    assert("focus_next"@[6] != "focus_prev"@[6]);
    assert("focus_next"@[1] != "fullscreen"@[1]);
    assert("focus_prev"@[1] != "fullscreen"@[1]);
    assert("focus_next_output"@[6] != "focus_prev_output"@[6]);
    assert("focus_next_output"@[0] != "enter_resize_mode"@[0]);
    assert("focus_next_output"@[0] != "resize_step_right"@[0]);
    assert("focus_prev_output"@[0] != "enter_resize_mode"@[0]);
    assert("focus_prev_output"@[0] != "resize_step_right"@[0]);
    assert("enter_resize_mode"@[0] != "resize_step_right"@[0]);
    assert("exit_resize_mode"@[0] != "resize_step_left"@[0]);
}

/// Every action is run by its own name, and does what its name says.
#[verifier::rlimit(40)]
pub proof fn actions_are_told_apart(d: AppModel)
    ensures
        actions::action_run(d, "spawn_terminal"@) == actions::spawning(d, d.config.terminal@),
        actions::action_run(d, "spawn_launcher"@) == actions::spawning(d, d.config.launcher@),
        actions::action_run(d, "close"@) == actions::close_queued(d),
        actions::action_run(d, "focus_next"@) == actions::focus_cycled(d, true),
        actions::action_run(d, "focus_prev"@) == actions::focus_cycled(d, false),
        actions::action_run(d, "fullscreen"@) == actions::fullscreen_toggled(d),
        actions::action_run(d, "float"@) == actions::float_toggled(d),
        actions::action_run(d, "focus_next_output"@) == actions::output_cycled(d, true),
        actions::action_run(d, "focus_prev_output"@) == actions::output_cycled(d, false),
        actions::action_run(d, "enter_resize_mode"@) == actions::resize_mode_set(d, true),
        actions::action_run(d, "exit_resize_mode"@) == actions::resize_mode_set(d, false),
        actions::action_run(d, "resize_step_left"@) == actions::split_moved(
            d,
            -d.config.resize_step,
        ),
        actions::action_run(d, "resize_step_right"@) == actions::split_moved(
            d,
            d.config.resize_step as int,
        ),
        actions::action_run(d, "quit"@) == actions::unchanged(AppModel { quit: true, ..d }),
{
    lemma_names();
    reveal_strlit("spawn_terminal");
    reveal_strlit("spawn_launcher");
    reveal_strlit("spawn");
    reveal_strlit("close");
    reveal_strlit("focus_next");
    reveal_strlit("focus_prev");
    reveal_strlit("focus_tag");
    reveal_strlit("send_to_tag");
    reveal_strlit("fullscreen");
    reveal_strlit("float");
    reveal_strlit("focus_next_output");
    reveal_strlit("focus_prev_output");
    reveal_strlit("enter_resize_mode");
    reveal_strlit("exit_resize_mode");
    reveal_strlit("resize_step_left");
    reveal_strlit("resize_step_right");
    reveal_strlit("quit");
    lemma_bare_action("spawn_terminal"@);
    lemma_bare_action("spawn_launcher"@);
    lemma_bare_action("close"@);
    lemma_bare_action("focus_next"@);
    lemma_bare_action("focus_prev"@);
    lemma_bare_action("fullscreen"@);
    lemma_bare_action("float"@);
    lemma_bare_action("focus_next_output"@);
    lemma_bare_action("focus_prev_output"@);
    lemma_bare_action("enter_resize_mode"@);
    lemma_bare_action("exit_resize_mode"@);
    lemma_bare_action("resize_step_left"@);
    lemma_bare_action("resize_step_right"@);
    lemma_bare_action("quit"@);
}

/// Whether the window at index `i` is the focused one of the active output: the
/// focused output, or the first where none is focused.
pub open spec fn has_focus(s: StateModel, i: int) -> bool {
    &&& 0 <= i < s.windows.len()
    &&& s.outputs.len() > 0
    &&& (match s.focused_output {
        Some(f) => s.outputs[f as int].focused_window,
        None => s.outputs[0].focused_window,
    }) == Some(s.windows[i].id)
}

/// The focused window is the one that actions are about.
proof fn lemma_focused(s: StateModel, i: int)
    requires
        s.wf(),
        has_focus(s, i),
    ensures
        actions::focused_index(s) == Some(i),
{
    invariants::window_is_found_by_id(s, i);
}

/// The spawn actions hand out the configured commands, and quitting ends the
/// window manager; they change nothing else and take no manage sequence.
pub proof fn commands_are_spawned_and_quit_quits(d: AppModel)
    ensures
        ({
            let terminal = actions::action_run(d, "spawn_terminal"@);
            let launcher = actions::action_run(d, "spawn_launcher"@);
            let quit = actions::action_run(d, "quit"@);
            &&& terminal.spawn == Some(d.config.terminal@)
            &&& launcher.spawn == Some(d.config.launcher@)
            &&& terminal.data == d && launcher.data == d
            &&& !terminal.manage && !launcher.manage
            &&& quit.data == (AppModel { quit: true, ..d })
            &&& quit.spawn is None && !quit.manage
        }),
{
    actions_are_told_apart(d);
}

/// The fullscreen action toggles the fullscreen state of the focused window, and
/// changes nothing else. Without a focused window nothing happens.
pub proof fn focused_window_toggles_fullscreen(d: AppModel, i: int)
    requires
        d.state.wf(),
    ensures
        ({
            let r = actions::action_run(d, "fullscreen"@);
            let s = d.state;
            let w = s.windows[i];
            &&& has_focus(s, i) ==> {
                &&& r.data == d.with_state(
                    StateModel {
                        windows: s.windows.update(i, Window { fullscreen: !w.fullscreen, ..w }),
                        ..s
                    },
                )
                &&& r.manage
                &&& r.spawn is None
            }
            &&& (forall|k: int| !(#[trigger] has_focus(s, k))) ==> r.data == d && !r.manage
                && r.spawn is None
        }),
{
    actions_are_told_apart(d);
    let s = d.state;
    if has_focus(s, i) {
        lemma_focused(s, i);
    }
    if forall|k: int| !(#[trigger] has_focus(s, k)) {
        lemma_none_focused(s);
    }
}

/// Where no window has the focus, actions are about none.
proof fn lemma_none_focused(s: StateModel)
    requires
        s.wf(),
        forall|k: int| !(#[trigger] has_focus(s, k)),
    ensures
        actions::focused_index(s) is None,
{
    if let Some(o) = s.active_output() {
        if let Some(id) = s.outputs[o as int].focused_window {
            search::lemma_least(s.windows.len() as int, s.has_id(id));
            if let Some(k) = s.window_index(id) {
                assert(s.has_id(id)(k));
                assert(has_focus(s, k));
            }
        }
    }
}

/// The float action lets a tiled focused window float and a floating one be
/// tiled; no other window changes, and no output or tag. Where the window then
/// floats: see `floating_window_keeps_its_cell`.
pub proof fn focused_window_toggles_floating(d: AppModel, i: int)
    requires
        d.state.wf(),
    ensures
        ({
            let r = actions::action_run(d, "float"@);
            let s = d.state;
            let w = s.windows[i];
            let v = r.data.state.windows[i];
            &&& has_focus(s, i) ==> {
                &&& r.data == d.with_state(StateModel { windows: s.windows.update(i, v), ..s })
                &&& v.floating == !w.floating
                &&& w.floating ==> v == (Window { floating: false, ..w })
                &&& v == (Window {
                    floating: v.floating,
                    float_x: v.float_x,
                    float_y: v.float_y,
                    float_w: v.float_w,
                    float_h: v.float_h,
                    ..w
                })
                &&& r.manage
                &&& r.spawn is None
            }
            &&& (forall|k: int| !(#[trigger] has_focus(s, k))) ==> r.data == d && !r.manage
        }),
{
    actions_are_told_apart(d);
    let s = d.state;
    if has_focus(s, i) {
        lemma_focused(s, i);
    }
    if forall|k: int| !(#[trigger] has_focus(s, k)) {
        lemma_none_focused(s);
    }
}

/// The focus moves to the next window tiled on the active output, in the order in
/// which they came, and from the last to the first; the other way round it moves
/// to the one before. Nothing else changes.
pub proof fn focus_moves_along_the_tiled_windows(d: AppModel, o: int, k: int)
    requires
        d.state.wf(),
        0 <= o < d.state.outputs.len(),
        d.state.focused_output == Some(o as usize),
        0 <= k < laws::ring(d.state, o).len(),
        d.state.outputs[o].focused_window == Some(laws::ring(d.state, o)[k]),
    ensures
        ({
            let s = d.state;
            let ids = laws::ring(s, o);
            let n = ids.len() as int;
            let next = actions::action_run(d, "focus_next"@).data;
            let prev = actions::action_run(d, "focus_prev"@).data;
            let after = if k == n - 1 {
                ids[0]
            } else {
                ids[k + 1]
            };
            let before = if k == 0 {
                ids[n - 1]
            } else {
                ids[k - 1]
            };
            &&& next == d.with_state(s.with_focus(o, next.state.outputs[o].focused_window))
            &&& next.state.outputs[o].focused_window == Some(after)
            &&& prev == d.with_state(s.with_focus(o, prev.state.outputs[o].focused_window))
            &&& prev.state.outputs[o].focused_window == Some(before)
        }),
{
    actions_are_told_apart(d);
    let ids = laws::ring(d.state, o);
    let n = ids.len() as int;
    layout::lemma_ids_distinct(d.state.windows, layout::tiled_on(d.state, o));
    laws::lemma_only_place(ids, k);
    lemma_ring(k, n);
}

/// The neighbours of a place in a ring.
proof fn lemma_ring(k: int, n: int)
    requires
        0 <= k < n,
    ensures
        actions::neighbour(k, n, true) == (if k == n - 1 {
            0
        } else {
            k + 1
        }),
        actions::neighbour(k, n, false) == (if k == 0 {
            n - 1
        } else {
            k - 1
        }),
{
    if k == n - 1 {
        assert((k + 1) % n == 0) by (nonlinear_arith)
            requires
                k + 1 == n,
                n > 0,
        ;
    } else {
        assert((k + 1) % n == k + 1) by (nonlinear_arith)
            requires
                0 <= k,
                k + 1 < n,
        ;
    }
    if k == 0 {
        assert((n - 1) % n == n - 1) by (nonlinear_arith)
            requires
                n > 0,
        ;
    } else {
        assert((k + n - 1) % n == k - 1) by (nonlinear_arith)
            requires
                0 < k < n,
        ;
    }
}

/// The focus moves to the next output, and from the last to the first, or the
/// other way round, and the pointer goes with it; with fewer than two outputs
/// nothing happens.
pub proof fn focus_moves_along_the_outputs(d: AppModel, f: int)
    requires
        d.state.wf(),
        match d.state.focused_output {
            Some(o) => f == o,
            None => f == 0,
        },
    ensures
        ({
            let n = d.state.outputs.len() as int;
            let next = actions::action_run(d, "focus_next_output"@).data;
            let prev = actions::action_run(d, "focus_prev_output"@).data;
            let after = (if f == n - 1 {
                0
            } else {
                f + 1
            }) as usize;
            let before = (if f == 0 {
                n - 1
            } else {
                f - 1
            }) as usize;
            &&& n > 1 ==> next == (AppModel {
                state: StateModel { focused_output: Some(after), ..d.state },
                pending_pointer_warp: Some(after),
                ..d
            })
            &&& n > 1 ==> prev == (AppModel {
                state: StateModel { focused_output: Some(before), ..d.state },
                pending_pointer_warp: Some(before),
                ..d
            })
            &&& n <= 1 ==> next == d && prev == d
        }),
{
    actions_are_told_apart(d);
    if d.state.outputs.len() > 1 {
        lemma_ring(f, d.state.outputs.len() as int);
    }
}

/// Resize mode is entered and left, and nothing else changes. In it, a step to
/// the right widens the master side of the tag that the active output shows by
/// the configured step, and one to the left narrows it, within a tenth and nine
/// tenths; no other tag changes. Outside of it, steps do nothing.
pub proof fn split_moves_by_steps(d: AppModel, o: int)
    requires
        d.state.wf(),
        0 <= o < d.state.outputs.len(),
        d.state.focused_output == Some(o as usize),
    ensures
        ({
            let s = d.state;
            let t = s.outputs[o].active_tag as int;
            let on = actions::action_run(d, "enter_resize_mode"@).data;
            let off = actions::action_run(d, "exit_resize_mode"@).data;
            let right = actions::action_run(d, "resize_step_right"@).data;
            let left = actions::action_run(d, "resize_step_left"@).data;
            let wide = s.tags[t].master_fraction + d.config.resize_step;
            let narrow = s.tags[t].master_fraction - d.config.resize_step;
            let a = right.state.tags[t];
            let b = left.state.tags[t];
            &&& on == d.with_state(StateModel { resize_mode: true, ..s })
            &&& off == d.with_state(StateModel { resize_mode: false, ..s })
            &&& !s.resize_mode ==> right == d && left == d
            &&& s.resize_mode ==> {
                &&& right == d.with_state(StateModel { tags: s.tags.update(t, a), ..s })
                &&& left == d.with_state(StateModel { tags: s.tags.update(t, b), ..s })
                &&& a == (Tag { master_fraction: a.master_fraction, ..s.tags[t] })
                &&& b == (Tag { master_fraction: b.master_fraction, ..s.tags[t] })
                &&& 100_000_000 <= wide <= 900_000_000 ==> a.master_fraction == wide
                &&& wide > 900_000_000 ==> a.master_fraction == 900_000_000
                &&& wide < 100_000_000 ==> a.master_fraction == 100_000_000
                &&& 100_000_000 <= narrow <= 900_000_000 ==> b.master_fraction == narrow
                &&& narrow < 100_000_000 ==> b.master_fraction == 100_000_000
                &&& narrow > 900_000_000 ==> b.master_fraction == 900_000_000
            }
        }),
{
    actions_are_told_apart(d);
}

/// The action of a handle is that of the first binding with it; a handle that
/// no binding has is that of none.
pub proof fn handles_find_their_bindings(list: Seq<(u64, String)>, handle: u64, i: int)
    ensures
        0 <= i < list.len() && list[i].0 == handle && (forall|j: int|
            0 <= j < i ==> (#[trigger] list[j]).0 != handle) ==> actions::bound_action(list, handle)
            == Some(list[i].1),
        (forall|j: int| 0 <= j < list.len() ==> (#[trigger] list[j]).0 != handle)
            ==> actions::bound_action(list, handle) is None,
{
    let n = list.len() as int;
    let holds = actions::has_handle(list, handle);
    if 0 <= i < n && list[i].0 == handle && (forall|j: int|
        0 <= j < i ==> (#[trigger] list[j]).0 != handle) {
        assert forall|j: int| 0 <= j < i implies !(#[trigger] holds(j)) by {
            assert(list[j].0 != handle);
        }
        assert(search::is_least(n, holds, i));
        search::lemma_least_is(n, holds, i);
    }
    if forall|j: int| 0 <= j < n ==> (#[trigger] list[j]).0 != handle {
        assert forall|j: int| 0 <= j < n implies !(#[trigger] holds(j)) by {
            assert(list[j].0 != handle);
        }
        search::lemma_least_none(n, holds);
    }
}

/// Actions about a tag take its number, as decimal digits behind the colon, and
/// do nothing with anything else there, or with nothing; and whatever stands
/// behind the colon of the spawn action is spawned.
pub proof fn arguments_stand_behind_the_colon(d: AppModel, arg: Seq<char>)
    ensures
        ({
            let nothing = actions::unchanged(d);
            let focused = actions::action_run(d, "focus_tag"@ + seq![':'] + arg);
            let sent = actions::action_run(d, "send_to_tag"@ + seq![':'] + arg);
            &&& match text::parsed_number(arg, 10, usize::MAX as int) {
                Some(tag) => focused == actions::tag_chosen(d, tag as usize) && sent
                    == actions::tag_sent(d, tag as usize),
                None => focused == nothing && sent == nothing,
            }
            &&& actions::action_run(d, "spawn"@ + seq![':'] + arg) == actions::spawning(d, arg)
            &&& actions::action_run(d, "focus_tag"@) == nothing
            &&& actions::action_run(d, "send_to_tag"@) == nothing
            &&& actions::action_run(d, "spawn"@) == nothing
        }),
{
    reveal_strlit("focus_tag");
    reveal_strlit("send_to_tag");
    reveal_strlit("spawn_terminal");
    reveal_strlit("spawn_launcher");
    reveal_strlit("spawn");
    reveal_strlit("close");
    reveal_strlit("focus_next");
    reveal_strlit("focus_prev");
    keys::action_is_taken_apart("focus_tag"@, arg);
    keys::action_is_taken_apart("send_to_tag"@, arg);
    keys::action_is_taken_apart("spawn"@, arg);
    lemma_bare_action("focus_tag"@);
    lemma_bare_action("send_to_tag"@);
    lemma_bare_action("spawn"@);
}

/// An action of any other name does nothing, with an argument or without.
pub proof fn unknown_actions_do_nothing(d: AppModel, name: Seq<char>, arg: Seq<char>)
    requires
        !name.contains(':'),
        name != "spawn_terminal"@,
        name != "spawn_launcher"@,
        name != "spawn"@,
        name != "close"@,
        name != "focus_next"@,
        name != "focus_prev"@,
        name != "focus_tag"@,
        name != "send_to_tag"@,
        name != "fullscreen"@,
        name != "float"@,
        name != "focus_next_output"@,
        name != "focus_prev_output"@,
        name != "enter_resize_mode"@,
        name != "exit_resize_mode"@,
        name != "resize_step_left"@,
        name != "resize_step_right"@,
        name != "quit"@,
    ensures
        actions::action_run(d, name) == actions::unchanged(d),
        actions::action_run(d, name + seq![':'] + arg) == actions::unchanged(d),
{
    assert forall|i: int| 0 <= i < name.len() implies name[i] != ':' by {}
    keys::action_is_taken_apart(name, arg);
    lemma_bare_action(name);
}

/// Closing queues the focused window of the active output behind those that are
/// queued already, and asks for a manage sequence; nothing else changes.
pub proof fn closing_queues_behind(d: AppModel, o: usize, id: u32)
    requires
        o < d.state.outputs.len(),
        d.state.focused_output == Some(o) || (d.state.focused_output is None && o == 0),
        d.state.outputs[o as int].focused_window == Some(id),
    ensures
        ({
            let r = actions::close_queued(d);
            &&& r.data.pending_close.len() == d.pending_close.len() + 1
            &&& r.data.pending_close.drop_last() == d.pending_close
            &&& r.data.pending_close.last() == id
            &&& r.data == (AppModel { pending_close: r.data.pending_close, ..d })
            &&& r.manage
            &&& r.spawn is None
        }),
{
    assert(d.pending_close.push(id).drop_last() =~= d.pending_close);
}

/// Windows are closed in the order in which they were queued.
pub proof fn windows_are_closed_in_order(s: StateModel, first: Seq<u32>, later: Seq<u32>)
    ensures
        manage::close_requests(s, first + later) == manage::close_requests(s, first)
            + manage::close_requests(s, later),
    decreases later.len(),
{
    let all = first + later;
    if later.len() == 0 {
        assert(all =~= first);
        assert(manage::close_requests(s, first) + manage::close_requests(s, later)
            =~= manage::close_requests(s, first));
    } else {
        windows_are_closed_in_order(s, first, later.drop_last());
        assert(all.drop_last() =~= first + later.drop_last());
        assert(all.last() == later.last());
        assert(manage::close_requests(s, all) =~= manage::close_requests(s, first)
            + manage::close_requests(s, later));
    }
}

} // verus!
