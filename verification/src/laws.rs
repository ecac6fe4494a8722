//! What actions, commands, events and sequences keep, and what they achieve
//! together.
use vstd::prelude::*;

use crate::actions;
use crate::connection::{AppModel, PointerOp};
use crate::control;
use crate::control::CommandModel;
use crate::events;
use crate::events::{OutputEvent, WindowEvent, WmEvent};
use crate::invariants;
use crate::pointer;
use crate::search;
use crate::seats;
use crate::seats::SeatEvent;
use crate::state;
use crate::state::{StateModel, Window};
use crate::wm::layout;
use crate::wm::manage;
use crate::wm::render;

verus! {

/// A neighbour in a ring lies in the ring.
proof fn lemma_neighbour(i: int, n: int, forward: bool)
    requires
        0 <= i < n,
    ensures
        0 <= actions::neighbour(i, n, forward) < n,
        actions::neighbour(actions::neighbour(i, n, forward), n, !forward) == i,
{
    if forward {
        if i + 1 == n {
            assert((i + 1) % n == 0) by (nonlinear_arith)
                requires
                    i + 1 == n,
                    n > 0,
            ;
            assert((n - 1) % n == n - 1) by (nonlinear_arith)
                requires
                    n > 0,
            ;
        } else {
            assert((i + 1) % n == i + 1) by (nonlinear_arith)
                requires
                    0 <= i,
                    i + 1 < n,
            ;
            assert((i + n) % n == i) by (nonlinear_arith)
                requires
                    0 <= i < n,
            ;
        }
    } else {
        if i == 0 {
            assert((n - 1) % n == n - 1) by (nonlinear_arith)
                requires
                    n > 0,
            ;
            assert(n % n == 0) by (nonlinear_arith)
                requires
                    n > 0,
            ;
        } else {
            assert((i + n - 1) % n == i - 1) by (nonlinear_arith)
                requires
                    0 < i < n,
            ;
            assert(i % n == i) by (nonlinear_arith)
                requires
                    0 <= i < n,
            ;
        }
    }
}

/// Replacing a window by one with the same identifier and tag keeps the state
/// well formed.
proof fn lemma_with_window(s: StateModel, i: int, w: Window)
    requires
        s.wf(),
        0 <= i < s.windows.len(),
        w.id == s.windows[i].id,
        w.tag == s.windows[i].tag,
    ensures
        s.with_window(i, w).wf(),
{
    invariants::lemma_same_places(s, s.with_window(i, w));
}

/// The index of a window that is found exists.
proof fn lemma_index(s: StateModel, id: u32)
    ensures
        s.window_index(id) matches Some(i) ==> 0 <= i < s.windows.len() && s.windows[i].id == id,
{
    search::lemma_least(s.windows.len() as int, s.has_id(id));
    if let Some(i) = s.window_index(id) {
        assert(s.has_id(id)(i));
    }
}

/// Toggling the focused window keeps the state well formed.
proof fn toggles_keep_wf(d: AppModel)
    requires
        d.state.wf(),
    ensures
        actions::fullscreen_toggled(d).data.state.wf(),
        actions::float_toggled(d).data.state.wf(),
{
    let s = d.state;
    if let Some(o) = s.active_output() {
        if let Some(id) = s.outputs[o as int].focused_window {
            lemma_index(s, id);
        }
    }
    if let Some(i) = actions::focused_index(s) {
        let w = s.windows[i];
        lemma_with_window(s, i, Window { fullscreen: !w.fullscreen, ..w });
        lemma_with_window(s, i, actions::floated(w, actions::own_cell(s, d.config.gap, w)));
        lemma_with_window(s, i, Window { floating: false, ..w });
    }
}

/// Moving the focus between windows or outputs keeps the state well formed.
proof fn cycling_keeps_wf(d: AppModel, forward: bool)
    requires
        d.state.wf(),
    ensures
        actions::focus_cycled(d, forward).data.state.wf(),
        actions::output_cycled(d, forward).data.state.wf(),
{
    let s = d.state;
    if s.outputs.len() > 1 {
        let at = match s.focused_output {
            Some(f) => f as int,
            None => 0,
        };
        lemma_neighbour(at, s.outputs.len() as int, forward);
    }
}

/// Focusing a tag or sending a window to it keeps the state well formed.
proof fn tagging_keeps_wf(d: AppModel, tag: usize)
    requires
        d.state.wf(),
    ensures
        actions::tag_chosen(d, tag).data.state.wf(),
        actions::tag_sent(d, tag).data.state.wf(),
{
    if let Some(o) = d.state.active_output() {
        invariants::focus_tag_keeps_wf(d.state, o, tag);
        invariants::send_keeps_wf(d.state, o, tag);
    }
}

/// Moving the split keeps the state well formed.
proof fn resizing_keeps_wf(d: AppModel, delta: int)
    requires
        d.state.wf(),
    ensures
        actions::split_moved(d, delta).data.state.wf(),
{
    if let Some(o) = d.state.active_output() {
        let tag = d.state.outputs[o as int].active_tag;
        invariants::set_fraction_keeps_wf(d.state, tag, d.state.fraction(tag) + delta);
    }
}

/// Queueing a window to be closed and switching resize mode keep the state well
/// formed.
proof fn switches_keep_wf(d: AppModel)
    requires
        d.state.wf(),
    ensures
        actions::close_queued(d).data.state.wf(),
        actions::resize_mode_set(d, true).data.state.wf(),
        actions::resize_mode_set(d, false).data.state.wf(),
{
}

/// Every action keeps the state well formed.
pub proof fn actions_keep_wf(d: AppModel, action: Seq<char>)
    requires
        d.state.wf(),
    ensures
        actions::action_run(d, action).data.state.wf(),
{
    let arg = actions::action_arg(action);
    let holds = |t: StateModel| t.wf();
    switches_keep_wf(d);
    toggles_keep_wf(d);
    cycling_keeps_wf(d, true);
    cycling_keeps_wf(d, false);
    if let Some(tag) = actions::tag_arg(arg) {
        tagging_keeps_wf(d, tag as usize);
    }
    resizing_keeps_wf(d, d.config.resize_step as int);
    resizing_keeps_wf(d, -d.config.resize_step);
    lemma_acted(d, actions::action_name(action), arg, holds);
    assert(holds(actions::action_run(d, action).data.state));
}

/// What holds of the state after each thing that an action can do holds after
/// the action.
pub proof fn lemma_acted(
    d: AppModel,
    name: Seq<char>,
    arg: Option<Seq<char>>,
    holds: spec_fn(StateModel) -> bool,
)
    requires
        holds(d.state),
        holds(actions::close_queued(d).data.state),
        holds(actions::focus_cycled(d, true).data.state),
        holds(actions::focus_cycled(d, false).data.state),
        actions::tag_arg(arg) matches Some(tag) ==> holds(
            actions::tag_chosen(d, tag as usize).data.state,
        ) && holds(actions::tag_sent(d, tag as usize).data.state),
        holds(actions::fullscreen_toggled(d).data.state),
        holds(actions::float_toggled(d).data.state),
        holds(actions::output_cycled(d, true).data.state),
        holds(actions::output_cycled(d, false).data.state),
        holds(actions::resize_mode_set(d, true).data.state),
        holds(actions::resize_mode_set(d, false).data.state),
        holds(actions::split_moved(d, d.config.resize_step as int).data.state),
        holds(actions::split_moved(d, -d.config.resize_step).data.state),
    ensures
        holds(actions::acted(d, name, arg).data.state),
{
}

/// Every control command keeps the state well formed.
pub proof fn commands_keep_wf(d: AppModel, command: CommandModel)
    requires
        d.state.wf(),
    ensures
        control::command_applied(d, command).data.state.wf(),
{
    let s = d.state;
    match command {
        CommandModel::FocusTag(tag, output) => {
            if let Some(o) = control::target_output(s, output) {
                invariants::focus_tag_keeps_wf(s, o, tag as usize);
            }
        },
        CommandModel::SendToTag(tag) => {
            if let Some(o) = s.active_output() {
                invariants::send_keeps_wf(s, o, tag as usize);
            }
        },
        CommandModel::FocusOutput(name) => {
            search::lemma_least(s.outputs.len() as int, s.has_name(name));
        },
        CommandModel::FocusWindow(app_id, title) => {
            let n = s.windows.len() as int;
            search::lemma_least(n, control::answers_to(s, app_id, title));
            if let Some(i) = search::least(n, control::answers_to(s, app_id, title)) {
                if let Some(o) = s.owner(s.windows[i].tag) {
                    assert(s.tags[s.windows[i].tag as int].output == Some(o));
                }
            }
        },
        _ => {},
    }
}

/// The windows left after some were removed are among those before, in order.
proof fn lemma_without_proxy(windows: Seq<Window>, proxy: u64)
    requires
        forall|i: int, j: int|
            0 <= i < j < windows.len() ==> (#[trigger] windows[i]).id != (
            #[trigger] windows[j]).id,
    ensures
        forall|i: int|
            0 <= i < events::without_proxy(windows, proxy).len() ==> exists|k: int|
                0 <= k < windows.len() && windows[k] == #[trigger] events::without_proxy(
                    windows,
                    proxy,
                )[i],
        forall|i: int, j: int|
            0 <= i < j < events::without_proxy(windows, proxy).len() ==> (
            #[trigger] events::without_proxy(windows, proxy)[i]).id != (
            #[trigger] events::without_proxy(windows, proxy)[j]).id,
    decreases windows.len(),
{
    if windows.len() > 0 {
        let rest = windows.drop_last();
        let before = events::without_proxy(rest, proxy);
        let all = events::without_proxy(windows, proxy);
        lemma_without_proxy(rest, proxy);
        assert forall|i: int| 0 <= i < all.len() implies exists|k: int|
            0 <= k < windows.len() && windows[k] == #[trigger] all[i] by {
            if i < before.len() {
                let k = choose|k: int| 0 <= k < rest.len() && rest[k] == before[i];
                assert(windows[k] == all[i]);
            } else {
                assert(windows[windows.len() - 1] == all[i]);
            }
        }
        assert forall|i: int, j: int| 0 <= i < j < all.len() implies (#[trigger] all[i]).id != (
        #[trigger] all[j]).id by {
            if j == before.len() {
                let k = choose|k: int| 0 <= k < rest.len() && rest[k] == before[i];
                assert(windows[k].id != windows[windows.len() - 1].id);
            } else {
                assert(before[i].id != before[j].id);
            }
        }
    }
}

/// Windows, outputs and seats that appear keep the state well formed.
pub proof fn wm_events_keep_wf(d: AppModel, event: WmEvent)
    requires
        d.state.wf(),
        event is Window ==> d.state.next_window_id < u32::MAX,
        event is Output ==> d.state.outputs.len() < usize::MAX,
    ensures
        events::wm_event(d, event).state.wf(),
{
    let s = d.state;
    match event {
        WmEvent::Window { proxy } => {
            let t = events::window_added(s, proxy);
            assert forall|i: int, j: int| 0 <= i < j < t.windows.len() implies (
            #[trigger] t.windows[i]).id != (#[trigger] t.windows[j]).id by {
                if j == s.windows.len() {
                    assert(s.windows[i].id < s.next_window_id);
                } else {
                    assert(s.windows[i].id != s.windows[j].id);
                }
            }
        },
        WmEvent::Output { proxy, layer } => {
            let o = s.outputs.len();
            let pushed = StateModel { outputs: s.outputs.push(state::new_output(proxy)), ..s };
            assert(pushed.wf());
            invariants::assign_initial_tag_keeps_wf(pushed, o as usize);
            let tagged = pushed.first_tag_assigned(o as usize);
            lemma_output_count(pushed, o as usize);
            let focused = if tagged.focused_output is None {
                StateModel { focused_output: Some(o as usize), ..tagged }
            } else {
                tagged
            };
            assert(focused.wf());
        },
        _ => {},
    }
}

/// Giving an output its first tag neither adds nor removes one.
proof fn lemma_output_count(s: StateModel, o: usize)
    requires
        s.wf(),
        o < s.outputs.len(),
    ensures
        s.first_tag_assigned(o).outputs.len() == s.outputs.len(),
{
    search::lemma_least(s.tags.len() as int, s.unassigned());
    match s.free_tag() {
        Some(t) => {
            let given = s.with_owner(t, Some(o)).with_active(o as int, t as usize);
            assert(given.wf());
            invariants::normalizing_keeps_wf(given);
        },
        None => {
            invariants::normalizing_keeps_wf(s);
        },
    }
}

/// Events of windows keep the state well formed.
pub proof fn window_events_keep_wf(d: AppModel, proxy: u64, event: WindowEvent)
    requires
        d.state.wf(),
    ensures
        events::window_event(d, proxy, event).state.wf(),
{
    let s = d.state;
    if let Some(id) = s.window_by_proxy(proxy) {
        let n = s.windows.len() as int;
        search::lemma_least(n, s.has_proxy(proxy));
        let k = search::least(n, s.has_proxy(proxy))->0;
        invariants::window_is_found_by_id(s, k);
        match event {
            WindowEvent::Closed => {
                lemma_without_proxy(s.windows, proxy);
                let t = events::window_event(d, proxy, event).state;
                assert forall|i: int| 0 <= i < t.windows.len() implies (
                #[trigger] t.windows[i]).tag < state::NUM_TAGS && t.windows[i].id
                    < t.next_window_id by {
                    let m = choose|m: int| 0 <= m < n && s.windows[m] == t.windows[i];
                    assert(s.windows[m].tag < state::NUM_TAGS);
                }
            },
            WindowEvent::AppId { app_id } => {
                lemma_with_window(s, k, events::identified(d, s.windows[k], app_id));
            },
            WindowEvent::Title { title } => {
                lemma_with_window(s, k, Window { title, ..s.windows[k] });
            },
            WindowEvent::Dimensions { width, height } => {
                lemma_with_window(
                    s,
                    k,
                    Window { width: width as u32, height: height as u32, ..s.windows[k] },
                );
            },
        }
    }
}

/// Repairing the outputs keeps the state well formed.
proof fn repairing_keeps_wf(s: StateModel)
    requires
        s.wf(),
    ensures
        s.normalized().wf(),
        s.normalized().floats_clamped().wf(),
{
    invariants::normalizing_keeps_wf(s);
    invariants::clamping_keeps_wf(s.normalized());
}

/// Events of outputs keep the state well formed, before and after floating
/// windows are brought back inside.
pub proof fn output_events_keep_wf(s: StateModel, proxy: u64, event: OutputEvent)
    requires
        s.wf(),
    ensures
        events::output_event(s, proxy, event).wf(),
        events::output_by_proxy(s, proxy) matches Some(o) ==> events::output_changed(
            s,
            o,
            event,
        ).normalized().wf(),
{
    search::lemma_least(s.outputs.len() as int, events::output_has_proxy(s, proxy));
    if let Some(o) = events::output_by_proxy(s, proxy) {
        if event is Removed {
            invariants::dropping_keeps_wf(s, o);
        }
        repairing_keeps_wf(events::output_changed(s, o, event));
    }
}

/// Areas that panels leave free keep the state well formed, before and after
/// floating windows are brought inside.
pub proof fn area_events_keep_wf(
    s: StateModel,
    layer: u64,
    x: i32,
    y: i32,
    width: i32,
    height: i32,
)
    requires
        s.wf(),
    ensures
        events::area_known(s, layer, x, y, width, height).wf(),
        events::output_by_layer(s, layer) matches Some(o) ==> events::area_changed(
            s,
            o,
            x,
            y,
            width,
            height,
        ).normalized().wf(),
{
    search::lemma_least(s.outputs.len() as int, events::output_has_layer(s, layer));
    if let Some(o) = events::output_by_layer(s, layer) {
        repairing_keeps_wf(events::area_changed(s, o, x, y, width, height));
    }
}

/// Connector names keep the state well formed.
pub proof fn output_names_keep_wf(s: StateModel, global: u32, name: String)
    requires
        s.wf(),
    ensures
        events::output_named(s, global, name).wf(),
{
    search::lemma_least(s.outputs.len() as int, events::output_has_global(s, global));
}

/// When an output is moved, resized or removed, every floating window ends up
/// inside the area of its output.
pub proof fn output_changes_keep_floats_inside(s: StateModel, proxy: u64, event: OutputEvent)
    requires
        events::output_by_proxy(s, proxy) is Some,
        !(event is WlOutput),
    ensures
        invariants::floats_inside(events::output_event(s, proxy, event)),
{
    let o = events::output_by_proxy(s, proxy)->0;
    invariants::clamped_floats_lie_inside(events::output_changed(s, o, event).normalized());
}

/// When panels leave another area free on an output, every floating window ends
/// up inside the area of its output.
pub proof fn area_changes_keep_floats_inside(
    s: StateModel,
    layer: u64,
    x: i32,
    y: i32,
    width: i32,
    height: i32,
)
    requires
        events::output_by_layer(s, layer) is Some,
    ensures
        invariants::floats_inside(events::area_known(s, layer, x, y, width, height)),
{
    let o = events::output_by_layer(s, layer)->0;
    invariants::clamped_floats_lie_inside(
        events::area_changed(s, o, x, y, width, height).normalized(),
    );
}

/// Events of seats keep the state well formed.
pub proof fn seat_events_keep_wf(d: AppModel, proxy: u64, event: SeatEvent)
    requires
        d.state.wf(),
    ensures
        seats::seat_event(d, proxy, event).state.wf(),
{
    let s = d.state;
    match event {
        SeatEvent::PointerEnter { window } => {
            if let Some(id) = s.window_by_proxy(window) {
                picking_keeps_wf(seats::pointer_over(s, proxy, Some(id)), id);
            }
        },
        SeatEvent::WindowInteraction { window } => {
            if let Some(id) = s.window_by_proxy(window) {
                picking_keeps_wf(s, id);
            }
        },
        SeatEvent::PointerPosition { x, y } => {
            search::lemma_least(s.outputs.len() as int, seats::under_point(s, x, y));
        },
        SeatEvent::OpDelta { dx, dy } => {
            if let Some(op) = d.pointer_op {
                lemma_index(s, op.window);
                if let Some(i) = s.window_index(op.window) {
                    lemma_with_window(s, i, pointer::dragged(s.windows[i], op, dx, dy));
                }
            }
        },
        _ => {},
    }
}

/// Moving the focus to a window keeps the state well formed.
proof fn picking_keeps_wf(s: StateModel, id: u32)
    requires
        s.wf(),
    ensures
        seats::window_picked(s, id).wf(),
{
    lemma_index(s, id);
    if let Some(i) = s.window_index(id) {
        let tag = s.windows[i].tag;
        if let Some(o) = s.owner(tag) {
            if o < s.outputs.len() {
                let focused = StateModel { focused_output: Some(o), ..s }.with_focus(
                    o as int,
                    Some(id),
                );
                assert(focused.wf());
                invariants::switch_keeps_wf(focused, o, tag);
            }
        }
    }
}

/// A window that the pointer moved the focus to is visible and focused, on the
/// focused output.
pub proof fn picked_window_is_focused(s: StateModel, i: int)
    requires
        s.wf(),
        0 <= i < s.windows.len(),
        s.owner(s.windows[i].tag) is Some,
    ensures
        ({
            let t = seats::window_picked(s, s.windows[i].id);
            let o = s.owner(s.windows[i].tag)->0;
            &&& t.focused_output == Some(o)
            &&& t.outputs[o as int].focused_window == Some(s.windows[i].id)
            &&& t.visible(t.windows[i])
            &&& t.windows[i].id == s.windows[i].id
        }),
{
    let w = s.windows[i];
    let id = w.id;
    let o = s.owner(w.tag)->0;
    assert(s.tags[w.tag as int].output == Some(o));
    invariants::window_is_found_by_id(s, i);
    let focused = StateModel { focused_output: Some(o), ..s }.with_focus(o as int, Some(id));
    let left = focused.outputs[o as int].active_tag;
    let shown = focused.with_active(o as int, w.tag);
    let cleared = if left != w.tag {
        shown.without_fullscreen(left)
    } else {
        shown
    };
    assert(cleared.wf()) by {
        assert(shown.wf());
        invariants::lemma_same_places(shown, cleared);
    }
    invariants::window_is_found_by_id(cleared, i);
    assert(cleared.windows[i].id == id);
    assert(cleared.shows(o as int, cleared.windows[i]));
}

/// A manage sequence keeps the state well formed.
pub proof fn manage_keeps_wf(d: AppModel)
    requires
        d.state.wf(),
    ensures
        manage::manage_plan(d).data.state.wf(),
{
    let s = manage::all_refocused(d.state);
    manage::lemma_all_refocused(d.state, d.config.gap);
    let ready = manage::all_prepared(s, d.config.use_ssd);
    invariants::lemma_same_places(s, ready);
    let list = layout::layout(s, d.config.gap);
    let cells = manage::cells_proposed(ready, list).0;
    lemma_proposed_places(ready, list);
    invariants::lemma_same_places(ready, cells);
    invariants::lemma_same_places(cells, manage::floats_proposed(cells));
}

/// Proposing cells keeps identifiers and tags of all windows.
pub proof fn lemma_proposed_places(s: StateModel, list: Seq<(u32, layout::Geometry)>)
    ensures
        ({
            let t = manage::cells_proposed(s, list).0;
            &&& t == (StateModel { windows: t.windows, ..s })
            &&& t.windows.len() == s.windows.len()
            &&& forall|i: int|
                0 <= i < s.windows.len() ==> (#[trigger] t.windows[i]).id == s.windows[i].id
                    && t.windows[i].tag == s.windows[i].tag
        }),
    decreases list.len(),
{
    if list.len() > 0 {
        lemma_proposed_places(s, list.drop_last());
        let before = manage::cells_proposed(s, list.drop_last()).0;
        lemma_index(before, list.last().0);
    }
}

/// A render sequence keeps the state well formed.
pub proof fn render_keeps_wf(d: AppModel)
    requires
        d.state.wf(),
    ensures
        render::render_plan(d).data.state.wf(),
{
    invariants::lemma_same_places(d.state, render::nodes_made(d.state));
}

/// The windows among which the focus moves on output `o`.
pub open spec fn ring(s: StateModel, o: int) -> Seq<u32> {
    layout::ids_where(s.windows, layout::tiled_on(s, o))
}

/// An identifier stands only where it stands.
pub proof fn lemma_only_place(ids: Seq<u32>, i: int)
    requires
        0 <= i < ids.len(),
        forall|a: int, b: int|
            0 <= a < b < ids.len() ==> #[trigger] ids[a] != #[trigger] ids[b],
    ensures
        search::least(ids.len() as int, layout::stands_at(ids, ids[i])) == Some(i),
{
    let n = ids.len() as int;
    assert(layout::stands_at(ids, ids[i])(i));
    search::lemma_least_some(n, layout::stands_at(ids, ids[i]), i);
    let k = search::least(n, layout::stands_at(ids, ids[i]))->0;
    assert(layout::stands_at(ids, ids[i])(k));
    assert(ids[k] == ids[i]);
}

/// Moving the focus along the tiled windows and back again returns to the
/// window that it started from, in either direction.
pub proof fn cycling_back_returns(d: AppModel, forward: bool, i: int)
    requires
        d.state.wf(),
        d.state.active_output() is Some,
        0 <= i < ring(d.state, d.state.active_output()->0 as int).len(),
        d.state.outputs[d.state.active_output()->0 as int].focused_window == Some(
            ring(d.state, d.state.active_output()->0 as int)[i],
        ),
    ensures
        actions::focus_cycled(actions::focus_cycled(d, forward).data, !forward).data == d,
{
    let o = d.state.active_output()->0 as int;
    let ids = ring(d.state, o);
    let n = ids.len() as int;
    let e = actions::focus_cycled(d, forward).data;
    layout::lemma_ids_distinct(d.state.windows, layout::tiled_on(d.state, o));
    lemma_only_place(ids, i);
    lemma_neighbour(i, n, forward);
    let j = actions::neighbour(i, n, forward);
    assert(e.state.outputs[o].focused_window == Some(ids[j]));
    assert(layout::tiled_on(e.state, o) =~= layout::tiled_on(d.state, o));
    assert(ring(e.state, o) == ids);
    lemma_only_place(ids, j);
    assert(actions::focus_cycled(e, !forward).data =~= d);
    assert(actions::focus_cycled(e, !forward).data.state.outputs =~= d.state.outputs);
}

/// The focus moves to a window that is tiled on the active output.
pub proof fn cycling_focuses_a_tiled_window(d: AppModel, forward: bool)
    requires
        d.state.wf(),
        d.state.active_output() is Some,
        ring(d.state, d.state.active_output()->0 as int).len() > 0,
    ensures
        ({
            let o = d.state.active_output()->0 as int;
            let e = actions::focus_cycled(d, forward).data.state;
            exists|i: int|
                0 <= i < e.windows.len() && e.outputs[o].focused_window == Some(
                    (#[trigger] e.windows[i]).id,
                ) && e.shows(o, e.windows[i]) && !e.windows[i].floating
        }),
{
    let o = d.state.active_output()->0 as int;
    let ids = ring(d.state, o);
    let n = ids.len() as int;
    let e = actions::focus_cycled(d, forward).data.state;
    let at = match d.state.outputs[o].focused_window {
        Some(id) => match search::least(n, layout::stands_at(ids, id)) {
            Some(i) => {
                search::lemma_least(n, layout::stands_at(ids, id));
                i
            },
            None => 0,
        },
        None => 0,
    };
    lemma_neighbour(at, n, forward);
    let id = ids[actions::neighbour(at, n, forward)];
    assert(ids.contains(id));
    layout::lemma_ids_where(d.state.windows, layout::tiled_on(d.state, o), id);
    let i = choose|i: int|
        0 <= i < d.state.windows.len() && layout::tiled_on(d.state, o)(
            #[trigger] d.state.windows[i],
        ) && d.state.windows[i].id == id;
    assert(e.windows[i] == d.state.windows[i]);
    assert(e.shows(o, e.windows[i]));
}

/// Moving the focus to the next output and back again returns to the output
/// that it started from, in either direction.
pub proof fn cycling_outputs_back_returns(d: AppModel, forward: bool)
    requires
        d.state.wf(),
        d.state.focused_output is Some,
        d.state.outputs.len() > 1,
    ensures
        actions::output_cycled(actions::output_cycled(d, forward).data, !forward).data.state
            == d.state,
{
    lemma_neighbour(d.state.focused_output->0 as int, d.state.outputs.len() as int, forward);
}

/// Toggling fullscreen twice changes nothing.
pub proof fn fullscreen_toggles_back(d: AppModel)
    requires
        d.state.wf(),
    ensures
        actions::fullscreen_toggled(actions::fullscreen_toggled(d).data).data == d,
{
    let s = d.state;
    if let Some(o) = s.active_output() {
        if let Some(id) = s.outputs[o as int].focused_window {
            lemma_index(s, id);
            if let Some(i) = s.window_index(id) {
                let e = actions::fullscreen_toggled(d).data;
                invariants::window_is_found_by_id(s, i);
                toggles_keep_wf(d);
                invariants::window_is_found_by_id(e.state, i);
                let f = actions::fullscreen_toggled(e).data;
                assert(f.state.windows =~= s.windows);
                assert(f =~= d);
            }
        }
    }
}

/// A tiled window that starts to float takes the place and size that the layout
/// of the outputs gives it, whichever output shows it. No other window changes,
/// and another toggle tiles the window again.
pub proof fn floating_window_keeps_its_cell(d: AppModel, i: int, k: int)
    requires
        d.state.wf(),
        actions::focused_index(d.state) == Some(i),
        !d.state.windows[i].floating,
        layout::layout_fits(d.state, d.config.gap),
        0 <= k < layout::layout(d.state, d.config.gap).len(),
        layout::layout(d.state, d.config.gap)[k].0 == d.state.windows[i].id,
    ensures
        ({
            let cell = layout::layout(d.state, d.config.gap)[k].1;
            let e = actions::float_toggled(d).data;
            let w = e.state.windows[i];
            &&& w == Window {
                floating: true,
                float_x: cell.x,
                float_y: cell.y,
                float_w: cell.width,
                float_h: cell.height,
                ..d.state.windows[i]
            }
            &&& e == d.with_state(d.state.with_window(i, w))
            &&& !actions::float_toggled(e).data.state.windows[i].floating
        }),
{
    let s = d.state;
    let gap = d.config.gap;
    let id = s.windows[i].id;
    let focused = s.outputs[s.active_output()->0 as int].focused_window->0;
    lemma_index(s, focused);
    let (o, m) = layout::lemma_layout_entry(s, s.outputs.len() as int, gap, k);
    let list = layout::output_layout(s, o, gap);
    let n = list.len() as int;
    let keep = layout::tiled_on(s, o);
    let ids = layout::ids_where(s.windows, keep);
    assert(layout::laid_out_on(s, o, gap, id));
    layout::shown_tiled_windows_are_laid_out(s, o, gap, i);
    assert(s.owner(s.windows[i].tag) == Some(o as usize));
    layout::lemma_ids_distinct(s.windows, keep);
    layout::lemma_fronted_distinct(ids, s.outputs[o].focused_window);
    assert(actions::placed(list, id)(m));
    search::lemma_least_some(n, actions::placed(list, id), m);
    let j = search::least(n, actions::placed(list, id))->0;
    assert(actions::placed(list, id)(j));
    assert(layout::visible_ids(s, o)[j] == layout::visible_ids(s, o)[m]);
    assert(j == m);
    let e = actions::float_toggled(d).data;
    toggles_keep_wf(d);
    invariants::window_is_found_by_id(s, i);
    invariants::window_is_found_by_id(e.state, i);
}

/// A new window is focused on the output where it lands, and visible there if
/// the output owns the tag that it shows.
pub proof fn new_window_is_focused(s: StateModel, proxy: u64)
    requires
        s.wf(),
        s.next_window_id < u32::MAX,
        s.outputs.len() > 0,
    ensures
        ({
            let o = events::landing_output(s);
            let t = events::window_added(s, proxy);
            let w = t.windows.last();
            &&& w.proxy == proxy
            &&& t.outputs[o].focused_window == Some(w.id)
            &&& w.tag == s.outputs[o].active_tag
            &&& s.owner(w.tag) == Some(o as usize) ==> t.visible(w) && t.refocused(o) == t
        }),
{
    let o = events::landing_output(s);
    let t = events::window_added(s, proxy);
    let n = s.windows.len() as int;
    let w = t.windows[n];
    if s.owner(w.tag) == Some(o as usize) {
        assert forall|i: int, j: int| 0 <= i < j < t.windows.len() implies (
        #[trigger] t.windows[i]).id != (#[trigger] t.windows[j]).id by {
            if j == n {
                assert(s.windows[i].id < s.next_window_id);
            } else {
                assert(s.windows[i].id != s.windows[j].id);
            }
        }
        assert(t.has_id(w.id)(n));
        search::lemma_least_some(t.windows.len() as int, t.has_id(w.id), n);
        let k = t.window_index(w.id)->0;
        assert(t.has_id(w.id)(k));
        assert(t.windows[k].id == t.windows[n].id);
        assert(t.shows(o, t.windows[n]));
        assert(t.refocused(o).outputs =~= t.outputs);
    }
}

/// A new window has an identifier of at least 1 that no window had before, on
/// the tag that its output shows, or the first if there is no output. It starts
/// out tiled, with a floating size to start from and nothing sent for it yet, and
/// no other window changes.
pub proof fn new_window_starts_plain(s: StateModel, proxy: u64)
    requires
        s.wf(),
        s.next_window_id < u32::MAX,
    ensures
        ({
            let t = events::window_added(s, proxy);
            let w = t.windows.last();
            let o = events::landing_output(s);
            &&& t.windows.drop_last() == s.windows
            &&& 1 <= w.id < t.next_window_id
            &&& forall|i: int|
                0 <= i < s.windows.len() ==> (#[trigger] s.windows[i]).id < w.id
            &&& w.proxy == proxy
            &&& w.tag == (if o < s.outputs.len() {
                s.outputs[o].active_tag
            } else {
                0
            })
            &&& !w.floating && !w.fullscreen && !w.minimized
            &&& (w.float_x, w.float_y, w.float_w, w.float_h) == (0i32, 0i32, 400u32, 300u32)
            &&& w.app_id is None && w.title is None && w.parent is None
            &&& !w.caps_set && !w.node && !w.fullscreen_applied
            &&& w.ssd_applied is None && w.tiled_applied is None
            &&& w.proposed_dimensions is None && w.border_applied is None
        }),
{
    let t = events::window_added(s, proxy);
    assert(t.windows.drop_last() =~= s.windows);
}

/// A window that is never tiled starts out inside the area of its output, as
/// far from one edge as from the other, give or take a pixel, if it fits.
pub proof fn launched_window_is_centered(s: StateModel, w: Window, area: (i32, i32, u32, u32))
    requires
        !w.floating,
        s.float_area(w) == Some(area),
        w.float_w <= area.2,
        w.float_h <= area.3,
        layout::fits(area.0 + area.2),
        layout::fits(area.1 + area.3),
    ensures
        ({
            let r = events::auto_floated(s, w);
            let left = r.float_x - area.0;
            let right = area.0 + area.2 - (r.float_x + r.float_w);
            let top = r.float_y - area.1;
            let bottom = area.1 + area.3 - (r.float_y + r.float_h);
            &&& r.floating
            &&& 0 <= left <= right <= left + 1
            &&& 0 <= top <= bottom <= top + 1
        }),
{
}

/// A move shifts a window by exactly as much as the pointer has moved since it
/// started and leaves its size, a resize changes the size by as much, down to
/// the least size, and leaves its place. A pointer that has not moved, or is
/// back where it was, leaves the place and the size that the window had at the
/// start.
pub proof fn drags_are_relative(w: Window, op: PointerOp, dx: i32, dy: i32)
    requires
        pointer::drag_fits(op, dx, dy),
    ensures
        ({
            let v = pointer::dragged(w, op, dx, dy);
            &&& op.kind is Move ==> v.float_x == op.start_float_x + dx && v.float_y
                == op.start_float_y + dy && v.float_w == w.float_w && v.float_h == w.float_h
            &&& op.kind is Resize ==> v.float_w >= pointer::MIN_FLOAT_SIZE && v.float_h
                >= pointer::MIN_FLOAT_SIZE && v.float_x == w.float_x && v.float_y == w.float_y
            &&& op.kind is Resize && pointer::MIN_FLOAT_SIZE <= op.start_w + dx && op.start_w
                <= i32::MAX ==> v.float_w == op.start_w + dx
            &&& op.kind is Resize && pointer::MIN_FLOAT_SIZE <= op.start_h + dy && op.start_h
                <= i32::MAX ==> v.float_h == op.start_h + dy
            &&& dx == 0 && dy == 0 && op.kind is Move ==> v.float_x == op.start_float_x
                && v.float_y == op.start_float_y
            &&& dx == 0 && dy == 0 && op.kind is Resize && pointer::MIN_FLOAT_SIZE <= op.start_w
                <= i32::MAX && pointer::MIN_FLOAT_SIZE <= op.start_h <= i32::MAX ==> v.float_w
                == op.start_w && v.float_h == op.start_h
        }),
{
}

/// Only resize mode lets the step actions change anything, and they change the
/// master fraction of no tag but the one shown on the active output.
pub proof fn resizing_is_modal_and_per_tag(d: AppModel, delta: int, tag: int)
    requires
        d.state.wf(),
        0 <= tag < d.state.tags.len(),
        d.state.active_output() is Some,
        tag != d.state.outputs[d.state.active_output()->0 as int].active_tag,
    ensures
        actions::split_moved(d, delta).data.state.tags[tag] == d.state.tags[tag],
        !d.state.resize_mode ==> actions::split_moved(d, delta) == actions::unchanged(d),
{
}

/// Focusing a tag that another output owns moves the focus to that output, and
/// the pointer with it; focusing any other tag leaves both where they are.
pub proof fn pointer_follows_across_outputs(d: AppModel, tag: usize)
    requires
        d.state.wf(),
        d.state.active_output() is Some,
        tag < state::NUM_TAGS,
    ensures
        ({
            let o = d.state.active_output()->0;
            let e = actions::tag_chosen(d, tag).data;
            match d.state.owner(tag) {
                Some(owner) => if owner != o {
                    e.state.focused_output == Some(owner) && e.pending_pointer_warp == Some(owner)
                } else {
                    e.state.focused_output == d.state.focused_output && e.pending_pointer_warp is None
                },
                None => e.state.focused_output == d.state.focused_output
                    && e.pending_pointer_warp is None,
            }
        }),
{
    invariants::focused_tag_is_shown_on_its_owner(d.state, d.state.active_output()->0, tag);
}

} // verus!
