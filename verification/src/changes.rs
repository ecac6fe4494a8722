//! What the events of windows, outputs and seats change, field by field, and
//! what they leave.
use vstd::prelude::*;

use crate::connection::AppModel;
use crate::events;
use crate::events::{OutputEvent, WindowEvent, WmEvent};
use crate::invariants;
use crate::laws;
use crate::pointer;
use crate::search;
use crate::seats;
use crate::seats::SeatEvent;
use crate::state;
use crate::state::{Output, Seat, StateModel, Window};
use crate::wm::layout;

verus! {

/// Whether the window at index `i` is the first with protocol handle `proxy`.
pub open spec fn is_window(s: StateModel, proxy: u64, i: int) -> bool {
    &&& 0 <= i < s.windows.len()
    &&& s.windows[i].proxy == proxy
    &&& forall|j: int| 0 <= j < i ==> (#[trigger] s.windows[j]).proxy != proxy
}

/// The first window with a protocol handle is the one that is found by it.
proof fn lemma_window(s: StateModel, proxy: u64, i: int)
    requires
        s.wf(),
        is_window(s, proxy, i),
    ensures
        s.window_by_proxy(proxy) == Some(s.windows[i].id),
        s.window_index(s.windows[i].id) == Some(i),
{
    let holds = s.has_proxy(proxy);
    assert(holds(i));
    assert forall|j: int| 0 <= j < i implies !(#[trigger] holds(j)) by {
        assert(s.windows[j].proxy != proxy);
    }
    assert(search::is_least(s.windows.len() as int, holds, i));
    search::lemma_least_is(s.windows.len() as int, holds, i);
    invariants::window_is_found_by_id(s, i);
}

/// Without a window with the protocol handle, none is found.
proof fn lemma_no_window(s: StateModel, proxy: u64)
    requires
        forall|j: int| 0 <= j < s.windows.len() ==> (#[trigger] s.windows[j]).proxy != proxy,
    ensures
        s.window_by_proxy(proxy) is None,
{
    assert forall|j: int| 0 <= j < s.windows.len() implies !(#[trigger] s.has_proxy(proxy)(j)) by {
        assert(s.windows[j].proxy != proxy);
    }
    search::lemma_least_none(s.windows.len() as int, s.has_proxy(proxy));
}

/// A title, and dimensions, are those of the window that the event is for, each
/// in its place; nothing else changes.
pub proof fn titles_and_dimensions_are_recorded(
    d: AppModel,
    proxy: u64,
    i: int,
    title: Option<String>,
    width: i32,
    height: i32,
)
    requires
        d.state.wf(),
        is_window(d.state, proxy, i),
        width >= 0,
        height >= 0,
    ensures
        ({
            let s = d.state;
            let named = events::window_event(d, proxy, WindowEvent::Title { title });
            let sized = events::window_event(d, proxy, WindowEvent::Dimensions { width, height });
            let v = named.state.windows[i];
            let w = sized.state.windows[i];
            &&& named == d.with_state(StateModel { windows: s.windows.update(i, v), ..s })
            &&& v == (Window { title: v.title, ..s.windows[i] })
            &&& v.title == title
            &&& sized == d.with_state(StateModel { windows: s.windows.update(i, w), ..s })
            &&& w == (Window { width: w.width, height: w.height, ..s.windows[i] })
            &&& w.width == width
            &&& w.height == height
        }),
{
    lemma_window(d.state, proxy, i);
}

/// An application id is that of the window that the event is for. A window of an
/// application that always floats floats from then on; one that starts to is
/// centered in the usable area of its output, as far from one edge as from the
/// other, give or take a pixel, where it fits there. Nothing else changes.
pub proof fn application_ids_are_recorded(
    d: AppModel,
    proxy: u64,
    i: int,
    app_id: Option<String>,
    o: usize,
)
    requires
        d.state.wf(),
        is_window(d.state, proxy, i),
        d.state.tags[d.state.windows[i].tag as int].output == Some(o),
    ensures
        ({
            let s = d.state;
            let w = s.windows[i];
            let e = events::window_event(d, proxy, WindowEvent::AppId { app_id });
            let v = e.state.windows[i];
            let floats = app_id is Some && exists|k: int|
                0 <= k < d.config.floating_app_ids@.len() && (
                #[trigger] d.config.floating_app_ids@[k])@ == app_id->0@;
            let output = s.outputs[o as int];
            let left = v.float_x - output.usable_x;
            let right = output.usable_x + output.usable_width - (v.float_x + v.float_w);
            let top = v.float_y - output.usable_y;
            let bottom = output.usable_y + output.usable_height - (v.float_y + v.float_h);
            &&& e == d.with_state(StateModel { windows: s.windows.update(i, v), ..s })
            &&& v == (Window {
                app_id: v.app_id,
                floating: v.floating,
                float_x: v.float_x,
                float_y: v.float_y,
                ..w
            })
            &&& v.app_id == app_id
            &&& v.floating == (w.floating || floats)
            &&& w.floating || !floats ==> v.float_x == w.float_x && v.float_y == w.float_y
            &&& floats && !w.floating && output.usable_width > 0 && output.usable_height > 0
                && w.float_w <= output.usable_width && w.float_h <= output.usable_height
                && layout::fits(output.usable_x + output.usable_width) && layout::fits(
                output.usable_y + output.usable_height,
            ) ==> 0 <= left <= right <= left + 1 && 0 <= top <= bottom <= top + 1
        }),
{
    lemma_window(d.state, proxy, i);
    let w = d.state.windows[i];
    let area = state::usable_area(d.state.outputs[o as int]);
    assert(d.state.owner(w.tag) == Some(o));
}

/// Of windows with a property, in order, those are left that do not have the
/// handle.
proof fn lemma_left(windows: Seq<Window>, proxy: u64, w: Window)
    ensures
        events::without_proxy(windows, proxy).contains(w) <==> windows.contains(w) && w.proxy
            != proxy,
        layout::ids_where(events::without_proxy(windows, proxy), |v: Window| true)
            == layout::ids_where(windows, |v: Window| v.proxy != proxy),
    decreases windows.len(),
{
    let left = events::without_proxy(windows, proxy);
    if windows.len() > 0 {
        let rest = windows.drop_last();
        let before = events::without_proxy(rest, proxy);
        lemma_left(rest, proxy, w);
        if windows.last().proxy != proxy {
            assert(left.drop_last() =~= before);
            assert(left[left.len() - 1] == windows.last());
        }
        if windows.contains(w) {
            let k = choose|k: int| 0 <= k < windows.len() && windows[k] == w;
            if k < rest.len() {
                assert(rest[k] == w);
            }
        }
        if rest.contains(w) {
            let k = choose|k: int| 0 <= k < rest.len() && rest[k] == w;
            assert(windows[k] == w);
        }
        if before.contains(w) {
            let k = choose|k: int| 0 <= k < before.len() && before[k] == w;
            assert(left[k] == w);
        }
        if left.contains(w) {
            let k = choose|k: int| 0 <= k < left.len() && left[k] == w;
            if k < before.len() {
                assert(before[k] == w);
            }
        }
        assert(windows[windows.len() - 1] == windows.last());
    }
}

/// A window that is closed is gone, and no other; those that are left keep their
/// order. Nothing else changes.
pub proof fn closed_windows_are_gone(d: AppModel, proxy: u64, w: Window)
    requires
        d.state.wf(),
    ensures
        ({
            let s = d.state;
            let e = events::window_event(d, proxy, WindowEvent::Closed);
            &&& e == d.with_state(StateModel { windows: e.state.windows, ..s })
            &&& e.state.windows.contains(w) <==> s.windows.contains(w) && w.proxy != proxy
            &&& layout::ids_where(e.state.windows, |v: Window| true) == layout::ids_where(
                s.windows,
                |v: Window| v.proxy != proxy,
            )
        }),
{
    let s = d.state;
    lemma_left(s.windows, proxy, w);
    search::lemma_least(s.windows.len() as int, s.has_proxy(proxy));
    if s.window_by_proxy(proxy) is None {
        assert forall|k: int| 0 <= k < s.windows.len() implies (#[trigger] s.windows[k]).proxy
            != proxy by {
            assert(!s.has_proxy(proxy)(k));
        }
        lemma_all_left(s.windows, proxy);
    }
}

/// Where no window has the handle, all are left.
proof fn lemma_all_left(windows: Seq<Window>, proxy: u64)
    requires
        forall|k: int| 0 <= k < windows.len() ==> (#[trigger] windows[k]).proxy != proxy,
    ensures
        events::without_proxy(windows, proxy) == windows,
    decreases windows.len(),
{
    if windows.len() > 0 {
        let rest = windows.drop_last();
        assert forall|k: int| 0 <= k < rest.len() implies (#[trigger] rest[k]).proxy != proxy by {
            assert(rest[k] == windows[k]);
        }
        lemma_all_left(rest, proxy);
        assert(windows[windows.len() - 1].proxy != proxy);
        assert(events::without_proxy(windows, proxy) =~= windows);
    } else {
        assert(windows =~= Seq::empty());
    }
}

/// An event of a window that is not there changes nothing.
pub proof fn events_of_unknown_windows_change_nothing(
    d: AppModel,
    proxy: u64,
    event: WindowEvent,
)
    requires
        forall|j: int|
            0 <= j < d.state.windows.len() ==> (#[trigger] d.state.windows[j]).proxy != proxy,
    ensures
        events::window_event(d, proxy, event) == d,
{
    lemma_no_window(d.state, proxy);
}

/// Whether the output at index `o` is the first with protocol handle `proxy`.
pub open spec fn is_output(s: StateModel, proxy: u64, o: int) -> bool {
    &&& 0 <= o < s.outputs.len()
    &&& s.outputs[o].proxy == proxy
    &&& forall|j: int| 0 <= j < o ==> (#[trigger] s.outputs[j]).proxy != proxy
}

/// The first output with a protocol handle is the one that is found by it.
proof fn lemma_output(s: StateModel, proxy: u64, o: int)
    requires
        is_output(s, proxy, o),
    ensures
        events::output_by_proxy(s, proxy) == Some(o),
{
    let holds = events::output_has_proxy(s, proxy);
    assert(holds(o));
    assert forall|j: int| 0 <= j < o implies !(#[trigger] holds(j)) by {
        assert(s.outputs[j].proxy != proxy);
    }
    assert(search::is_least(s.outputs.len() as int, holds, o));
    search::lemma_least_is(s.outputs.len() as int, holds, o);
}

/// An event changes the geometry of an output as it says: its position, or its
/// size; the area that panels leave free follows only while it is not known.
/// Other outputs stay where they are, and no window changes its tag or size.
pub proof fn output_geometry_is_recorded(
    s: StateModel,
    proxy: u64,
    o: int,
    x: i32,
    y: i32,
    width: i32,
    height: i32,
    p: int,
)
    requires
        s.wf(),
        is_output(s, proxy, o),
        width >= 0,
        height >= 0,
        0 <= p < s.outputs.len(),
    ensures
        ({
            let moved = events::output_event(s, proxy, OutputEvent::Position { x, y });
            let sized = events::output_event(s, proxy, OutputEvent::Dimensions { width, height });
            let a = s.outputs[o];
            let b = moved.outputs[o];
            let c = sized.outputs[o];
            let unknown = a.usable_width == 0 && a.usable_height == 0;
            &&& moved.outputs.len() == s.outputs.len()
            &&& sized.outputs.len() == s.outputs.len()
            &&& (b.x, b.y, b.width, b.height) == (x, y, a.width, a.height)
            &&& (b.usable_width, b.usable_height) == (a.usable_width, a.usable_height)
            &&& (b.usable_x, b.usable_y) == (if unknown {
                (x, y)
            } else {
                (a.usable_x, a.usable_y)
            })
            &&& c.x == a.x && c.y == a.y && c.width == width && c.height == height
            &&& (c.usable_x, c.usable_y) == (a.usable_x, a.usable_y)
            &&& unknown ==> c.usable_width == width && c.usable_height == height
            &&& !unknown ==> c.usable_width == a.usable_width && c.usable_height == a.usable_height
            &&& p != o ==> invariants::same_geometry(moved.outputs[p], s.outputs[p])
                && invariants::same_geometry(sized.outputs[p], s.outputs[p])
            &&& b.proxy == proxy && b.name == a.name && b.layer == a.layer
            &&& c.proxy == proxy && c.name == a.name && c.layer == a.layer
        }),
{
    lemma_output(s, proxy, o);
    let moved = events::output_changed(s, o, OutputEvent::Position { x, y });
    let sized = events::output_changed(s, o, OutputEvent::Dimensions { width, height });
    invariants::normalizing_keeps_wf(moved);
    invariants::normalizing_keeps_wf(sized);
    assert(invariants::same_geometry(moved.normalized().outputs[o], moved.outputs[o]));
    assert(invariants::same_geometry(sized.normalized().outputs[o], sized.outputs[o]));
    assert(invariants::same_geometry(moved.normalized().outputs[p], moved.outputs[p]));
    assert(invariants::same_geometry(sized.normalized().outputs[p], sized.outputs[p]));
}

/// The area that panels leave free on an output is recorded for the output with
/// the layer-shell object, without negative sizes; other outputs keep theirs.
pub proof fn free_area_is_recorded(
    s: StateModel,
    layer: u64,
    o: int,
    x: i32,
    y: i32,
    width: i32,
    height: i32,
    p: int,
)
    requires
        s.wf(),
        0 <= o < s.outputs.len(),
        s.outputs[o].layer == Some(layer),
        forall|j: int| 0 <= j < o ==> (#[trigger] s.outputs[j]).layer != Some(layer),
        0 <= p < s.outputs.len(),
    ensures
        ({
            let t = events::area_known(s, layer, x, y, width, height);
            let a = s.outputs[o];
            let b = t.outputs[o];
            &&& t.outputs.len() == s.outputs.len()
            &&& (b.usable_x, b.usable_y) == (x, y)
            &&& b.usable_width == (if width < 0 {
                0
            } else {
                width as int
            })
            &&& b.usable_height == (if height < 0 {
                0
            } else {
                height as int
            })
            &&& (b.x, b.y, b.width, b.height) == (a.x, a.y, a.width, a.height)
            &&& b.proxy == a.proxy && b.name == a.name && b.layer == a.layer
            &&& p != o ==> invariants::same_geometry(t.outputs[p], s.outputs[p])
        }),
{
    let holds = events::output_has_layer(s, layer);
    assert(holds(o));
    assert forall|j: int| 0 <= j < o implies !(#[trigger] holds(j)) by {
        assert(s.outputs[j].layer != Some(layer));
    }
    assert(search::is_least(s.outputs.len() as int, holds, o));
    search::lemma_least_is(s.outputs.len() as int, holds, o);
    let c = events::area_changed(s, o, x, y, width, height);
    invariants::normalizing_keeps_wf(c);
    assert(invariants::same_geometry(c.normalized().outputs[o], c.outputs[o]));
    assert(invariants::same_geometry(c.normalized().outputs[p], c.outputs[p]));
}

/// The registry id and object of an output are recorded for it, and its name for
/// the output with the registry id; nothing else changes.
pub proof fn output_names_are_recorded(
    s: StateModel,
    proxy: u64,
    o: int,
    global: u32,
    bound: Option<u64>,
    name: String,
)
    requires
        s.wf(),
        is_output(s, proxy, o),
    ensures
        ({
            let t = events::output_event(
                s,
                proxy,
                OutputEvent::WlOutput { name: global, bound },
            );
            let a = s.outputs[o];
            let b = t.outputs[o];
            &&& t == (StateModel { outputs: s.outputs.update(o, b), ..s })
            &&& b == (Output { wl_global: b.wl_global, wl_output: b.wl_output, ..a })
            &&& b.wl_global == Some(global)
            &&& bound is Some ==> b.wl_output == bound
            &&& bound is None ==> b.wl_output == a.wl_output
        }),
        a_global(s, global, o) ==> ({
            let t = events::output_named(s, global, name);
            let b = t.outputs[o];
            &&& t == (StateModel { outputs: s.outputs.update(o, b), ..s })
            &&& b == (Output { name: b.name, ..s.outputs[o] })
            &&& b.name == Some(name)
        }),
{
    lemma_output(s, proxy, o);
    if a_global(s, global, o) {
        let holds = events::output_has_global(s, global);
        assert(holds(o));
        assert forall|j: int| 0 <= j < o implies !(#[trigger] holds(j)) by {
            assert(s.outputs[j].wl_global != Some(global));
        }
        assert(search::is_least(s.outputs.len() as int, holds, o));
        search::lemma_least_is(s.outputs.len() as int, holds, o);
    }
}

/// Whether the output at index `o` is the first with a registry id.
pub open spec fn a_global(s: StateModel, global: u32, o: int) -> bool {
    &&& 0 <= o < s.outputs.len()
    &&& s.outputs[o].wl_global == Some(global)
    &&& forall|j: int| 0 <= j < o ==> (#[trigger] s.outputs[j]).wl_global != Some(global)
}

/// When an output goes, the others stay in order, with their geometry.
pub proof fn removed_output_leaves_the_others(s: StateModel, proxy: u64, o: int, p: int)
    requires
        s.wf(),
        is_output(s, proxy, o),
        0 <= p < s.outputs.len() - 1,
    ensures
        ({
            let t = events::output_event(s, proxy, OutputEvent::Removed);
            &&& t.outputs.len() == s.outputs.len() - 1
            &&& invariants::same_geometry(
                t.outputs[p],
                if p < o {
                    s.outputs[p]
                } else {
                    s.outputs[p + 1]
                },
            )
        }),
{
    lemma_output(s, proxy, o);
    let c = s.output_dropped(o);
    invariants::dropping_keeps_wf(s, o);
    invariants::normalizing_keeps_wf(c);
    assert(invariants::same_geometry(c.normalized().outputs[p], c.outputs[p]));
}

/// An event of an output that is not there changes nothing.
pub proof fn events_of_unknown_outputs_change_nothing(
    s: StateModel,
    proxy: u64,
    event: OutputEvent,
)
    requires
        forall|j: int| 0 <= j < s.outputs.len() ==> (#[trigger] s.outputs[j]).proxy != proxy,
    ensures
        events::output_event(s, proxy, event) == s,
{
    assert forall|j: int| 0 <= j < s.outputs.len() implies !(#[trigger] events::output_has_proxy(
        s,
        proxy,
    )(j)) by {
        assert(s.outputs[j].proxy != proxy);
    }
    search::lemma_least_none(s.outputs.len() as int, events::output_has_proxy(s, proxy));
}

/// A new output comes last, without a name or geometry, with its layer-shell
/// object. It owns and shows the first tag that no output owned, where there was
/// one, and has the focus where it is the first. Other outputs keep their
/// geometry, and owned tags their owners.
pub proof fn new_output_gets_the_first_free_tag(
    d: AppModel,
    proxy: u64,
    layer: Option<u64>,
    t: int,
    p: int,
)
    requires
        d.state.wf(),
        d.state.outputs.len() < usize::MAX,
        0 <= t < 9,
        d.state.tags[t].output is None,
        forall|k: int| 0 <= k < t ==> (#[trigger] d.state.tags[k]).output is Some,
    ensures
        ({
            let s = d.state;
            let n = s.outputs.len() as int;
            let e = events::wm_event(d, WmEvent::Output { proxy, layer });
            let b = e.state.outputs[n];
            &&& e == d.with_state(e.state)
            &&& e.state.outputs.len() == n + 1
            &&& b.proxy == proxy && b.layer == layer && b.name is None
            &&& (b.x, b.y, b.width, b.height) == (0i32, 0i32, 0u32, 0u32)
            &&& b.active_tag == t
            &&& e.state.tags[t].output == Some(n as usize)
            &&& e.state.windows == s.windows
            &&& e.state.seats == s.seats
            &&& s.focused_output is None && n == 0 ==> e.state.focused_output == Some(0usize)
            &&& s.focused_output is Some ==> e.state.focused_output == s.focused_output
            &&& 0 <= p < n ==> invariants::same_geometry(e.state.outputs[p], s.outputs[p])
            &&& forall|k: int|
                0 <= k < 9 && (#[trigger] s.tags[k]).output is Some ==> e.state.tags[k] == s.tags[k]
        }),
{
    let s = d.state;
    let o = s.outputs.len() as usize;
    let pushed = StateModel { outputs: s.outputs.push(state::new_output(proxy)), ..s };
    assert(pushed.wf());
    assert((pushed.unassigned())(t));
    assert forall|k: int| 0 <= k < t implies !(#[trigger] (pushed.unassigned())(k)) by {
        assert(s.tags[k].output is Some);
    }
    assert(search::is_least(9, pushed.unassigned(), t));
    search::lemma_least_is(9, pushed.unassigned(), t);
    assert forall|k: int| 0 <= k < pushed.tags.len() implies (#[trigger] pushed.tags[k]).output
        != Some(o) by {
        assert(match s.tags[k].output {
            Some(q) => q < s.outputs.len(),
            None => true,
        });
    }
    let given = pushed.with_owner(t, Some(o)).with_active(o as int, t as usize);
    assert(given.wf());
    invariants::normalizing_keeps_wf(given);
    let r = given.normalized();
    assert(invariants::same_geometry(r.outputs[o as int], given.outputs[o as int]));
    assert(given.tags[t].output == Some(o));
    assert(r.tags[t] == given.tags[t]);
    assert forall|k: int| 0 <= k < 9 && (#[trigger] s.tags[k]).output is Some implies r.tags[k]
        == s.tags[k] by {
        assert(given.tags[k] == s.tags[k]);
    }
    if 0 <= p < s.outputs.len() {
        assert(invariants::same_geometry(r.outputs[p], given.outputs[p]));
    }
    lemma_owner_keeps_tag(given.focus_checked(), given.outputs.len() as int, o as int);
}

/// An output that shows a tag of its own keeps showing it when outputs are
/// repaired, and the focused output stays.
proof fn lemma_owner_keeps_tag(s: StateModel, n: int, o: int)
    requires
        s.wf(),
        0 <= n <= s.outputs.len(),
        0 <= o < s.outputs.len(),
        s.owner(s.outputs[o].active_tag) == Some(o as usize),
    ensures
        s.repaired_up_to(n).outputs[o].active_tag == s.outputs[o].active_tag,
        s.repaired_up_to(n).owner(s.outputs[o].active_tag) == Some(o as usize),
        s.repaired_up_to(n).focused_output == s.focused_output,
        s.repaired_up_to(n).seats == s.seats,
        s.repaired_up_to(n).windows == s.windows,
        s.repaired_up_to(n).outputs.len() == s.outputs.len(),
        s.repaired_up_to(n).wf(),
    decreases n,
{
    if n > 0 {
        lemma_owner_keeps_tag(s, n - 1, o);
        let q = s.repaired_up_to(n - 1);
        invariants::one_repair(q, n - 1);
        let tag = s.outputs[o].active_tag;
        assert(q.tags[tag as int].output is Some);
        if n - 1 != o {
            assert(s.repaired_up_to(n).outputs[o] == q.outputs[o]);
        }
    }
}

/// A new seat comes last, with its layer-shell object, its pointer at the origin
/// and over no window. An unavailable or finished window manager object ends the
/// program. Nothing else changes.
pub proof fn new_seats_come_last(d: AppModel, proxy: u64, layer: Option<u64>)
    ensures
        ({
            let e = events::wm_event(d, WmEvent::Seat { proxy, layer });
            let seat = e.state.seats.last();
            &&& e == d.with_state(StateModel { seats: d.state.seats.push(seat), ..d.state })
            &&& seat.proxy == proxy
            &&& seat.layer == layer
            &&& (seat.pointer_x, seat.pointer_y) == (0i32, 0i32)
            &&& seat.pointer_window is None
        }),
        events::wm_event(d, WmEvent::Unavailable) == (AppModel { quit: true, ..d }),
        events::wm_event(d, WmEvent::Finished) == (AppModel { quit: true, ..d }),
{
}

/// Whether the seat at index `k` is the first with protocol handle `proxy`.
pub open spec fn is_seat(s: StateModel, proxy: u64, k: int) -> bool {
    &&& 0 <= k < s.seats.len()
    &&& s.seats[k].proxy == proxy
    &&& forall|j: int| 0 <= j < k ==> (#[trigger] s.seats[j]).proxy != proxy
}

/// The first seat with a protocol handle is the one that is found by it.
proof fn lemma_seat(s: StateModel, proxy: u64, k: int)
    requires
        is_seat(s, proxy, k),
    ensures
        seats::seat_by_proxy(s, proxy) == Some(k),
{
    let holds = seats::seat_has_proxy(s, proxy);
    assert(holds(k));
    assert forall|j: int| 0 <= j < k implies !(#[trigger] holds(j)) by {
        assert(s.seats[j].proxy != proxy);
    }
    assert(search::is_least(s.seats.len() as int, holds, k));
    search::lemma_least_is(s.seats.len() as int, holds, k);
}

/// A pointer that enters a window is over it from then on, and one that leaves is
/// over none. Where the focus follows the mouse, the window that is entered is
/// shown and focused, on the output that owns its tag; elsewhere nothing else
/// changes. Leaving changes nothing else either way.
pub proof fn pointers_enter_and_leave_windows(
    d: AppModel,
    proxy: u64,
    k: int,
    window: u64,
    i: int,
    o: usize,
)
    requires
        d.state.wf(),
        is_seat(d.state, proxy, k),
        is_window(d.state, window, i),
        d.state.tags[d.state.windows[i].tag as int].output == Some(o),
    ensures
        ({
            let s = d.state;
            let w = s.windows[i];
            let e = seats::seat_event(d, proxy, SeatEvent::PointerEnter { window });
            let left = seats::seat_event(d, proxy, SeatEvent::PointerLeave);
            let over = Seat { pointer_window: Some(w.id), ..s.seats[k] };
            let off = Seat { pointer_window: None, ..s.seats[k] };
            &&& e.state.seats == s.seats.update(k, over)
            &&& !d.config.focus_follows_mouse ==> e == d.with_state(
                StateModel { seats: s.seats.update(k, over), ..s },
            )
            &&& d.config.focus_follows_mouse ==> {
                &&& e.state.focused_output == Some(o)
                &&& e.state.outputs[o as int].active_tag == w.tag
                &&& e.state.outputs[o as int].focused_window == Some(w.id)
                &&& e.state.tags == s.tags
            }
            &&& left == d.with_state(StateModel { seats: s.seats.update(k, off), ..s })
        }),
{
    let s = d.state;
    let id = s.windows[i].id;
    lemma_seat(s, proxy, k);
    lemma_window(s, window, i);
    let over = seats::pointer_over(s, proxy, Some(id));
    laws::picked_window_is_focused(over, i);
    let t = seats::window_picked(over, id);
    invariants::window_is_found_by_id(over, i);
    assert(t.visible(t.windows[i]));
    assert(t.windows[i].tag == s.windows[i].tag);
}

/// A press or touch on a window shows and focuses it, on the output that owns
/// its tag, whether or not the focus follows the mouse.
pub proof fn touched_windows_are_focused(
    d: AppModel,
    proxy: u64,
    window: u64,
    i: int,
    o: usize,
)
    requires
        d.state.wf(),
        is_window(d.state, window, i),
        d.state.tags[d.state.windows[i].tag as int].output == Some(o),
    ensures
        ({
            let s = d.state;
            let w = s.windows[i];
            let e = seats::seat_event(d, proxy, SeatEvent::WindowInteraction { window });
            &&& e == d.with_state(e.state)
            &&& e.state.focused_output == Some(o)
            &&& e.state.outputs[o as int].active_tag == w.tag
            &&& e.state.outputs[o as int].focused_window == Some(w.id)
            &&& e.state.seats == s.seats
            &&& e.state.tags == s.tags
        }),
{
    let s = d.state;
    lemma_window(s, window, i);
    laws::picked_window_is_focused(s, i);
    let t = seats::window_picked(s, s.windows[i].id);
    assert(t.windows[i].tag == s.windows[i].tag);
}

/// Whether a point lies on an output.
pub open spec fn holds_point(output: Output, x: i32, y: i32) -> bool {
    &&& output.x <= x < output.x + output.width
    &&& output.y <= y < output.y + output.height
}

/// The place of a pointer is recorded for its seat. Where the focus follows the
/// mouse, the first output under the pointer is focused; where there is none, or
/// the focus does not follow, the focused output stays. Nothing else changes.
pub proof fn pointer_places_are_recorded(d: AppModel, proxy: u64, k: int, x: i32, y: i32, o: int)
    requires
        d.state.wf(),
        is_seat(d.state, proxy, k),
        forall|p: int|
            0 <= p < d.state.outputs.len() ==> (#[trigger] d.state.outputs[p]).width <= i32::MAX
                && d.state.outputs[p].height <= i32::MAX,
    ensures
        ({
            let s = d.state;
            let e = seats::seat_event(d, proxy, SeatEvent::PointerPosition { x, y });
            let at = Seat { pointer_x: x, pointer_y: y, ..s.seats[k] };
            &&& e == d.with_state(
                StateModel {
                    seats: s.seats.update(k, at),
                    focused_output: e.state.focused_output,
                    ..s
                },
            )
            &&& !d.config.focus_follows_mouse ==> e.state.focused_output == s.focused_output
            &&& d.config.focus_follows_mouse && 0 <= o < s.outputs.len() && holds_point(
                s.outputs[o],
                x,
                y,
            ) && (forall|p: int| 0 <= p < o ==> !holds_point(#[trigger] s.outputs[p], x, y))
                ==> e.state.focused_output == Some(o as usize)
            &&& (forall|p: int|
                0 <= p < s.outputs.len() ==> !holds_point(#[trigger] s.outputs[p], x, y))
                ==> e.state.focused_output == s.focused_output
        }),
{
    let s = d.state;
    lemma_seat(s, proxy, k);
    let n = s.outputs.len() as int;
    let holds = seats::under_point(s, x, y);
    assert forall|p: int| 0 <= p < n implies #[trigger] holds(p) == holds_point(
        s.outputs[p],
        x,
        y,
    ) by {
        assert(s.outputs[p].width <= i32::MAX);
    }
    search::lemma_least(n, holds);
    if 0 <= o < n && holds_point(s.outputs[o], x, y) && (forall|p: int|
        0 <= p < o ==> !holds_point(#[trigger] s.outputs[p], x, y)) {
        assert(holds(o));
        assert forall|p: int| 0 <= p < o implies !(#[trigger] holds(p)) by {
            assert(!holds_point(s.outputs[p], x, y));
        }
        assert(search::is_least(n, holds, o));
        search::lemma_least_is(n, holds, o);
    }
    if forall|p: int| 0 <= p < n ==> !holds_point(#[trigger] s.outputs[p], x, y) {
        assert forall|p: int| 0 <= p < n implies !(#[trigger] holds(p)) by {
            assert(!holds_point(s.outputs[p], x, y));
        }
        search::lemma_least_none(n, holds);
    }
}

/// The seats that are left when one goes are the others, in order.
proof fn lemma_seats_left(list: Seq<Seat>, proxy: u64, seat: Seat)
    ensures
        seats::without_seat(list, proxy).contains(seat) <==> list.contains(seat) && seat.proxy
            != proxy,
    decreases list.len(),
{
    let left = seats::without_seat(list, proxy);
    if list.len() > 0 {
        let rest = list.drop_last();
        let before = seats::without_seat(rest, proxy);
        lemma_seats_left(rest, proxy, seat);
        assert(list[list.len() - 1] == list.last());
        if list.contains(seat) {
            let k = choose|k: int| 0 <= k < list.len() && list[k] == seat;
            if k < rest.len() {
                assert(rest[k] == seat);
            } else if seat.proxy != proxy {
                assert(left[left.len() - 1] == seat);
            }
        }
        if rest.contains(seat) {
            let k = choose|k: int| 0 <= k < rest.len() && rest[k] == seat;
            assert(list[k] == seat);
        }
        if before.contains(seat) {
            let k = choose|k: int| 0 <= k < before.len() && before[k] == seat;
            assert(left[k] == seat);
        }
        if left.contains(seat) {
            let k = choose|k: int| 0 <= k < left.len() && left[k] == seat;
            if k < before.len() {
                assert(before[k] == seat);
            }
        }
    }
}

/// A seat that is removed is gone, and no other; buttons that are released end
/// the pointer operation that is under way or queued, at the next manage
/// sequence. Nothing else changes.
pub proof fn seats_go_and_operations_end(d: AppModel, proxy: u64, seat: Seat)
    ensures
        ({
            let e = seats::seat_event(d, proxy, SeatEvent::Removed);
            let released = seats::seat_event(d, proxy, SeatEvent::OpRelease);
            &&& e == d.with_state(StateModel { seats: e.state.seats, ..d.state })
            &&& e.state.seats.contains(seat) <==> d.state.seats.contains(seat) && seat.proxy
                != proxy
            &&& released == (AppModel { op_end_requested: released.op_end_requested, ..d })
            &&& released.op_end_requested <==> d.op_end_requested || d.pointer_op is Some
                || d.pending_op is Some
        }),
{
    lemma_seats_left(d.state.seats, proxy, seat);
}

/// A motion of the pointer during an operation is applied to that operation.
pub proof fn motions_reach_the_operation(d: AppModel, proxy: u64, dx: i32, dy: i32)
    ensures
        seats::seat_event(d, proxy, SeatEvent::OpDelta { dx, dy }) == pointer::delta_applied(
            d,
            dx,
            dy,
        ),
{
}

} // verus!
