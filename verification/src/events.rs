//! The events of windows and outputs, and what they do to the context.
use vstd::prelude::*;
use vstd::string::*;

use crate::connection::{AppData, AppModel};
use crate::laws;
use crate::search;
use crate::state;
use crate::state::{Output, Seat, State, StateModel, Window};
use crate::wm::layout;

verus! {

/// An event of the window manager object.
pub enum WmEvent {
    /// Another window manager is running.
    Unavailable,
    /// The compositor has no more use for this one.
    Finished,
    /// A window appeared.
    Window { proxy: u64 },
    /// An output appeared; `layer` is its layer-shell object.
    Output { proxy: u64, layer: Option<u64> },
    /// A seat appeared; `layer` is its layer-shell object.
    Seat { proxy: u64, layer: Option<u64> },
}

/// An event of a window.
pub enum WindowEvent {
    /// The window is gone.
    Closed,
    /// The window has another application id.
    AppId { app_id: Option<String> },
    /// The window has another title.
    Title { title: Option<String> },
    /// The window has other content dimensions.
    Dimensions { width: i32, height: i32 },
}

/// An event of an output.
pub enum OutputEvent {
    /// The output has another position.
    Position { x: i32, y: i32 },
    /// The output has other dimensions.
    Dimensions { width: i32, height: i32 },
    /// The `wl_output` of the output is known by its registry id; `bound` is the
    /// object bound to it.
    WlOutput { name: u32, bound: Option<u64> },
    /// The output is gone.
    Removed,
}

/// The output that a new window goes to.
pub open spec fn landing_output(s: StateModel) -> int {
    match s.active_output() {
        Some(o) => o as int,
        None => 0,
    }
}

/// The state after a window appeared: tiled on the tag that the active output
/// shows, and focused there.
pub open spec fn window_added(s: StateModel, proxy: u64) -> StateModel {
    let o = landing_output(s);
    let tag = if o < s.outputs.len() {
        s.outputs[o].active_tag
    } else {
        0
    };
    let id = s.next_window_id;
    let added = StateModel {
        windows: s.windows.push(state::new_window(id, proxy, tag)),
        next_window_id: (id + 1) as u32,
        ..s
    };
    if o < s.outputs.len() {
        added.with_focus(o, Some(id))
    } else {
        added
    }
}

/// The state after an output appeared: with a tag of its own if one was free,
/// and focused if nothing was.
pub open spec fn output_added(s: StateModel, proxy: u64, layer: Option<u64>) -> StateModel {
    let o = s.outputs.len();
    let pushed = StateModel { outputs: s.outputs.push(state::new_output(proxy)), ..s };
    let tagged = pushed.first_tag_assigned(o as usize);
    let focused = if tagged.focused_output is None {
        StateModel { focused_output: Some(o as usize), ..tagged }
    } else {
        tagged
    };
    match layer {
        Some(l) => focused.with_output(
            focused.outputs.len() - 1,
            Output { layer: Some(l), ..focused.outputs.last() },
        ),
        None => focused,
    }
}

/// The context after an event of the window manager object.
pub open spec fn wm_event(d: AppModel, event: WmEvent) -> AppModel {
    match event {
        WmEvent::Unavailable => AppModel { quit: true, ..d },
        WmEvent::Finished => AppModel { quit: true, ..d },
        WmEvent::Window { proxy } => d.with_state(window_added(d.state, proxy)),
        WmEvent::Output { proxy, layer } => d.with_state(output_added(d.state, proxy, layer)),
        WmEvent::Seat { proxy, layer } => d.with_state(
            StateModel {
                seats: d.state.seats.push(
                    Seat { proxy, pointer_x: 0, pointer_y: 0, pointer_window: None, layer },
                ),
                ..d.state
            },
        ),
    }
}

/// Add a window that appeared.
fn add_window(state: &mut State, proxy: u64)
    requires
        old(state).next_window_id < u32::MAX,
    ensures
        final(state)@ == window_added(old(state)@, proxy),
{
    let o: usize = match state.active_output() {
        Some(o) => o,
        None => 0,
    };
    let tag: usize = if o < state.outputs.len() {
        state.outputs[o].active_tag
    } else {
        0
    };
    let id: u32 = state.next_window_id;
    state.next_window_id = id + 1;
    state.windows.push(Window::new(id, proxy, tag));
    if o < state.outputs.len() {
        state.outputs[o].focused_window = Some(id);
    }
    assert(state@ =~= window_added(old(state)@, proxy));
}

/// Repairing outputs neither adds nor removes one.
proof fn lemma_repaired_len(s: StateModel, n: int)
    requires
        n <= s.outputs.len(),
    ensures
        s.repaired_up_to(n).outputs.len() == s.outputs.len(),
    decreases n,
{
    if n > 0 {
        lemma_repaired_len(s, n - 1);
    }
}

/// Add an output that appeared.
fn add_output(state: &mut State, proxy: u64, layer: Option<u64>)
    ensures
        final(state)@ == output_added(old(state)@, proxy, layer),
        old(state).outputs@.len() < usize::MAX,
{
    let ghost start = state@;
    state.outputs.push(Output::new(proxy));
    let o: usize = state.outputs.len() - 1;
    let ghost pushed = state@;
    assert(pushed =~= (StateModel {
        outputs: start.outputs.push(state::new_output(proxy)),
        ..start
    }));
    proof {
        let given = match pushed.free_tag() {
            Some(t) => pushed.with_owner(t, Some(o)).with_active(o as int, t as usize),
            None => pushed,
        };
        lemma_repaired_len(given.focus_checked(), given.outputs.len() as int);
    }
    state.assign_initial_tag(o);
    if state.focused_output.is_none() {
        state.focused_output = Some(o);
    }
    if let Some(l) = layer {
        let last: usize = state.outputs.len() - 1;
        state.outputs[last].layer = Some(l);
    }
    assert(state@ =~= output_added(start, proxy, layer));
}

/// Handle an event of the window manager object.
pub fn on_wm_event(data: &mut AppData, event: WmEvent)
    requires
        event is Window ==> old(data).state.next_window_id < u32::MAX,
    ensures
        final(data)@ == wm_event(old(data)@, event),
        old(data).state@.wf() ==> final(data).state@.wf(),
{
    match event {
        WmEvent::Unavailable => {
            data.quit = true;
        },
        WmEvent::Finished => {
            data.quit = true;
        },
        WmEvent::Window { proxy } => {
            add_window(&mut data.state, proxy);
        },
        WmEvent::Output { proxy, layer } => {
            add_output(&mut data.state, proxy, layer);
        },
        WmEvent::Seat { proxy, layer } => {
            let mut seat = Seat::new(proxy);
            seat.layer = layer;
            data.state.seats.push(seat);
        },
    }
    proof {
        assert(data@ =~= wm_event(old(data)@, event));
        if old(data).state@.wf() {
            laws::wm_events_keep_wf(old(data)@, event);
        }
    }
}

/// The windows without those that have protocol handle `proxy`.
pub open spec fn without_proxy(windows: Seq<Window>, proxy: u64) -> Seq<Window>
    decreases windows.len(),
{
    if windows.len() == 0 {
        Seq::empty()
    } else {
        let before = without_proxy(windows.drop_last(), proxy);
        if windows.last().proxy != proxy {
            before.push(windows.last())
        } else {
            before
        }
    }
}

/// Where a span of length `len` starts when it is centered in one of length
/// `room` that starts at `from`: no later than at the largest coordinate.
pub open spec fn centered(from: i32, len: u32, room: u32) -> int {
    let at = from + state::slack(len, room) / 2;
    if at > i32::MAX {
        i32::MAX as int
    } else {
        at
    }
}

/// A window that is never tiled: it floats, centered in its area when it starts
/// to.
pub open spec fn auto_floated(s: StateModel, w: Window) -> Window {
    if w.floating {
        w
    } else {
        match s.float_area(w) {
            Some(area) => Window {
                floating: true,
                float_x: centered(area.0, w.float_w, area.2) as i32,
                float_y: centered(area.1, w.float_h, area.3) as i32,
                ..w
            },
            None => Window { floating: true, ..w },
        }
    }
}

/// A window after its application id became known.
pub open spec fn identified(d: AppModel, w: Window, app_id: Option<String>) -> Window {
    let placed = match app_id {
        Some(app) => if d.config.floats(app@) {
            auto_floated(d.state, w)
        } else {
            w
        },
        None => w,
    };
    Window { app_id, ..placed }
}

/// The context after an event of the window with protocol handle `proxy`;
/// unchanged if there is none.
pub open spec fn window_event(d: AppModel, proxy: u64, event: WindowEvent) -> AppModel {
    match d.state.window_by_proxy(proxy) {
        Some(id) => match event {
            WindowEvent::Closed => d.with_state(
                StateModel { windows: without_proxy(d.state.windows, proxy), ..d.state },
            ),
            WindowEvent::AppId { app_id } => {
                let i = d.state.window_index(id)->0;
                d.with_state(
                    d.state.with_window(i, identified(d, d.state.windows[i], app_id)),
                )
            },
            WindowEvent::Title { title } => {
                let i = d.state.window_index(id)->0;
                d.with_state(d.state.with_window(i, Window { title, ..d.state.windows[i] }))
            },
            WindowEvent::Dimensions { width, height } => {
                let i = d.state.window_index(id)->0;
                d.with_state(
                    d.state.with_window(
                        i,
                        Window {
                            width: width as u32,
                            height: height as u32,
                            ..d.state.windows[i]
                        },
                    ),
                )
            },
        },
        None => d,
    }
}

/// Remove the windows with protocol handle `proxy`.
fn remove_windows(state: &mut State, proxy: u64)
    ensures
        final(state)@ == (StateModel {
            windows: without_proxy(old(state).windows@, proxy),
            ..old(state)@
        }),
{
    let ghost all = state.windows@;
    let mut i: usize = 0;
    let ghost mut seen: int = 0;
    assert(all.take(0) =~= Seq::empty());
    assert(all.skip(0) =~= all);
    while i < state.windows.len()
        invariant
            all == old(state).windows@,
            0 <= i <= state.windows@.len(),
            0 <= seen <= all.len(),
            state.windows@.len() - i == all.len() - seen,
            state@ == (StateModel { windows: state.windows@, ..old(state)@ }),
            state.windows@ =~= without_proxy(all.take(seen), proxy) + all.skip(seen),
            without_proxy(all.take(seen), proxy).len() == i,
        decreases state.windows@.len() - i,
    {
        let ghost kept = without_proxy(all.take(seen), proxy);
        assert(all.take(seen + 1).drop_last() =~= all.take(seen));
        assert(all.take(seen + 1).last() == all[seen]);
        assert(state.windows@[i as int] == all[seen]);
        if state.windows[i].proxy == proxy {
            state.windows.remove(i);
            assert(state.windows@ =~= kept + all.skip(seen + 1));
        } else {
            assert(state.windows@ =~= kept.push(all[seen]) + all.skip(seen + 1));
            i += 1;
        }
        proof {
            seen = seen + 1;
        }
    }
    assert(all.take(seen) =~= all);
}

/// Where a span starts when it is centered.
fn center(from: i32, len: u32, room: u32) -> (r: i32)
    ensures
        r == centered(from, len, room),
{
    let slack: u32 = if len >= room {
        0
    } else {
        room - len
    };
    let at: i64 = from as i64 + (slack / 2) as i64;
    if at > i32::MAX as i64 {
        i32::MAX
    } else {
        at as i32
    }
}

/// Let the window at index `i` float, centered in its area.
fn auto_float(state: &mut State, i: usize)
    requires
        i < old(state).windows@.len(),
    ensures
        final(state)@ == old(state)@.with_window(
            i as int,
            auto_floated(old(state)@, old(state).windows@[i as int]),
        ),
{
    if state.windows[i].floating {
        assert(state@ =~= old(state)@.with_window(i as int, state.windows@[i as int]));
        return ;
    }
    let o: usize = match state.tag_owner(state.windows[i].tag) {
        Some(o) => o,
        None => match state.focused_output {
            Some(f) => f,
            None => 0,
        },
    };
    state.windows[i].floating = true;
    if o < state.outputs.len() {
        let (x, y, width, height) = state.outputs[o].usable();
        if width != 0 && height != 0 {
            state.windows[i].float_x = center(x, state.windows[i].float_w, width);
            state.windows[i].float_y = center(y, state.windows[i].float_h, height);
        }
    }
}

/// Handle an event of the window with protocol handle `proxy`.
pub fn on_window_event(data: &mut AppData, proxy: u64, event: WindowEvent)
    ensures
        final(data)@ == window_event(old(data)@, proxy, event),
        old(data).state@.wf() ==> final(data).state@.wf(),
{
    proof {
        if data.state@.wf() {
            laws::window_events_keep_wf(data@, proxy, event);
        }
    }
    let id: u32 = match data.state.find_window_by_proxy(proxy) {
        Some(id) => id,
        None => {
            return ;
        },
    };
    proof {
        search::lemma_least(data.state.windows@.len() as int, data.state@.has_proxy(proxy));
        let k = search::least(
            data.state.windows@.len() as int,
            data.state@.has_proxy(proxy),
        )->0;
        assert(data.state@.has_id(id)(k));
        search::lemma_least_some(data.state.windows@.len() as int, data.state@.has_id(id), k);
    }
    let i: usize = match data.state.find_window_index(id) {
        Some(i) => i,
        None => {
            return ;
        },
    };
    match event {
        WindowEvent::Closed => {
            remove_windows(&mut data.state, proxy);
        },
        WindowEvent::AppId { app_id } => {
            let floats: bool = match &app_id {
                Some(app) => data.config.is_floating_app(app.as_str()),
                None => false,
            };
            if floats {
                auto_float(&mut data.state, i);
            }
            data.state.windows[i].app_id = app_id;
        },
        WindowEvent::Title { title } => {
            data.state.windows[i].title = title;
        },
        WindowEvent::Dimensions { width, height } => {
            data.state.windows[i].width = width as u32;
            data.state.windows[i].height = height as u32;
        },
    }
    assert(data@ =~= window_event(old(data)@, proxy, event));
}

/// Whether the output at an index has protocol handle `proxy`.
pub open spec fn output_has_proxy(s: StateModel, proxy: u64) -> spec_fn(int) -> bool {
    |o: int| s.outputs[o].proxy == proxy
}

/// The index of the output with protocol handle `proxy`.
pub open spec fn output_by_proxy(s: StateModel, proxy: u64) -> Option<int> {
    search::least(s.outputs.len() as int, output_has_proxy(s, proxy))
}

/// The index of the output with protocol handle `proxy`.
pub fn find_output(state: &State, proxy: u64) -> (r: Option<usize>)
    ensures
        r is Some <==> output_by_proxy(state@, proxy) is Some,
        r is Some ==> r->0 == output_by_proxy(state@, proxy)->0 && r->0 < state.outputs@.len(),
{
    let ghost n = state.outputs@.len() as int;
    let ghost holds = output_has_proxy(state@, proxy);
    let mut o: usize = 0;
    while o < state.outputs.len()
        invariant
            o <= state.outputs@.len() == n,
            holds == output_has_proxy(state@, proxy),
            forall|k: int| 0 <= k < o ==> !(#[trigger] holds(k)),
        decreases state.outputs@.len() - o,
    {
        if state.outputs[o].proxy == proxy {
            proof {
                assert(search::is_least(n, holds, o as int));
                search::lemma_least_is(n, holds, o as int);
            }
            return Some(o);
        }
        o += 1;
    }
    proof {
        search::lemma_least_none(n, holds);
    }
    None
}

/// Whether the usable area of an output is not known yet.
pub open spec fn area_unknown(output: Output) -> bool {
    output.usable_width == 0 && output.usable_height == 0
}

/// The state with what an event of output `o` says, before the outputs are
/// repaired.
pub open spec fn output_changed(s: StateModel, o: int, event: OutputEvent) -> StateModel {
    let output = s.outputs[o];
    match event {
        OutputEvent::Position { x, y } => s.with_output(
            o,
            if area_unknown(output) {
                Output { x, y, usable_x: x, usable_y: y, ..output }
            } else {
                Output { x, y, ..output }
            },
        ),
        OutputEvent::Dimensions { width, height } => s.with_output(
            o,
            if area_unknown(output) {
                Output {
                    width: width as u32,
                    height: height as u32,
                    usable_width: width as u32,
                    usable_height: height as u32,
                    ..output
                }
            } else {
                Output { width: width as u32, height: height as u32, ..output }
            },
        ),
        OutputEvent::WlOutput { name, bound } => s.with_output(
            o,
            Output {
                wl_global: Some(name),
                wl_output: if bound is Some {
                    bound
                } else {
                    output.wl_output
                },
                ..output
            },
        ),
        OutputEvent::Removed => s.output_dropped(o),
    }
}

/// The state after an event of the output with protocol handle `proxy`;
/// unchanged if there is none. When the geometry changes or the output goes,
/// the outputs are repaired and floating windows are brought back inside.
pub open spec fn output_event(s: StateModel, proxy: u64, event: OutputEvent) -> StateModel {
    match output_by_proxy(s, proxy) {
        Some(o) => if event is WlOutput {
            output_changed(s, o, event)
        } else {
            output_changed(s, o, event).normalized().floats_clamped()
        },
        None => s,
    }
}

/// Whether the floating windows can be brought back inside after an event of
/// the output with protocol handle `proxy`.
pub open spec fn output_event_fits(s: StateModel, proxy: u64, event: OutputEvent) -> bool {
    match output_by_proxy(s, proxy) {
        Some(o) => event is WlOutput || output_changed(
            s,
            o,
            event,
        ).normalized().floats_clampable(),
        None => true,
    }
}

/// Take over what an event of output `o` says.
fn change_output(state: &mut State, o: usize, event: OutputEvent)
    requires
        o < old(state).outputs@.len(),
    ensures
        final(state)@ == output_changed(old(state)@, o as int, event),
{
    match event {
        OutputEvent::Position { x, y } => {
            state.outputs[o].x = x;
            state.outputs[o].y = y;
            if state.outputs[o].usable_width == 0 && state.outputs[o].usable_height == 0 {
                state.outputs[o].usable_x = x;
                state.outputs[o].usable_y = y;
            }
        },
        OutputEvent::Dimensions { width, height } => {
            state.outputs[o].width = width as u32;
            state.outputs[o].height = height as u32;
            if state.outputs[o].usable_width == 0 && state.outputs[o].usable_height == 0 {
                state.outputs[o].usable_width = width as u32;
                state.outputs[o].usable_height = height as u32;
            }
        },
        OutputEvent::WlOutput { name, bound } => {
            state.outputs[o].wl_global = Some(name);
            if bound.is_some() {
                state.outputs[o].wl_output = bound;
            }
        },
        OutputEvent::Removed => {
            state.drop_output(o);
        },
    }
    assert(state@ =~= output_changed(old(state)@, o as int, event));
}

/// Handle an event of the output with protocol handle `proxy`.
pub fn on_output_event(state: &mut State, proxy: u64, event: OutputEvent)
    requires
        output_event_fits(old(state)@, proxy, event),
    ensures
        final(state)@ == output_event(old(state)@, proxy, event),
        old(state)@.wf() ==> final(state)@.wf(),
{
    proof {
        if state@.wf() {
            laws::output_events_keep_wf(state@, proxy, event);
        }
    }
    if let Some(o) = find_output(state, proxy) {
        let repair: bool = match event {
            OutputEvent::WlOutput { .. } => false,
            _ => true,
        };
        change_output(state, o, event);
        if repair {
            state.repair_outputs();
        }
    }
}

/// Handle an event of the output with protocol handle `proxy`, and say whether
/// the floating windows could be brought back inside; if not, they stay where
/// they are.
pub fn try_output_event(state: &mut State, proxy: u64, event: OutputEvent) -> (r: bool)
    ensures
        r == output_event_fits(old(state)@, proxy, event),
        r ==> final(state)@ == output_event(old(state)@, proxy, event),
        !r ==> final(state)@ == output_changed(
            old(state)@,
            output_by_proxy(old(state)@, proxy)->0,
            event,
        ).normalized(),
        old(state)@.wf() ==> final(state)@.wf(),
{
    proof {
        if state@.wf() {
            laws::output_events_keep_wf(state@, proxy, event);
        }
    }
    match find_output(state, proxy) {
        Some(o) => {
            let repair: bool = match event {
                OutputEvent::WlOutput { .. } => false,
                _ => true,
            };
            change_output(state, o, event);
            if repair {
                state.try_repair_outputs()
            } else {
                true
            }
        },
        None => true,
    }
}

/// Whether the output at an index has the layer-shell object `layer`.
pub open spec fn output_has_layer(s: StateModel, layer: u64) -> spec_fn(int) -> bool {
    |o: int| s.outputs[o].layer == Some(layer)
}

/// The index of the output with the layer-shell object `layer`.
pub open spec fn output_by_layer(s: StateModel, layer: u64) -> Option<int> {
    search::least(s.outputs.len() as int, output_has_layer(s, layer))
}

/// The index of the output with the layer-shell object `layer`.
fn find_layer(state: &State, layer: u64) -> (r: Option<usize>)
    ensures
        r is Some <==> output_by_layer(state@, layer) is Some,
        r is Some ==> r->0 == output_by_layer(state@, layer)->0 && r->0 < state.outputs@.len(),
{
    let ghost n = state.outputs@.len() as int;
    let ghost holds = output_has_layer(state@, layer);
    let mut o: usize = 0;
    while o < state.outputs.len()
        invariant
            o <= state.outputs@.len() == n,
            holds == output_has_layer(state@, layer),
            forall|k: int| 0 <= k < o ==> !(#[trigger] holds(k)),
        decreases state.outputs@.len() - o,
    {
        if state.outputs[o].layer == Some(layer) {
            proof {
                assert(search::is_least(n, holds, o as int));
                search::lemma_least_is(n, holds, o as int);
            }
            return Some(o);
        }
        o += 1;
    }
    proof {
        search::lemma_least_none(n, holds);
    }
    None
}

/// The state with another area that panels leave free on output `o`, before the
/// outputs are repaired.
pub open spec fn area_changed(
    s: StateModel,
    o: int,
    x: i32,
    y: i32,
    width: i32,
    height: i32,
) -> StateModel {
    s.with_output(
        o,
        Output {
            usable_x: x,
            usable_y: y,
            usable_width: layout::at_least_zero(width as int) as u32,
            usable_height: layout::at_least_zero(height as int) as u32,
            ..s.outputs[o]
        },
    )
}

/// The state after the area that panels leave free became known for the output
/// with layer-shell object `layer`; unchanged if there is none. The outputs are
/// repaired and floating windows are brought into their areas.
pub open spec fn area_known(
    s: StateModel,
    layer: u64,
    x: i32,
    y: i32,
    width: i32,
    height: i32,
) -> StateModel {
    match output_by_layer(s, layer) {
        Some(o) => area_changed(s, o, x, y, width, height).normalized().floats_clamped(),
        None => s,
    }
}

/// Whether the floating windows can be brought into their areas after the area
/// that panels leave free became known for the output with layer-shell object
/// `layer`.
pub open spec fn area_event_fits(
    s: StateModel,
    layer: u64,
    x: i32,
    y: i32,
    width: i32,
    height: i32,
) -> bool {
    match output_by_layer(s, layer) {
        Some(o) => area_changed(s, o, x, y, width, height).normalized().floats_clampable(),
        None => true,
    }
}

/// Take over the area that panels leave free on output `o`.
fn change_area(state: &mut State, o: usize, x: i32, y: i32, width: i32, height: i32)
    requires
        o < old(state).outputs@.len(),
    ensures
        final(state)@ == area_changed(old(state)@, o as int, x, y, width, height),
{
    state.outputs[o].usable_x = x;
    state.outputs[o].usable_y = y;
    state.outputs[o].usable_width = if width < 0 {
        0
    } else {
        width as u32
    };
    state.outputs[o].usable_height = if height < 0 {
        0
    } else {
        height as u32
    };
    assert(state@ =~= area_changed(old(state)@, o as int, x, y, width, height));
}

/// Handle the area that panels leave free on an output.
pub fn on_non_exclusive_area(
    state: &mut State,
    layer: u64,
    x: i32,
    y: i32,
    width: i32,
    height: i32,
)
    requires
        area_event_fits(old(state)@, layer, x, y, width, height),
    ensures
        final(state)@ == area_known(old(state)@, layer, x, y, width, height),
        old(state)@.wf() ==> final(state)@.wf(),
{
    proof {
        if state@.wf() {
            laws::area_events_keep_wf(state@, layer, x, y, width, height);
        }
    }
    if let Some(o) = find_layer(state, layer) {
        change_area(state, o, x, y, width, height);
        state.repair_outputs();
    }
}

/// Handle the area that panels leave free on an output, and say whether the
/// floating windows could be brought into their areas; if not, they stay where
/// they are.
pub fn try_non_exclusive_area(
    state: &mut State,
    layer: u64,
    x: i32,
    y: i32,
    width: i32,
    height: i32,
) -> (r: bool)
    ensures
        r == area_event_fits(old(state)@, layer, x, y, width, height),
        r ==> final(state)@ == area_known(old(state)@, layer, x, y, width, height),
        !r ==> final(state)@ == area_changed(
            old(state)@,
            output_by_layer(old(state)@, layer)->0,
            x,
            y,
            width,
            height,
        ).normalized(),
        old(state)@.wf() ==> final(state)@.wf(),
{
    proof {
        if state@.wf() {
            laws::area_events_keep_wf(state@, layer, x, y, width, height);
        }
    }
    match find_layer(state, layer) {
        Some(o) => {
            change_area(state, o, x, y, width, height);
            state.try_repair_outputs()
        },
        None => true,
    }
}

/// Whether the output at an index has the registry id `name`.
pub open spec fn output_has_global(s: StateModel, name: u32) -> spec_fn(int) -> bool {
    |o: int| s.outputs[o].wl_global == Some(name)
}

/// The state after the connector name became known for the output with the
/// registry id `global`; unchanged if there is none.
pub open spec fn output_named(s: StateModel, global: u32, name: String) -> StateModel {
    match search::least(s.outputs.len() as int, output_has_global(s, global)) {
        Some(o) => s.with_output(o, Output { name: Some(name), ..s.outputs[o] }),
        None => s,
    }
}

/// Handle the connector name of an output.
pub fn on_output_name(state: &mut State, global: u32, name: String)
    ensures
        final(state)@ == output_named(old(state)@, global, name),
        old(state)@.wf() ==> final(state)@.wf(),
{
    let ghost n = state.outputs@.len() as int;
    let ghost holds = output_has_global(state@, global);
    let mut o: usize = 0;
    while o < state.outputs.len()
        invariant
            *state == *old(state),
            o <= state.outputs@.len() == n,
            holds == output_has_global(state@, global),
            forall|k: int| 0 <= k < o ==> !(#[trigger] holds(k)),
        decreases state.outputs@.len() - o,
    {
        if state.outputs[o].wl_global == Some(global) {
            proof {
                assert(search::is_least(n, holds, o as int));
                search::lemma_least_is(n, holds, o as int);
            }
            state.outputs[o].name = Some(name);
            return ;
        }
        o += 1;
    }
    proof {
        search::lemma_least_none(n, holds);
    }
}

} // verus!
