//! The manage sequence: the requests that put policy into effect.
use vstd::prelude::*;
use vstd::string::*;

use crate::bindings;
use crate::connection::{AppData, AppModel};
use crate::invariants;
use crate::laws;
use crate::pointer;
use crate::request;
use crate::request::{Capabilities, Plan, Request};
use crate::state::{Output, State, StateModel, Window};
use crate::wm::layout;
use crate::wm::layout::Geometry;

verus! {

/// The state with the focused window of every output chosen anew.
pub open spec fn all_refocused(s: StateModel) -> StateModel {
    StateModel {
        outputs: Seq::new(
            s.outputs.len(),
            |o: int| Output { focused_window: s.focus_choice(o), ..s.outputs[o] },
        ),
        ..s
    }
}

/// What an output should focus does not depend on what other outputs focus.
proof fn lemma_focus_choice(s: StateModel, t: StateModel, o: int)
    requires
        0 <= o < s.outputs.len(),
        t == (StateModel { outputs: t.outputs, ..s }),
        t.outputs.len() == s.outputs.len(),
        t.outputs[o] == s.outputs[o],
    ensures
        t.focus_choice(o) == s.focus_choice(o),
{
    assert(t.shown_on(o) =~= s.shown_on(o));
    if let Some(id) = s.outputs[o].focused_window {
        assert(t.has_id(id) =~= s.has_id(id));
    }
}

/// Choose the focused window of every output anew.
fn refocus_all(state: &mut State)
    ensures
        final(state)@ == all_refocused(old(state)@),
{
    let ghost start = state@;
    let ghost target = all_refocused(start);
    let mut o: usize = 0;
    while o < state.outputs.len()
        invariant
            o <= state.outputs@.len() == start.outputs.len(),
            target == all_refocused(start),
            state@ == (StateModel { outputs: state.outputs@, ..start }),
            forall|k: int| 0 <= k < o ==> state.outputs@[k] == target.outputs[k],
            forall|k: int| o <= k < state.outputs@.len() ==> state.outputs@[k] == start.outputs[k],
        decreases state.outputs@.len() - o,
    {
        proof {
            lemma_focus_choice(start, state@, o as int);
        }
        state.refocus_output(o);
        o += 1;
    }
    assert(state@ =~= target);
}

/// Choosing focus anew keeps the state well formed, and whether its outputs can
/// be laid out.
pub proof fn lemma_all_refocused(s: StateModel, gap: u32)
    requires
        s.wf(),
    ensures
        all_refocused(s).wf(),
        layout::layout_fits(s, gap) ==> layout::layout_fits(all_refocused(s), gap),
{
    let t = all_refocused(s);
    assert forall|o: int|
        0 <= o < t.outputs.len() && layout::output_fits(s, o, gap) implies layout::output_fits(
        t,
        o,
        gap,
    ) by {
        assert(layout::tiled_on(t, o) =~= layout::tiled_on(s, o));
        let ids = layout::ids_where(s.windows, layout::tiled_on(s, o));
        layout::lemma_fronted(ids, s.outputs[o].focused_window, 0);
        layout::lemma_fronted(ids, t.outputs[o].focused_window, 0);
    }
}

/// The requests that hide every window.
pub open spec fn hide_requests(windows: Seq<Window>) -> Seq<Request> {
    Seq::new(windows.len(), |i: int| Request::Hide { window: windows[i].proxy })
}

/// Hide every window until the render sequence shows the visible ones.
fn hide_all(data: &AppData, requests: &mut Vec<Request>)
    ensures
        final(requests)@ == old(requests)@ + hide_requests(data.state.windows@),
{
    let ghost all = hide_requests(data.state.windows@);
    let mut i: usize = 0;
    while i < data.state.windows.len()
        invariant
            i <= data.state.windows@.len(),
            all == hide_requests(data.state.windows@),
            requests@ =~= old(requests)@ + all.take(i as int),
        decreases data.state.windows@.len() - i,
    {
        requests.push(Request::Hide { window: data.state.windows[i].proxy });
        i += 1;
    }
    assert(all.take(i as int) =~= all);
}

/// The requests that close the windows with the given identifiers, so far as
/// they are still there.
pub open spec fn close_requests(s: StateModel, ids: Seq<u32>) -> Seq<Request>
    decreases ids.len(),
{
    if ids.len() == 0 {
        Seq::empty()
    } else {
        let before = close_requests(s, ids.drop_last());
        match s.window_index(ids.last()) {
            Some(i) => before.push(Request::Close { window: s.windows[i].proxy }),
            None => before,
        }
    }
}

/// Close the windows queued for it.
fn close_pending(data: &mut AppData, requests: &mut Vec<Request>)
    ensures
        final(data)@ == (AppModel { pending_close: Seq::empty(), ..old(data)@ }),
        final(requests)@ == old(requests)@ + close_requests(
            old(data).state@,
            old(data).pending_close@,
        ),
{
    let mut i: usize = 0;
    assert(data.pending_close@.take(0) =~= Seq::empty());
    while i < data.pending_close.len()
        invariant
            *data == *old(data),
            i <= data.pending_close@.len(),
            requests@ =~= old(requests)@ + close_requests(
                data.state@,
                data.pending_close@.take(i as int),
            ),
        decreases data.pending_close@.len() - i,
    {
        let ghost ids = data.pending_close@;
        assert(ids.take(i + 1).drop_last() =~= ids.take(i as int));
        assert(ids.take(i + 1).last() == ids[i as int]);
        if let Some(w) = data.state.find_window_index(data.pending_close[i]) {
            requests.push(Request::Close { window: data.state.windows[w].proxy });
        }
        i += 1;
    }
    assert(data.pending_close@.take(i as int) =~= data.pending_close@);
    data.pending_close = Vec::new();
}

/// The capabilities that windows are told: all but a window menu.
pub open spec fn capabilities() -> Capabilities {
    Capabilities { window_menu: false, maximize: true, fullscreen: true, minimize: true }
}

/// The output that a window goes fullscreen on: the owner of its tag, or the
/// first.
pub open spec fn fullscreen_output(s: StateModel, w: Window) -> Option<u64> {
    let o = match s.owner(w.tag) {
        Some(o) => o as int,
        None => 0,
    };
    if o < s.outputs.len() {
        Some(s.outputs[o].proxy)
    } else {
        None
    }
}

/// A window after its capabilities, decoration and fullscreen state were sent.
pub open spec fn prepared(s: StateModel, use_ssd: bool, w: Window) -> Window {
    Window {
        caps_set: true,
        ssd_applied: Some(use_ssd),
        fullscreen_applied: if w.fullscreen && fullscreen_output(s, w) is None {
            w.fullscreen_applied
        } else {
            w.fullscreen
        },
        ..w
    }
}

/// The request that tells a window its capabilities, once.
pub open spec fn capability_requests(w: Window) -> Seq<Request> {
    if w.caps_set {
        Seq::empty()
    } else {
        seq![Request::SetCapabilities { window: w.proxy, capabilities: capabilities() }]
    }
}

/// The request that sets the decoration mode of a window, if it changed.
pub open spec fn decoration_requests(use_ssd: bool, w: Window) -> Seq<Request> {
    if w.ssd_applied == Some(use_ssd) {
        Seq::empty()
    } else if use_ssd {
        seq![Request::UseSsd { window: w.proxy }]
    } else {
        seq![Request::UseCsd { window: w.proxy }]
    }
}

/// The requests that bring a window into or out of fullscreen, if that changed.
pub open spec fn fullscreen_requests(s: StateModel, w: Window) -> Seq<Request> {
    if w.fullscreen == w.fullscreen_applied {
        Seq::empty()
    } else if w.fullscreen {
        match fullscreen_output(s, w) {
            Some(output) => seq![
                Request::Fullscreen { window: w.proxy, output },
                Request::InformMaximized { window: w.proxy },
                Request::InformFullscreen { window: w.proxy },
            ],
            None => Seq::empty(),
        }
    } else {
        seq![
            Request::ExitFullscreen { window: w.proxy },
            Request::InformUnmaximized { window: w.proxy },
            Request::InformNotFullscreen { window: w.proxy },
        ]
    }
}

/// The requests that prepare a window.
pub open spec fn window_requests(s: StateModel, use_ssd: bool, w: Window) -> Seq<Request> {
    capability_requests(w) + decoration_requests(use_ssd, w) + fullscreen_requests(s, w)
}

/// The requests that prepare the given windows, in order.
pub open spec fn prepare_requests(s: StateModel, use_ssd: bool, windows: Seq<Window>) -> Seq<
    Request,
>
    decreases windows.len(),
{
    if windows.len() == 0 {
        Seq::empty()
    } else {
        prepare_requests(s, use_ssd, windows.drop_last()) + window_requests(
            s,
            use_ssd,
            windows.last(),
        )
    }
}

/// The state with every window prepared.
pub open spec fn all_prepared(s: StateModel, use_ssd: bool) -> StateModel {
    StateModel {
        windows: Seq::new(s.windows.len(), |i: int| prepared(s, use_ssd, s.windows[i])),
        ..s
    }
}

/// The output that the window at index `i` goes fullscreen on.
fn find_fullscreen_output(state: &State, i: usize) -> (r: Option<u64>)
    requires
        i < state.windows@.len(),
    ensures
        r == fullscreen_output(state@, state.windows@[i as int]),
{
    let o: usize = match state.tag_owner(state.windows[i].tag) {
        Some(o) => o,
        None => 0,
    };
    if o < state.outputs.len() {
        Some(state.outputs[o].proxy)
    } else {
        None
    }
}

/// Tell a window its capabilities, once.
fn send_capabilities(w: &Window, requests: &mut Vec<Request>)
    ensures
        final(requests)@ == old(requests)@ + capability_requests(*w),
{
    if !w.caps_set {
        let capabilities = Capabilities {
            window_menu: false,
            maximize: true,
            fullscreen: true,
            minimize: true,
        };
        requests.push(Request::SetCapabilities { window: w.proxy, capabilities });
    }
    assert(requests@ =~= old(requests)@ + capability_requests(*w));
}

/// Set the decoration mode of a window, if it changed.
fn send_decoration(w: &Window, use_ssd: bool, requests: &mut Vec<Request>)
    ensures
        final(requests)@ == old(requests)@ + decoration_requests(use_ssd, *w),
{
    if w.ssd_applied != Some(use_ssd) {
        if use_ssd {
            requests.push(Request::UseSsd { window: w.proxy });
        } else {
            requests.push(Request::UseCsd { window: w.proxy });
        }
    }
    assert(requests@ =~= old(requests)@ + decoration_requests(use_ssd, *w));
}

/// Bring the window at index `i` into or out of fullscreen, if that changed.
fn send_fullscreen(state: &State, i: usize, requests: &mut Vec<Request>)
    requires
        i < state.windows@.len(),
    ensures
        final(requests)@ == old(requests)@ + fullscreen_requests(
            state@,
            state.windows@[i as int],
        ),
{
    let w = &state.windows[i];
    let window: u64 = w.proxy;
    if w.fullscreen != w.fullscreen_applied {
        if w.fullscreen {
            if let Some(output) = find_fullscreen_output(state, i) {
                requests.push(Request::Fullscreen { window, output });
                requests.push(Request::InformMaximized { window });
                requests.push(Request::InformFullscreen { window });
            }
        } else {
            requests.push(Request::ExitFullscreen { window });
            requests.push(Request::InformUnmaximized { window });
            requests.push(Request::InformNotFullscreen { window });
        }
    }
    assert(requests@ =~= old(requests)@ + fullscreen_requests(state@, *w));
}

/// Send the capabilities, decoration and fullscreen state of one window, so far
/// as they were not sent before.
fn prepare_window(state: &mut State, use_ssd: bool, i: usize, requests: &mut Vec<Request>)
    requires
        i < old(state).windows@.len(),
    ensures
        final(state)@ == old(state)@.with_window(
            i as int,
            prepared(old(state)@, use_ssd, old(state).windows@[i as int]),
        ),
        final(requests)@ == old(requests)@ + window_requests(
            old(state)@,
            use_ssd,
            old(state).windows@[i as int],
        ),
{
    let ghost w = state.windows@[i as int];
    send_capabilities(&state.windows[i], requests);
    send_decoration(&state.windows[i], use_ssd, requests);
    send_fullscreen(state, i, requests);
    assert(requests@ =~= old(requests)@ + window_requests(old(state)@, use_ssd, w));
    let reached: bool = !state.windows[i].fullscreen || find_fullscreen_output(
        state,
        i,
    ).is_some();
    state.windows[i].caps_set = true;
    state.windows[i].ssd_applied = Some(use_ssd);
    if reached {
        state.windows[i].fullscreen_applied = state.windows[i].fullscreen;
    }
}

/// Send the capabilities, decoration and fullscreen state of every window.
fn prepare_all(state: &mut State, use_ssd: bool, requests: &mut Vec<Request>)
    ensures
        final(state)@ == all_prepared(old(state)@, use_ssd),
        final(requests)@ == old(requests)@ + prepare_requests(
            old(state)@,
            use_ssd,
            old(state).windows@,
        ),
{
    let ghost start = state@;
    let ghost target = all_prepared(start, use_ssd);
    let mut i: usize = 0;
    assert(start.windows.take(0) =~= Seq::empty());
    while i < state.windows.len()
        invariant
            start == old(state)@,
            target == all_prepared(start, use_ssd),
            i <= state.windows@.len() == start.windows.len(),
            state@ == (StateModel { windows: state.windows@, ..start }),
            forall|k: int| 0 <= k < i ==> state.windows@[k] == target.windows[k],
            forall|k: int| i <= k < state.windows@.len() ==> state.windows@[k] == start.windows[k],
            requests@ =~= old(requests)@ + prepare_requests(
                start,
                use_ssd,
                start.windows.take(i as int),
            ),
        decreases state.windows@.len() - i,
    {
        let ghost w = start.windows[i as int];
        let ghost now = state@;
        assert(start.windows.take(i + 1).drop_last() =~= start.windows.take(i as int));
        assert(start.windows.take(i + 1).last() == w);
        assert(fullscreen_output(now, w) == fullscreen_output(start, w));
        prepare_window(state, use_ssd, i, requests);
        i += 1;
    }
    assert(start.windows.take(i as int) =~= start.windows);
    assert(state@ =~= target);
}

/// The plan with a default layer-shell output set, once there is one.
pub open spec fn layer_chosen(p: Plan) -> Plan {
    if !p.data.layer_default_set && p.data.state.outputs.len() > 0 {
        match p.data.state.outputs[0].layer {
            Some(layer) => p.with_data(AppModel { layer_default_set: true, ..p.data }).sending(
                seq![Request::SetDefaultLayer { layer }],
            ),
            None => p,
        }
    } else {
        p
    }
}

/// Set a default layer-shell output, once there is one.
fn choose_layer(data: &mut AppData, requests: &mut Vec<Request>)
    ensures
        request::plan(final(data)@, final(requests)@) == layer_chosen(
            request::plan(old(data)@, old(requests)@),
        ),
{
    if !data.layer_default_set && data.state.outputs.len() > 0 {
        if let Some(layer) = data.state.outputs[0].layer {
            requests.push(Request::SetDefaultLayer { layer });
            data.layer_default_set = true;
        }
    }
    assert(request::plan(data@, requests@) =~= layer_chosen(
        request::plan(old(data)@, old(requests)@),
    ));
}

/// The window that gets the keyboard focus: the focused one of the active
/// output.
pub open spec fn keyboard_target(s: StateModel) -> Option<u64> {
    match s.active_output() {
        Some(o) => match s.outputs[o as int].focused_window {
            Some(id) => match s.window_index(id) {
                Some(i) => Some(s.windows[i].proxy),
                None => None,
            },
            None => None,
        },
        None => None,
    }
}

/// The requests that route the keyboard focus of every seat.
pub open spec fn focus_requests(s: StateModel) -> Seq<Request> {
    Seq::new(
        s.seats.len(),
        |i: int|
            match keyboard_target(s) {
                Some(window) => Request::FocusWindow { seat: s.seats[i].proxy, window },
                None => Request::ClearFocus { seat: s.seats[i].proxy },
            },
    )
}

/// Route the keyboard focus of every seat.
fn route_focus(state: &State, requests: &mut Vec<Request>)
    requires
        state@.wf(),
    ensures
        final(requests)@ == old(requests)@ + focus_requests(state@),
{
    let target: Option<u64> = match state.active_output() {
        Some(o) => match state.outputs[o].focused_window {
            Some(id) => match state.find_window_index(id) {
                Some(i) => Some(state.windows[i].proxy),
                None => None,
            },
            None => None,
        },
        None => None,
    };
    let ghost all = focus_requests(state@);
    let mut i: usize = 0;
    while i < state.seats.len()
        invariant
            i <= state.seats@.len(),
            target == keyboard_target(state@),
            all == focus_requests(state@),
            requests@ =~= old(requests)@ + all.take(i as int),
        decreases state.seats@.len() - i,
    {
        let seat: u64 = state.seats[i].proxy;
        match target {
            Some(window) => requests.push(Request::FocusWindow { seat, window }),
            None => requests.push(Request::ClearFocus { seat }),
        }
        i += 1;
    }
    assert(all.take(i as int) =~= all);
}

/// Whether new dimensions should be proposed to a window.
pub open spec fn wants(w: Window, width: u32, height: u32) -> bool {
    width != 0 && height != 0 && w.proposed_dimensions != Some((width, height))
}

/// The request that proposes dimensions to a window.
pub open spec fn proposal(w: Window, width: u32, height: u32) -> Request {
    Request::ProposeDimensions { window: w.proxy, width: width as i32, height: height as i32 }
}

/// The state and requests after the cells of a layout were proposed to their
/// windows, in order.
pub open spec fn cells_proposed(s: StateModel, list: Seq<(u32, Geometry)>) -> (
    StateModel,
    Seq<Request>,
)
    decreases list.len(),
{
    if list.len() == 0 {
        (s, Seq::empty())
    } else {
        let before = cells_proposed(s, list.drop_last());
        let (id, g) = list.last();
        match before.0.window_index(id) {
            Some(i) => {
                let w = before.0.windows[i];
                if wants(w, g.width, g.height) {
                    (
                        before.0.with_window(
                            i,
                            Window { proposed_dimensions: Some((g.width, g.height)), ..w },
                        ),
                        before.1.push(proposal(w, g.width, g.height)),
                    )
                } else {
                    before
                }
            },
            None => before,
        }
    }
}

/// Propose the cells of a layout to their windows.
fn propose_cells(state: &mut State, list: &Vec<(u32, Geometry)>, requests: &mut Vec<Request>)
    ensures
        final(state)@ == cells_proposed(old(state)@, list@).0,
        final(requests)@ == old(requests)@ + cells_proposed(old(state)@, list@).1,
{
    let mut k: usize = 0;
    assert(list@.take(0) =~= Seq::empty());
    while k < list.len()
        invariant
            k <= list@.len(),
            state@ == cells_proposed(old(state)@, list@.take(k as int)).0,
            requests@ =~= old(requests)@ + cells_proposed(old(state)@, list@.take(k as int)).1,
        decreases list@.len() - k,
    {
        assert(list@.take(k + 1).drop_last() =~= list@.take(k as int));
        assert(list@.take(k + 1).last() == list@[k as int]);
        let (id, g): (u32, Geometry) = list[k];
        if g.width != 0 && g.height != 0 {
            if let Some(i) = state.find_window_index(id) {
                if state.windows[i].proposed_dimensions != Some((g.width, g.height)) {
                    requests.push(
                        Request::ProposeDimensions {
                            window: state.windows[i].proxy,
                            width: g.width as i32,
                            height: g.height as i32,
                        },
                    );
                    state.windows[i].proposed_dimensions = Some((g.width, g.height));
                }
            }
        }
        k += 1;
    }
    assert(list@.take(k as int) =~= list@);
}

/// Whether the floating size of a window should be proposed to it.
pub open spec fn wants_float_size(w: Window) -> bool {
    w.floating && wants(w, w.float_w, w.float_h)
}

/// A window after its floating size was proposed to it.
pub open spec fn float_proposed(w: Window) -> Window {
    if wants_float_size(w) {
        Window { proposed_dimensions: Some((w.float_w, w.float_h)), ..w }
    } else {
        w
    }
}

/// The requests that propose their size to floating windows.
pub open spec fn float_requests(windows: Seq<Window>) -> Seq<Request>
    decreases windows.len(),
{
    if windows.len() == 0 {
        Seq::empty()
    } else {
        let before = float_requests(windows.drop_last());
        let w = windows.last();
        if wants_float_size(w) {
            before.push(proposal(w, w.float_w, w.float_h))
        } else {
            before
        }
    }
}

/// The state after floating windows were proposed their size.
pub open spec fn floats_proposed(s: StateModel) -> StateModel {
    StateModel {
        windows: Seq::new(s.windows.len(), |i: int| float_proposed(s.windows[i])),
        ..s
    }
}

/// Propose their size to floating windows.
fn propose_floats(state: &mut State, requests: &mut Vec<Request>)
    ensures
        final(state)@ == floats_proposed(old(state)@),
        final(requests)@ == old(requests)@ + float_requests(old(state).windows@),
{
    let ghost start = state@;
    let ghost target = floats_proposed(start);
    let mut i: usize = 0;
    assert(start.windows.take(0) =~= Seq::empty());
    while i < state.windows.len()
        invariant
            start == old(state)@,
            target == floats_proposed(start),
            i <= state.windows@.len() == start.windows.len(),
            state@ == (StateModel { windows: state.windows@, ..start }),
            forall|k: int| 0 <= k < i ==> state.windows@[k] == target.windows[k],
            forall|k: int| i <= k < state.windows@.len() ==> state.windows@[k] == start.windows[k],
            requests@ =~= old(requests)@ + float_requests(start.windows.take(i as int)),
        decreases state.windows@.len() - i,
    {
        assert(start.windows.take(i + 1).drop_last() =~= start.windows.take(i as int));
        assert(start.windows.take(i + 1).last() == start.windows[i as int]);
        let width: u32 = state.windows[i].float_w;
        let height: u32 = state.windows[i].float_h;
        if state.windows[i].floating && width > 0 && height > 0
            && state.windows[i].proposed_dimensions != Some((width, height)) {
            requests.push(
                Request::ProposeDimensions {
                    window: state.windows[i].proxy,
                    width: width as i32,
                    height: height as i32,
                },
            );
            state.windows[i].proposed_dimensions = Some((width, height));
        }
        i += 1;
    }
    assert(start.windows.take(i as int) =~= start.windows);
    assert(state@ =~= target);
}

/// The request that enables a keybinding, or disables one for resize mode
/// outside of it.
pub open spec fn binding_request(resize_mode: bool, binding: (u64, String)) -> Request {
    if bindings::is_resize_action(binding.1@) && !resize_mode {
        Request::DisableBinding { binding: binding.0 }
    } else {
        Request::EnableBinding { binding: binding.0 }
    }
}

/// The requests that enable and disable the bindings.
pub open spec fn binding_requests(d: AppModel) -> Seq<Request> {
    Seq::new(
        d.bindings.len(),
        |i: int| binding_request(d.state.resize_mode, d.bindings[i]),
    ) + Seq::new(
        d.pointer_bindings.len(),
        |i: int| Request::EnablePointerBinding { binding: d.pointer_bindings[i].0 },
    )
}

/// Enable the bindings; those for resize mode only inside of it.
fn set_bindings(data: &AppData, requests: &mut Vec<Request>)
    ensures
        final(requests)@ == old(requests)@ + binding_requests(data@),
{
    let ghost all = binding_requests(data@);
    let mut i: usize = 0;
    while i < data.bindings.len()
        invariant
            i <= data.bindings@.len(),
            all == binding_requests(data@),
            requests@ =~= old(requests)@ + all.take(i as int),
        decreases data.bindings@.len() - i,
    {
        let binding: u64 = data.bindings[i].0;
        if bindings::is_resize_binding(data.bindings[i].1.as_str()) && !data.state.resize_mode {
            requests.push(Request::DisableBinding { binding });
        } else {
            requests.push(Request::EnableBinding { binding });
        }
        i += 1;
    }
    let mut k: usize = 0;
    while k < data.pointer_bindings.len()
        invariant
            k <= data.pointer_bindings@.len(),
            all == binding_requests(data@),
            requests@ =~= old(requests)@ + all.take(data.bindings@.len() + k),
        decreases data.pointer_bindings@.len() - k,
    {
        requests.push(Request::EnablePointerBinding { binding: data.pointer_bindings[k].0 });
        k += 1;
    }
    assert(all.take(data.bindings@.len() + k) =~= all);
}

/// Half of `v`, rounded towards zero.
pub open spec fn half(v: i32) -> int {
    if v >= 0 {
        v as int / 2
    } else {
        -((-v) / 2)
    }
}

/// Half of `v`, rounded towards zero.
fn halve(v: i32) -> (r: i32)
    ensures
        r == half(v),
{
    if v >= 0 {
        v / 2
    } else {
        let wide: i64 = -(v as i64);
        (-(wide / 2)) as i32
    }
}

/// The center of an output.
pub open spec fn center(output: Output) -> (int, int) {
    (output.x + half(output.width as i32), output.y + half(output.height as i32))
}

/// Whether the pointer can be warped where it should: to a point with
/// coordinates of 32 bits.
pub open spec fn warp_fits(d: AppModel) -> bool {
    match d.pending_pointer_warp {
        Some(t) => t < d.state.outputs.len() ==> {
            let c = center(d.state.outputs[t as int]);
            layout::fits(c.0) && layout::fits(c.1)
        },
        None => true,
    }
}

/// Whether the pointer can be warped where it should.
pub fn can_warp(data: &AppData) -> (r: bool)
    ensures
        r == warp_fits(data@),
{
    match data.pending_pointer_warp {
        Some(t) => {
            if t < data.state.outputs.len() {
                let output = &data.state.outputs[t];
                let x: i64 = output.x as i64 + halve(output.width as i32) as i64;
                let y: i64 = output.y as i64 + halve(output.height as i32) as i64;
                i32::MIN as i64 <= x && x <= i32::MAX as i64 && i32::MIN as i64 <= y && y
                    <= i32::MAX as i64
            } else {
                true
            }
        },
        None => true,
    }
}

/// The requests that warp the pointer of every seat to the center of an output.
pub open spec fn warp_requests(s: StateModel, t: int) -> Seq<Request> {
    let c = center(s.outputs[t]);
    Seq::new(
        s.seats.len(),
        |i: int|
            Request::WarpPointer { seat: s.seats[i].proxy, x: c.0 as i32, y: c.1 as i32 },
    )
}

/// The plan with the pointer warped where it should.
pub open spec fn warped(p: Plan) -> Plan {
    match p.data.pending_pointer_warp {
        Some(t) => {
            let done = p.with_data(AppModel { pending_pointer_warp: None, ..p.data });
            if t < p.data.state.outputs.len() {
                done.sending(warp_requests(p.data.state, t as int))
            } else {
                done
            }
        },
        None => p,
    }
}

/// Warp the pointer where it should.
fn warp_pointer(data: &mut AppData, requests: &mut Vec<Request>)
    requires
        warp_fits(old(data)@),
    ensures
        request::plan(final(data)@, final(requests)@) == warped(
            request::plan(old(data)@, old(requests)@),
        ),
{
    if let Some(t) = data.pending_pointer_warp {
        if t < data.state.outputs.len() {
            let ghost all = warp_requests(data.state@, t as int);
            let x: i32 = data.state.outputs[t].x + halve(data.state.outputs[t].width as i32);
            let y: i32 = data.state.outputs[t].y + halve(data.state.outputs[t].height as i32);
            let mut i: usize = 0;
            while i < data.state.seats.len()
                invariant
                    *data == *old(data),
                    i <= data.state.seats@.len(),
                    t < data.state.outputs@.len(),
                    all == warp_requests(data.state@, t as int),
                    x == center(data.state.outputs@[t as int]).0,
                    y == center(data.state.outputs@[t as int]).1,
                    requests@ =~= old(requests)@ + all.take(i as int),
                decreases data.state.seats@.len() - i,
            {
                requests.push(Request::WarpPointer { seat: data.state.seats[i].proxy, x, y });
                i += 1;
            }
            assert(all.take(i as int) =~= all);
        }
        data.pending_pointer_warp = None;
    }
    assert(request::plan(data@, requests@) =~= warped(request::plan(old(data)@, old(requests)@)));
}

/// The plan before dimensions are proposed: pointer operations processed, focus
/// settled, every window hidden and prepared, and the keyboard routed.
pub open spec fn settled(d: AppModel) -> Plan {
    let ops = pointer::op_ended(pointer::op_started(request::plan(d, Seq::empty())));
    let s = all_refocused(ops.data.state);
    let closing = ops.data.pending_close;
    let ready = ops.with_data(
        AppModel {
            state: all_prepared(s, ops.data.config.use_ssd),
            pending_close: Seq::empty(),
            ..ops.data
        },
    ).sending(hide_requests(s.windows)).sending(close_requests(s, closing)).sending(
        prepare_requests(s, ops.data.config.use_ssd, s.windows),
    );
    let layered = layer_chosen(ready);
    layered.sending(focus_requests(layered.data.state))
}

/// The plan of a manage sequence.
pub open spec fn manage_plan(d: AppModel) -> Plan {
    let before = settled(d);
    let cells = cells_proposed(
        before.data.state,
        layout::layout(all_refocused(d.state), d.config.gap),
    );
    let proposed = before.with_data(before.data.with_state(floats_proposed(cells.0))).sending(
        cells.1,
    ).sending(float_requests(cells.0.windows));
    let bound = proposed.sending(binding_requests(proposed.data));
    warped(bound).sending(seq![Request::ManageFinish])
}

/// Cells are proposed without touching anything but proposed dimensions.
pub proof fn lemma_cells_proposed(s: StateModel, list: Seq<(u32, Geometry)>)
    ensures
        cells_proposed(s, list).0 == (StateModel {
            windows: cells_proposed(s, list).0.windows,
            ..s
        }),
    decreases list.len(),
{
    if list.len() > 0 {
        lemma_cells_proposed(s, list.drop_last());
    }
}

/// Run a manage sequence: process pointer operations, settle the focus of every
/// output, hide all windows, apply queued closes, capabilities, decorations and
/// fullscreen changes, route the keyboard focus, propose dimensions, enable the
/// bindings, and warp the pointer. Returns the requests to send, in order.
pub fn on_manage_start(data: &mut AppData) -> (requests: Vec<Request>)
    requires
        old(data).state@.wf(),
        layout::layout_fits(old(data).state@, old(data).config.gap),
        warp_fits(old(data)@),
    ensures
        request::plan(final(data)@, requests@) == manage_plan(old(data)@),
        final(data).state@.wf(),
{
    proof {
        laws::manage_keeps_wf(data@);
    }
    let mut requests: Vec<Request> = Vec::new();
    let ghost d = data@;
    assert(requests@ =~= Seq::empty());
    pointer::process_pointer_ops(data, &mut requests);
    let ghost ops = request::plan(data@, requests@);
    assert(ops.data.state == d.state);
    proof {
        lemma_all_refocused(d.state, d.config.gap);
    }
    refocus_all(&mut data.state);
    let cells: Vec<(u32, Geometry)> = layout::compute_all(&data.state, &data.config);
    let ghost s = data.state@;
    hide_all(data, &mut requests);
    close_pending(data, &mut requests);
    let use_ssd = data.config.use_ssd;
    prepare_all(&mut data.state, use_ssd, &mut requests);
    assert(data.state@.wf()) by {
        invariants::lemma_same_places(s, data.state@);
    }
    choose_layer(data, &mut requests);
    route_focus(&data.state, &mut requests);
    assert(request::plan(data@, requests@) =~= settled(d));
    let ghost before = settled(d);
    proof {
        lemma_cells_proposed(before.data.state, cells@);
    }
    propose_cells(&mut data.state, &cells, &mut requests);
    propose_floats(&mut data.state, &mut requests);
    set_bindings(data, &mut requests);
    warp_pointer(data, &mut requests);
    requests.push(Request::ManageFinish);
    assert(request::plan(data@, requests@) =~= manage_plan(d));
    requests
}

} // verus!
