//! What the requests of a manage sequence ask for, said of every window, seat
//! and binding.
use vstd::prelude::*;

use crate::actions;
use crate::connection::{AppModel, PointerOp};
use crate::deeds;
use crate::invariants;
use crate::laws;
use crate::pointer;
use crate::repair;
use crate::request;
use crate::request::{Capabilities, Request};
use crate::search;
use crate::state::{Output, StateModel, Window};
use crate::wm::layout;
use crate::wm::layout::Geometry;
use crate::wm::manage;
use crate::wm::sequences;

verus! {

/// What stands in one of two lists of requests stands in both of them together.
pub proof fn lemma_both(a: Seq<Request>, b: Seq<Request>, r: Request)
    ensures
        (a + b).contains(r) <==> a.contains(r) || b.contains(r),
{
    if a.contains(r) {
        let k = choose|k: int| 0 <= k < a.len() && a[k] == r;
        assert((a + b)[k] == r);
    }
    if b.contains(r) {
        let k = choose|k: int| 0 <= k < b.len() && b[k] == r;
        assert((a + b)[a.len() + k] == r);
    }
    if (a + b).contains(r) {
        let k = choose|k: int| 0 <= k < (a + b).len() && (a + b)[k] == r;
        if k < a.len() {
            assert(a[k] == r);
        } else {
            assert(b[k - a.len()] == r);
        }
    }
}

/// What stands in a list of one request is that request.
pub proof fn lemma_single(a: Request, r: Request)
    ensures
        seq![a].contains(r) <==> r == a,
{
    assert(seq![a][0] == a);
}

/// What stands in a list of three requests is one of them.
pub proof fn lemma_triple(a: Request, b: Request, c: Request, r: Request)
    ensures
        seq![a, b, c].contains(r) <==> r == a || r == b || r == c,
{
    let list = seq![a, b, c];
    assert(list[0] == a && list[1] == b && list[2] == c);
}

/// The requests about pointer operations that start a manage sequence.
pub open spec fn op_part(d: AppModel) -> Seq<Request> {
    pointer::op_ended(pointer::op_started(request::plan(d, Seq::empty()))).requests
}

/// The request about the default layer-shell output in a manage sequence.
pub open spec fn layer_part(d: AppModel) -> Seq<Request> {
    if !d.layer_default_set && d.state.outputs.len() > 0 && d.state.outputs[0].layer is Some {
        seq![Request::SetDefaultLayer { layer: d.state.outputs[0].layer->0 }]
    } else {
        Seq::empty()
    }
}

/// The requests about the pointer's place in a manage sequence.
pub open spec fn warp_part(d: AppModel) -> Seq<Request> {
    match d.pending_pointer_warp {
        Some(t) => if t < d.state.outputs.len() {
            manage::warp_requests(d.state, t as int)
        } else {
            Seq::empty()
        },
        None => Seq::empty(),
    }
}

/// The state of a manage sequence once windows were prepared.
pub open spec fn ready_state(d: AppModel) -> StateModel {
    manage::all_prepared(manage::all_refocused(d.state), d.config.use_ssd)
}

/// The layout that a manage sequence proposes.
pub open spec fn cells(d: AppModel) -> Seq<(u32, Geometry)> {
    layout::layout(manage::all_refocused(d.state), d.config.gap)
}

/// What stands in a manage sequence stands in one of its parts.
proof fn lemma_parts(d: AppModel, r: Request)
    ensures
        ({
            let s = manage::all_refocused(d.state);
            let proposed = manage::cells_proposed(ready_state(d), cells(d));
            manage::manage_plan(d).requests.contains(r) <==> {
                ||| op_part(d).contains(r)
                ||| manage::hide_requests(d.state.windows).contains(r)
                ||| manage::close_requests(s, d.pending_close).contains(r)
                ||| manage::prepare_requests(s, d.config.use_ssd, d.state.windows).contains(r)
                ||| layer_part(d).contains(r)
                ||| manage::focus_requests(ready_state(d)).contains(r)
                ||| proposed.1.contains(r)
                ||| manage::float_requests(proposed.0.windows).contains(r)
                ||| manage::binding_requests(d).contains(r)
                ||| warp_part(d).contains(r)
                ||| r is ManageFinish
            }
        }),
{
    let s = manage::all_refocused(d.state);
    let ready = ready_state(d);
    let proposed = manage::cells_proposed(ready, cells(d));
    manage::lemma_cells_proposed(ready, cells(d));
    let a0 = op_part(d);
    let a1 = a0 + manage::hide_requests(d.state.windows);
    let a2 = a1 + manage::close_requests(s, d.pending_close);
    let a3 = a2 + manage::prepare_requests(s, d.config.use_ssd, d.state.windows);
    let a4 = a3 + layer_part(d);
    let a5 = a4 + manage::focus_requests(ready);
    let a6 = a5 + proposed.1;
    let a7 = a6 + manage::float_requests(proposed.0.windows);
    let a8 = a7 + manage::binding_requests(d);
    let a9 = a8 + warp_part(d);
    let a10 = a9 + seq![Request::ManageFinish];
    let before = manage::settled(d);
    assert(before.data.state == ready);
    assert(before.requests =~= a5);
    assert(before.data.bindings == d.bindings);
    assert(before.data.pointer_bindings == d.pointer_bindings);
    assert(before.data.pending_pointer_warp == d.pending_pointer_warp);
    let floated = manage::floats_proposed(proposed.0);
    assert(floated.resize_mode == d.state.resize_mode);
    let middle = before.data.with_state(floated);
    assert(manage::binding_requests(middle) =~= manage::binding_requests(d));
    if let Some(t) = d.pending_pointer_warp {
        if t < d.state.outputs.len() {
            assert(floated.outputs[t as int].x == d.state.outputs[t as int].x);
            assert(manage::warp_requests(floated, t as int) =~= manage::warp_requests(
                d.state,
                t as int,
            ));
        }
    }
    assert(manage::manage_plan(d).requests =~= a10);
    lemma_both(a0, manage::hide_requests(d.state.windows), r);
    lemma_both(a1, manage::close_requests(s, d.pending_close), r);
    lemma_both(a2, manage::prepare_requests(s, d.config.use_ssd, d.state.windows), r);
    lemma_both(a3, layer_part(d), r);
    lemma_both(a4, manage::focus_requests(ready), r);
    lemma_both(a5, proposed.1, r);
    lemma_both(a6, manage::float_requests(proposed.0.windows), r);
    lemma_both(a7, manage::binding_requests(d), r);
    lemma_both(a8, warp_part(d), r);
    lemma_both(a9, seq![Request::ManageFinish], r);
    lemma_single(Request::ManageFinish, r);
}

/// A window is found by an identifier exactly if it is its own.
proof fn lemma_found(s: StateModel, id: u32)
    requires
        s.wf(),
    ensures
        forall|i: int|
            0 <= i < s.windows.len() && (#[trigger] s.windows[i]).id == id ==> s.window_index(id)
                == Some(i),
        s.window_index(id) matches Some(i) ==> 0 <= i < s.windows.len() && s.windows[i].id == id,
{
    search::lemma_least(s.windows.len() as int, s.has_id(id));
    if let Some(i) = s.window_index(id) {
        assert(s.has_id(id)(i));
    }
    assert forall|i: int| 0 <= i < s.windows.len() && (#[trigger] s.windows[i]).id == id implies
        s.window_index(id) == Some(i) by {
        invariants::window_is_found_by_id(s, i);
    }
}

/// Which operation is under way once a queued one was started.
pub open spec fn current_op(d: AppModel) -> Option<PointerOp> {
    if d.pending_op is Some {
        d.pending_op
    } else {
        d.pointer_op
    }
}

/// The requests about pointer operations.
proof fn lemma_op_part(d: AppModel, r: Request)
    ensures
        op_part(d).contains(r) <==> {
            ||| d.pending_op matches Some(op) && r == (Request::OpStartPointer { seat: op.seat })
            ||| d.op_end_requested && (current_op(d) matches Some(op) && r == (Request::OpEnd {
                seat: op.seat,
            }))
        },
{
    let first: Seq<Request> = match d.pending_op {
        Some(op) => seq![Request::OpStartPointer { seat: op.seat }],
        None => Seq::empty(),
    };
    let second: Seq<Request> = if d.op_end_requested && current_op(d) is Some {
        seq![Request::OpEnd { seat: current_op(d)->0.seat }]
    } else {
        Seq::empty()
    };
    assert(op_part(d) =~= first + second);
    lemma_both(first, second, r);
    if let Some(op) = d.pending_op {
        lemma_single(Request::OpStartPointer { seat: op.seat }, r);
    }
    if d.op_end_requested && current_op(d) is Some {
        lemma_single(Request::OpEnd { seat: current_op(d)->0.seat }, r);
    }
}

/// The requests that hide windows.
proof fn lemma_hide_part(windows: Seq<Window>, r: Request)
    ensures
        manage::hide_requests(windows).contains(r) <==> exists|i: int|
            0 <= i < windows.len() && r == (Request::Hide { window: (
            #[trigger] windows[i]).proxy }),
{
    let all = manage::hide_requests(windows);
    if all.contains(r) {
        let k = choose|k: int| 0 <= k < all.len() && all[k] == r;
        assert(r == (Request::Hide { window: windows[k].proxy }));
    }
    if exists|i: int|
        0 <= i < windows.len() && r == (Request::Hide { window: (#[trigger] windows[i]).proxy }) {
        let i = choose|i: int|
            0 <= i < windows.len() && r == (Request::Hide { window: (
            #[trigger] windows[i]).proxy });
        assert(all[i] == r);
    }
}

/// Whether the window at index `i` is among those with the given identifiers.
pub open spec fn is_among(s: StateModel, ids: Seq<u32>, i: int) -> bool {
    0 <= i < s.windows.len() && ids.contains(s.windows[i].id)
}

/// The requests that close windows.
proof fn lemma_close_part(s: StateModel, ids: Seq<u32>, r: Request)
    requires
        s.wf(),
    ensures
        manage::close_requests(s, ids).contains(r) <==> exists|i: int| #[trigger]
            is_among(s, ids, i) && r == (Request::Close { window: s.windows[i].proxy }),
    decreases ids.len(),
{
    if ids.len() > 0 {
        let rest = ids.drop_last();
        let before = manage::close_requests(s, rest);
        let all = manage::close_requests(s, ids);
        lemma_close_part(s, rest, r);
        lemma_found(s, ids.last());
        assert forall|i: int| #[trigger] is_among(s, ids, i) <==> is_among(s, rest, i) || (0 <= i
            < s.windows.len() && s.windows[i].id == ids.last()) by {
            if is_among(s, ids, i) {
                let k = choose|k: int| 0 <= k < ids.len() && ids[k] == s.windows[i].id;
                if k < rest.len() {
                    assert(rest[k] == s.windows[i].id);
                }
            }
            if is_among(s, rest, i) {
                let k = choose|k: int| 0 <= k < rest.len() && rest[k] == s.windows[i].id;
                assert(ids[k] == s.windows[i].id);
            }
            if 0 <= i < s.windows.len() && s.windows[i].id == ids.last() {
                assert(ids[ids.len() - 1] == s.windows[i].id);
            }
        }
        if let Some(i) = s.window_index(ids.last()) {
            let own = Request::Close { window: s.windows[i].proxy };
            assert(all =~= before + seq![own]);
            lemma_both(before, seq![own], r);
            lemma_single(own, r);
            assert(is_among(s, ids, i));
        }
        if all.contains(r) && before.contains(r) {
            let i = choose|i: int| #[trigger]
                is_among(s, rest, i) && r == (Request::Close { window: s.windows[i].proxy });
            assert(is_among(s, ids, i));
        }
        if exists|i: int| #[trigger]
            is_among(s, ids, i) && r == (Request::Close { window: s.windows[i].proxy }) {
            let i = choose|i: int| #[trigger]
                is_among(s, ids, i) && r == (Request::Close { window: s.windows[i].proxy });
            if s.windows[i].id != ids.last() {
                assert(is_among(s, rest, i));
            }
        }
    }
}

/// What is told about a window that was not told before: its capabilities, its
/// decoration, and whether it is fullscreen.
pub open spec fn told(s: StateModel, use_ssd: bool, w: Window, r: Request) -> bool {
    ||| !w.caps_set && r == (Request::SetCapabilities {
        window: w.proxy,
        capabilities: Capabilities {
            window_menu: false,
            maximize: true,
            fullscreen: true,
            minimize: true,
        },
    })
    ||| use_ssd && w.ssd_applied != Some(true) && r == (Request::UseSsd { window: w.proxy })
    ||| !use_ssd && w.ssd_applied != Some(false) && r == (Request::UseCsd { window: w.proxy })
    ||| w.fullscreen && !w.fullscreen_applied && (manage::fullscreen_output(s, w) matches Some(
        output,
    ) && (r == (Request::Fullscreen { window: w.proxy, output }) || r == (
    Request::InformMaximized { window: w.proxy }) || r == (Request::InformFullscreen {
        window: w.proxy,
    })))
    ||| !w.fullscreen && w.fullscreen_applied && (r == (Request::ExitFullscreen {
        window: w.proxy,
    }) || r == (Request::InformUnmaximized { window: w.proxy }) || r == (
    Request::InformNotFullscreen { window: w.proxy }))
}

/// The requests that prepare a window.
proof fn lemma_window_part(s: StateModel, use_ssd: bool, w: Window, r: Request)
    ensures
        manage::window_requests(s, use_ssd, w).contains(r) <==> told(s, use_ssd, w, r),
{
    let a = manage::capability_requests(w);
    let b = manage::decoration_requests(use_ssd, w);
    let c = manage::fullscreen_requests(s, w);
    lemma_both(a, b, r);
    lemma_both(a + b, c, r);
    let caps = Request::SetCapabilities {
        window: w.proxy,
        capabilities: manage::capabilities(),
    };
    lemma_single(caps, r);
    lemma_single(Request::UseSsd { window: w.proxy }, r);
    lemma_single(Request::UseCsd { window: w.proxy }, r);
    if let Some(output) = manage::fullscreen_output(s, w) {
        lemma_triple(
            Request::Fullscreen { window: w.proxy, output },
            Request::InformMaximized { window: w.proxy },
            Request::InformFullscreen { window: w.proxy },
            r,
        );
    }
    lemma_triple(
        Request::ExitFullscreen { window: w.proxy },
        Request::InformUnmaximized { window: w.proxy },
        Request::InformNotFullscreen { window: w.proxy },
        r,
    );
}

/// The requests that prepare windows.
proof fn lemma_prepare_part(s: StateModel, use_ssd: bool, windows: Seq<Window>, r: Request)
    ensures
        manage::prepare_requests(s, use_ssd, windows).contains(r) <==> exists|i: int|
            0 <= i < windows.len() && told(s, use_ssd, #[trigger] windows[i], r),
    decreases windows.len(),
{
    if windows.len() > 0 {
        let rest = windows.drop_last();
        let w = windows.last();
        lemma_prepare_part(s, use_ssd, rest, r);
        lemma_window_part(s, use_ssd, w, r);
        lemma_both(
            manage::prepare_requests(s, use_ssd, rest),
            manage::window_requests(s, use_ssd, w),
            r,
        );
        if exists|i: int| 0 <= i < rest.len() && told(s, use_ssd, #[trigger] rest[i], r) {
            let i = choose|i: int| 0 <= i < rest.len() && told(s, use_ssd, #[trigger] rest[i], r);
            assert(windows[i] == rest[i]);
        }
        if told(s, use_ssd, w, r) {
            assert(windows[windows.len() - 1] == w);
        }
        if exists|i: int| 0 <= i < windows.len() && told(s, use_ssd, #[trigger] windows[i], r) {
            let i = choose|i: int|
                0 <= i < windows.len() && told(s, use_ssd, #[trigger] windows[i], r);
            if i < rest.len() {
                assert(rest[i] == windows[i]);
            }
        }
    }
}

/// The requests that route the keyboard.
proof fn lemma_focus_part(s: StateModel, r: Request)
    ensures
        manage::focus_requests(s).contains(r) <==> exists|i: int|
            0 <= i < s.seats.len() && (match manage::keyboard_target(s) {
                Some(window) => r == (Request::FocusWindow { seat: (#[trigger] s.seats[i]).proxy, window }),
                None => r == (Request::ClearFocus { seat: s.seats[i].proxy }),
            }),
{
    let all = manage::focus_requests(s);
    if all.contains(r) {
        let k = choose|k: int| 0 <= k < all.len() && all[k] == r;
        let seat = s.seats[k];
        assert(all[k] == r);
    }
    assert forall|i: int| 0 <= i < s.seats.len() implies all.contains(match manage::keyboard_target(s) {
        Some(window) => Request::FocusWindow { seat: (#[trigger] s.seats[i]).proxy, window },
        None => Request::ClearFocus { seat: s.seats[i].proxy },
    }) by {
        assert(all.contains(all[i]));
    }
}

/// The requests about bindings.
proof fn lemma_binding_part(d: AppModel, r: Request)
    ensures
        manage::binding_requests(d).contains(r) ==> r is EnableBinding || r is DisableBinding
            || r is EnablePointerBinding,
        r is EnablePointerBinding ==> (manage::binding_requests(d).contains(r) <==> exists|i: int|
            0 <= i < d.pointer_bindings.len() && r == (Request::EnablePointerBinding {
                binding: (#[trigger] d.pointer_bindings[i]).0,
            })),
{
    let keys = Seq::new(
        d.bindings.len(),
        |i: int| manage::binding_request(d.state.resize_mode, d.bindings[i]),
    );
    let buttons = Seq::new(
        d.pointer_bindings.len(),
        |i: int| Request::EnablePointerBinding { binding: d.pointer_bindings[i].0 },
    );
    lemma_both(keys, buttons, r);
    if buttons.contains(r) {
        let k = choose|k: int| 0 <= k < buttons.len() && buttons[k] == r;
        assert(r == (Request::EnablePointerBinding { binding: d.pointer_bindings[k].0 }));
    }
    assert forall|i: int| 0 <= i < d.pointer_bindings.len() implies buttons.contains(
        Request::EnablePointerBinding { binding: (#[trigger] d.pointer_bindings[i]).0 },
    ) by {
        assert(buttons.contains(buttons[i]));
    }
}

/// The requests about the pointer's place.
proof fn lemma_warp_part(d: AppModel, r: Request)
    ensures
        warp_part(d).contains(r) <==> (d.pending_pointer_warp matches Some(t) && t
            < d.state.outputs.len() && exists|i: int|
            0 <= i < d.state.seats.len() && r == (Request::WarpPointer {
                seat: (#[trigger] d.state.seats[i]).proxy,
                x: manage::center(d.state.outputs[t as int]).0 as i32,
                y: manage::center(d.state.outputs[t as int]).1 as i32,
            })),
{
    let all = warp_part(d);
    if let Some(t) = d.pending_pointer_warp {
        if t < d.state.outputs.len() {
            if all.contains(r) {
                let k = choose|k: int| 0 <= k < all.len() && all[k] == r;
                let seat = d.state.seats[k];
                assert(r is WarpPointer);
            }
            assert forall|i: int| 0 <= i < d.state.seats.len() implies all.contains(
                Request::WarpPointer {
                    seat: (#[trigger] d.state.seats[i]).proxy,
                    x: manage::center(d.state.outputs[t as int]).0 as i32,
                    y: manage::center(d.state.outputs[t as int]).1 as i32,
                },
            ) by {
                assert(all.contains(all[i]));
            }
        }
    }
}

/// What proposing cells does to one window.
proof fn lemma_cell_window(s: StateModel, list: Seq<(u32, Geometry)>, i: int)
    requires
        s.wf(),
        0 <= i < s.windows.len(),
        forall|a: int, b: int|
            0 <= a < b < list.len() ==> (#[trigger] list[a]).0 != (#[trigger] list[b]).0,
    ensures
        ({
            let t = manage::cells_proposed(s, list).0;
            &&& t.wf()
            &&& t.windows.len() == s.windows.len()
            &&& t.windows[i] == (Window {
                proposed_dimensions: t.windows[i].proposed_dimensions,
                ..s.windows[i]
            })
            &&& (forall|k: int| 0 <= k < list.len() ==> (#[trigger] list[k]).0 != s.windows[i].id)
                ==> t.windows[i] == s.windows[i]
            &&& forall|k: int|
                0 <= k < list.len() && (#[trigger] list[k]).0 == s.windows[i].id && list[k].1.width
                    != 0 && list[k].1.height != 0 ==> t.windows[i].proposed_dimensions == Some(
                    (list[k].1.width, list[k].1.height),
                )
        }),
    decreases list.len(),
{
    if list.len() > 0 {
        let rest = list.drop_last();
        let b = manage::cells_proposed(s, rest).0;
        let t = manage::cells_proposed(s, list).0;
        let (id, g) = list.last();
        assert forall|x: int, y: int| 0 <= x < y < rest.len() implies (#[trigger] rest[x]).0 != (
        #[trigger] rest[y]).0 by {
            assert(list[x].0 != list[y].0);
        }
        lemma_cell_window(s, rest, i);
        laws::lemma_proposed_places(s, list);
        manage::lemma_cells_proposed(s, list);
        invariants::lemma_same_places(s, t);
        lemma_found(b, id);
        assert(list[list.len() - 1] == (id, g));
        if forall|k: int| 0 <= k < list.len() ==> (#[trigger] list[k]).0 != s.windows[i].id {
            assert forall|k: int| 0 <= k < rest.len() implies (#[trigger] rest[k]).0
                != s.windows[i].id by {
                assert(list[k] == rest[k]);
            }
        }
        assert forall|k: int|
            0 <= k < list.len() && (#[trigger] list[k]).0 == s.windows[i].id && list[k].1.width
                != 0 && list[k].1.height != 0 implies t.windows[i].proposed_dimensions == Some(
            (list[k].1.width, list[k].1.height),
        ) by {
            if k < rest.len() {
                assert(rest[k] == list[k]);
                assert(list[k].0 != list[list.len() - 1].0);
            } else {
                assert(b.windows[i].id == id);
            }
        }
    }
}

/// Whether entry `k` of a layout is for the window at index `i`, and says
/// something else than what was proposed to it before.
pub open spec fn asks(s: StateModel, list: Seq<(u32, Geometry)>, k: int, i: int) -> bool {
    &&& 0 <= k < list.len()
    &&& 0 <= i < s.windows.len()
    &&& list[k].0 == s.windows[i].id
    &&& list[k].1.width != 0
    &&& list[k].1.height != 0
    &&& s.windows[i].proposed_dimensions != Some((list[k].1.width, list[k].1.height))
}

/// The requests that propose cells.
proof fn lemma_cell_part(s: StateModel, list: Seq<(u32, Geometry)>, r: Request)
    requires
        s.wf(),
        forall|a: int, b: int|
            0 <= a < b < list.len() ==> (#[trigger] list[a]).0 != (#[trigger] list[b]).0,
    ensures
        manage::cells_proposed(s, list).1.contains(r) <==> exists|k: int, i: int| #[trigger]
            asks(s, list, k, i) && r == (Request::ProposeDimensions {
                window: s.windows[i].proxy,
                width: list[k].1.width as i32,
                height: list[k].1.height as i32,
            }),
    decreases list.len(),
{
    if list.len() > 0 {
        let rest = list.drop_last();
        let b = manage::cells_proposed(s, rest);
        let all = manage::cells_proposed(s, list).1;
        let (id, g) = list.last();
        let n = list.len() - 1;
        assert forall|x: int, y: int| 0 <= x < y < rest.len() implies (#[trigger] rest[x]).0 != (
        #[trigger] rest[y]).0 by {
            assert(list[x].0 != list[y].0);
        }
        lemma_cell_part(s, rest, r);
        laws::lemma_proposed_places(s, rest);
        manage::lemma_cells_proposed(s, rest);
        invariants::lemma_same_places(s, b.0);
        lemma_found(b.0, id);
        assert(list[n] == (id, g));
        assert forall|k: int, i: int| #[trigger] asks(s, list, k, i) && k < n implies asks(
            s,
            rest,
            k,
            i,
        ) by {
            assert(rest[k] == list[k]);
        }
        assert forall|k: int, i: int| #[trigger] asks(s, rest, k, i) implies asks(
            s,
            list,
            k,
            i,
        ) by {
            assert(rest[k] == list[k]);
        }
        let own: Seq<Request> = match b.0.window_index(id) {
            Some(i) => if manage::wants(b.0.windows[i], g.width, g.height) {
                seq![manage::proposal(b.0.windows[i], g.width, g.height)]
            } else {
                Seq::empty()
            },
            None => Seq::empty(),
        };
        assert(all =~= b.1 + own);
        lemma_both(b.1, own, r);
        if let Some(i) = b.0.window_index(id) {
            lemma_cell_window(s, rest, i);
            assert forall|k: int| 0 <= k < rest.len() implies (#[trigger] rest[k]).0
                != s.windows[i].id by {
                assert(list[k].0 != list[n].0);
            }
            assert(b.0.windows[i] == s.windows[i]);
            lemma_single(manage::proposal(b.0.windows[i], g.width, g.height), r);
            if manage::wants(b.0.windows[i], g.width, g.height) {
                assert(asks(s, list, n, i));
            }
        }
        if b.1.contains(r) {
            let (k, i) = choose|k: int, i: int| #[trigger]
                asks(s, rest, k, i) && r == (Request::ProposeDimensions {
                    window: s.windows[i].proxy,
                    width: rest[k].1.width as i32,
                    height: rest[k].1.height as i32,
                });
            assert(rest[k] == list[k]);
            assert(asks(s, list, k, i));
        }
        if exists|k: int, i: int| #[trigger]
            asks(s, list, k, i) && r == (Request::ProposeDimensions {
                window: s.windows[i].proxy,
                width: list[k].1.width as i32,
                height: list[k].1.height as i32,
            }) {
            let (k, i) = choose|k: int, i: int| #[trigger]
                asks(s, list, k, i) && r == (Request::ProposeDimensions {
                    window: s.windows[i].proxy,
                    width: list[k].1.width as i32,
                    height: list[k].1.height as i32,
                });
            if k < n {
                assert(rest[k] == list[k]);
                assert(asks(s, rest, k, i));
            } else {
                assert(b.0.windows[i].id == id);
            }
        }
    }
}

/// Whether a window floats with a size that was not proposed to it before.
pub open spec fn asks_for_size(w: Window) -> bool {
    w.floating && w.float_w != 0 && w.float_h != 0 && w.proposed_dimensions != Some(
        (w.float_w, w.float_h),
    )
}

/// The requests that propose floating sizes.
proof fn lemma_float_part(windows: Seq<Window>, r: Request)
    ensures
        manage::float_requests(windows).contains(r) <==> exists|i: int|
            0 <= i < windows.len() && asks_for_size(#[trigger] windows[i]) && r == (
            Request::ProposeDimensions {
                window: windows[i].proxy,
                width: windows[i].float_w as i32,
                height: windows[i].float_h as i32,
            }),
    decreases windows.len(),
{
    if windows.len() > 0 {
        let rest = windows.drop_last();
        let w = windows.last();
        let n = windows.len() - 1;
        lemma_float_part(rest, r);
        assert(windows[n] == w);
        let own: Seq<Request> = if manage::wants_float_size(w) {
            seq![manage::proposal(w, w.float_w, w.float_h)]
        } else {
            Seq::empty()
        };
        assert(manage::float_requests(windows) =~= manage::float_requests(rest) + own);
        lemma_both(manage::float_requests(rest), own, r);
        lemma_single(manage::proposal(w, w.float_w, w.float_h), r);
        assert forall|i: int| 0 <= i < rest.len() implies #[trigger] rest[i] == windows[i] by {}
        if exists|i: int|
            0 <= i < windows.len() && asks_for_size(#[trigger] windows[i]) && r == (
            Request::ProposeDimensions {
                window: windows[i].proxy,
                width: windows[i].float_w as i32,
                height: windows[i].float_h as i32,
            }) {
            let i = choose|i: int|
                0 <= i < windows.len() && asks_for_size(#[trigger] windows[i]) && r == (
                Request::ProposeDimensions {
                    window: windows[i].proxy,
                    width: windows[i].float_w as i32,
                    height: windows[i].float_h as i32,
                });
            if i < n {
                assert(rest[i] == windows[i]);
            }
        }
        if exists|i: int|
            0 <= i < rest.len() && asks_for_size(#[trigger] rest[i]) && r == (
            Request::ProposeDimensions {
                window: rest[i].proxy,
                width: rest[i].float_w as i32,
                height: rest[i].float_h as i32,
            }) {
            let i = choose|i: int|
                0 <= i < rest.len() && asks_for_size(#[trigger] rest[i]) && r == (
                Request::ProposeDimensions {
                    window: rest[i].proxy,
                    width: rest[i].float_w as i32,
                    height: rest[i].float_h as i32,
                });
            assert(windows[i] == rest[i]);
        }
    }
}

/// What a manage sequence leaves of the state, and the layout that it proposes.
proof fn lemma_after(d: AppModel)
    requires
        d.state.wf(),
    ensures
        ({
            let e = manage::manage_plan(d).data;
            let s = manage::all_refocused(d.state);
            &&& e.state == (StateModel { windows: e.state.windows, ..s })
            &&& e.state.wf()
            &&& e.state.windows.len() == d.state.windows.len()
            &&& cells(d) == layout::layout(e.state, d.config.gap)
            &&& forall|i: int|
                0 <= i < d.state.windows.len() ==> (#[trigger] e.state.windows[i]) == (Window {
                    caps_set: true,
                    ssd_applied: Some(d.config.use_ssd),
                    fullscreen_applied: e.state.windows[i].fullscreen_applied,
                    proposed_dimensions: e.state.windows[i].proposed_dimensions,
                    ..d.state.windows[i]
                })
            &&& forall|i: int|
                0 <= i < d.state.windows.len() ==> (
                #[trigger] e.state.windows[i]).fullscreen_applied == manage::prepared(
                    s,
                    d.config.use_ssd,
                    d.state.windows[i],
                ).fullscreen_applied
            &&& forall|i: int, j: int|
                0 <= i < j < cells(d).len() ==> (#[trigger] cells(d)[i]).0 != (
                #[trigger] cells(d)[j]).0
        }),
{
    let e = manage::manage_plan(d).data;
    let s = manage::all_refocused(d.state);
    let ready = ready_state(d);
    let t = manage::cells_proposed(ready, cells(d)).0;
    laws::manage_keeps_wf(d);
    manage::lemma_all_refocused(d.state, d.config.gap);
    invariants::lemma_same_places(s, ready);
    manage::lemma_cells_proposed(ready, cells(d));
    laws::lemma_proposed_places(ready, cells(d));
    assert forall|i: int, j: int| 0 <= i < j < cells(d).len() implies (#[trigger] cells(d)[i]).0
        != (#[trigger] cells(d)[j]).0 by {
        sequences::no_window_is_laid_out_twice(s, d.config.gap, i, j);
    }
    assert(e.state == manage::floats_proposed(t));
    assert forall|i: int| 0 <= i < d.state.windows.len() implies (#[trigger] e.state.windows[i])
        == (Window {
        caps_set: true,
        ssd_applied: Some(d.config.use_ssd),
        fullscreen_applied: e.state.windows[i].fullscreen_applied,
        proposed_dimensions: e.state.windows[i].proposed_dimensions,
        ..d.state.windows[i]
    }) && e.state.windows[i].fullscreen_applied == manage::prepared(
        s,
        d.config.use_ssd,
        d.state.windows[i],
    ).fullscreen_applied by {
        lemma_cell_window(ready, cells(d), i);
        assert(ready.windows[i] == manage::prepared(s, d.config.use_ssd, d.state.windows[i]));
        assert(e.state.windows[i] == manage::float_proposed(t.windows[i]));
    }
    layout::lemma_same_layout(s, e.state, d.config.gap);
}

/// A window that floats is not laid out.
proof fn lemma_float_has_no_cell(s: StateModel, gap: u32, i: int, k: int)
    requires
        s.wf(),
        0 <= i < s.windows.len(),
        0 <= k < layout::layout(s, gap).len(),
        layout::layout(s, gap)[k].0 == s.windows[i].id,
    ensures
        !s.windows[i].floating,
        exists|o: int| 0 <= o < s.outputs.len() && #[trigger] s.shows(o, s.windows[i]),
{
    let (o, m) = layout::lemma_layout_entry(s, s.outputs.len() as int, gap, k);
    assert(layout::output_layout(s, o, gap)[m].0 == s.windows[i].id);
    assert(layout::laid_out_on(s, o, gap, s.windows[i].id));
    layout::shown_tiled_windows_are_laid_out(s, o, gap, i);
    assert(s.shows(o, s.windows[i]));
}

/// The requests that propose floating sizes in a manage sequence, said of the
/// windows that it started with.
proof fn lemma_sizes(d: AppModel, r: Request)
    requires
        d.state.wf(),
    ensures
        manage::float_requests(manage::cells_proposed(ready_state(d), cells(d)).0.windows).contains(
            r,
        ) <==> exists|i: int|
            0 <= i < d.state.windows.len() && asks_for_size(#[trigger] d.state.windows[i]) && r
                == (Request::ProposeDimensions {
                window: d.state.windows[i].proxy,
                width: d.state.windows[i].float_w as i32,
                height: d.state.windows[i].float_h as i32,
            }),
{
    let s = manage::all_refocused(d.state);
    let ready = ready_state(d);
    let t = manage::cells_proposed(ready, cells(d)).0;
    lemma_after(d);
    manage::lemma_all_refocused(d.state, d.config.gap);
    invariants::lemma_same_places(s, ready);
    laws::lemma_proposed_places(ready, cells(d));
    lemma_float_part(t.windows, r);
    assert forall|i: int| 0 <= i < d.state.windows.len() implies asks_for_size(
        #[trigger] t.windows[i],
    ) == asks_for_size(d.state.windows[i]) && t.windows[i].proxy == d.state.windows[i].proxy
        && t.windows[i].float_w == d.state.windows[i].float_w && t.windows[i].float_h
        == d.state.windows[i].float_h by {
        lemma_cell_window(ready, cells(d), i);
        assert(ready.windows[i] == manage::prepared(s, d.config.use_ssd, d.state.windows[i]));
        if d.state.windows[i].floating {
            assert forall|k: int| 0 <= k < cells(d).len() implies (#[trigger] cells(d)[k]).0
                != ready.windows[i].id by {
                if cells(d)[k].0 == ready.windows[i].id {
                    lemma_float_has_no_cell(s, d.config.gap, i, k);
                }
            }
        }
    }
    if exists|i: int|
        0 <= i < t.windows.len() && asks_for_size(#[trigger] t.windows[i]) && r == (
        Request::ProposeDimensions {
            window: t.windows[i].proxy,
            width: t.windows[i].float_w as i32,
            height: t.windows[i].float_h as i32,
        }) {
        let i = choose|i: int|
            0 <= i < t.windows.len() && asks_for_size(#[trigger] t.windows[i]) && r == (
            Request::ProposeDimensions {
                window: t.windows[i].proxy,
                width: t.windows[i].float_w as i32,
                height: t.windows[i].float_h as i32,
            });
        assert(asks_for_size(d.state.windows[i]));
    }
    if exists|i: int|
        0 <= i < d.state.windows.len() && asks_for_size(#[trigger] d.state.windows[i]) && r == (
        Request::ProposeDimensions {
            window: d.state.windows[i].proxy,
            width: d.state.windows[i].float_w as i32,
            height: d.state.windows[i].float_h as i32,
        }) {
        let i = choose|i: int|
            0 <= i < d.state.windows.len() && asks_for_size(#[trigger] d.state.windows[i]) && r
                == (Request::ProposeDimensions {
                window: d.state.windows[i].proxy,
                width: d.state.windows[i].float_w as i32,
                height: d.state.windows[i].float_h as i32,
            });
        assert(asks_for_size(t.windows[i]));
    }
}

/// What part of a manage sequence a request belongs to.
proof fn lemma_kinds(d: AppModel, r: Request)
    requires
        d.state.wf(),
    ensures
        ({
            let s = manage::all_refocused(d.state);
            let has = manage::manage_plan(d).requests.contains(r);
            &&& r is OpStartPointer || r is OpEnd ==> (has <==> op_part(d).contains(r))
            &&& r is Hide ==> (has <==> manage::hide_requests(d.state.windows).contains(r))
            &&& r is Close ==> (has <==> manage::close_requests(s, d.pending_close).contains(r))
            &&& r is SetCapabilities || r is UseSsd || r is UseCsd || r is Fullscreen
                || r is InformMaximized || r is InformFullscreen || r is ExitFullscreen
                || r is InformUnmaximized || r is InformNotFullscreen ==> (has
                <==> manage::prepare_requests(s, d.config.use_ssd, d.state.windows).contains(r))
            &&& r is SetDefaultLayer ==> (has <==> layer_part(d).contains(r))
            &&& r is FocusWindow || r is ClearFocus ==> (has <==> manage::focus_requests(
                ready_state(d),
            ).contains(r))
            &&& r is ProposeDimensions ==> (has <==> manage::cells_proposed(
                ready_state(d),
                cells(d),
            ).1.contains(r) || manage::float_requests(
                manage::cells_proposed(ready_state(d), cells(d)).0.windows,
            ).contains(r))
            &&& r is EnablePointerBinding ==> (has <==> manage::binding_requests(d).contains(r))
            &&& r is WarpPointer ==> (has <==> warp_part(d).contains(r))
            &&& !(r is Show || r is GetNode || r is SetPosition || r is PlaceTop || r is SetBorders
                || r is RenderFinish) || !has
        }),
{
    let s = manage::all_refocused(d.state);
    let ready = ready_state(d);
    lemma_after(d);
    manage::lemma_all_refocused(d.state, d.config.gap);
    invariants::lemma_same_places(s, ready);
    lemma_parts(d, r);
    lemma_op_part(d, r);
    lemma_hide_part(d.state.windows, r);
    lemma_close_part(s, d.pending_close, r);
    lemma_prepare_part(s, d.config.use_ssd, d.state.windows, r);
    if layer_part(d).len() > 0 {
        lemma_single(layer_part(d)[0], r);
        assert(layer_part(d) =~= seq![layer_part(d)[0]]);
    }
    lemma_focus_part(ready, r);
    lemma_cell_part(ready, cells(d), r);
    lemma_float_part(manage::cells_proposed(ready, cells(d)).0.windows, r);
    lemma_binding_part(d, r);
    lemma_warp_part(d, r);
}

/// Whether no two windows share a protocol handle.
pub open spec fn handles_distinct(s: StateModel) -> bool {
    forall|i: int, j: int|
        0 <= i < j < s.windows.len() ==> (#[trigger] s.windows[i]).proxy != (
        #[trigger] s.windows[j]).proxy
}

/// A manage sequence closes a window exactly if its identifier was queued, and
/// nothing else; the queue is then empty.
pub proof fn queued_windows_are_closed(d: AppModel, i: int, window: u64)
    requires
        d.state.wf(),
        handles_distinct(d.state),
        0 <= i < d.state.windows.len(),
    ensures
        manage::manage_plan(d).requests.contains(
            Request::Close { window: d.state.windows[i].proxy },
        ) <==> d.pending_close.contains(d.state.windows[i].id),
        manage::manage_plan(d).requests.contains(Request::Close { window }) ==> exists|k: int|
            0 <= k < d.state.windows.len() && (#[trigger] d.state.windows[k]).proxy == window
                && d.pending_close.contains(d.state.windows[k].id),
        manage::manage_plan(d).data.pending_close.len() == 0,
{
    let s = manage::all_refocused(d.state);
    manage::lemma_all_refocused(d.state, d.config.gap);
    let own = Request::Close { window: d.state.windows[i].proxy };
    lemma_kinds(d, own);
    lemma_close_part(s, d.pending_close, own);
    if d.pending_close.contains(d.state.windows[i].id) {
        assert(is_among(s, d.pending_close, i));
    }
    if manage::manage_plan(d).requests.contains(own) {
        let k = choose|k: int| #[trigger]
            is_among(s, d.pending_close, k) && own == (Request::Close {
                window: s.windows[k].proxy,
            });
        if k < i {
            assert(d.state.windows[k].proxy != d.state.windows[i].proxy);
        } else if i < k {
            assert(d.state.windows[i].proxy != d.state.windows[k].proxy);
        }
    }
    let other = Request::Close { window };
    lemma_kinds(d, other);
    lemma_close_part(s, d.pending_close, other);
    if manage::manage_plan(d).requests.contains(other) {
        let k = choose|k: int| #[trigger]
            is_among(s, d.pending_close, k) && other == (Request::Close {
                window: s.windows[k].proxy,
            });
        assert(d.state.windows[k].proxy == window);
    }
}

/// After the close action, the next manage sequence closes the focused window of
/// the active output, besides those that were queued before, and no other.
pub proof fn close_action_closes_the_focused_window(d: AppModel, i: int)
    requires
        d.state.wf(),
        handles_distinct(d.state),
        0 <= i < d.state.windows.len(),
    ensures
        ({
            let e = actions::action_run(d, "close"@).data;
            let w = d.state.windows[i];
            &&& e.state == d.state
            &&& manage::manage_plan(e).requests.contains(Request::Close { window: w.proxy }) <==> {
                ||| d.pending_close.contains(w.id)
                ||| d.state.focused_output matches Some(f) && d.state.outputs[f as int].focused_window
                    == Some(w.id)
                ||| d.state.focused_output is None && d.state.outputs.len() > 0
                    && d.state.outputs[0].focused_window == Some(w.id)
            }
        }),
{
    deeds::actions_are_told_apart(d);
    let e = actions::action_run(d, "close"@).data;
    assert(e == actions::close_queued(d).data);
    queued_windows_are_closed(e, i, 0);
    let id = d.state.windows[i].id;
    if d.pending_close.contains(id) {
        let k = choose|k: int| 0 <= k < d.pending_close.len() && d.pending_close[k] == id;
        assert(e.pending_close[k] == id);
    }
    if let Some(o) = d.state.active_output() {
        if d.state.outputs[o as int].focused_window == Some(id) {
            assert(e.pending_close.last() == id);
        }
    }
    if e.pending_close.contains(id) {
        let k = choose|k: int| 0 <= k < e.pending_close.len() && e.pending_close[k] == id;
        if k < d.pending_close.len() {
            assert(d.pending_close[k] == id);
        }
    }
}

/// A request about one window that a manage sequence prepares.
proof fn lemma_told(d: AppModel, i: int, r: Request)
    requires
        d.state.wf(),
        handles_distinct(d.state),
        0 <= i < d.state.windows.len(),
        ({
            let p = d.state.windows[i].proxy;
            ||| r matches Request::SetCapabilities { window, capabilities } && window == p
            ||| r == (Request::UseSsd { window: p })
            ||| r == (Request::UseCsd { window: p })
            ||| r matches Request::Fullscreen { window, output } && window == p
            ||| r == (Request::InformMaximized { window: p })
            ||| r == (Request::InformFullscreen { window: p })
            ||| r == (Request::ExitFullscreen { window: p })
            ||| r == (Request::InformUnmaximized { window: p })
            ||| r == (Request::InformNotFullscreen { window: p })
        }),
    ensures
        manage::manage_plan(d).requests.contains(r) <==> told(
            manage::all_refocused(d.state),
            d.config.use_ssd,
            d.state.windows[i],
            r,
        ),
{
    let s = manage::all_refocused(d.state);
    lemma_kinds(d, r);
    lemma_prepare_part(s, d.config.use_ssd, d.state.windows, r);
    if manage::manage_plan(d).requests.contains(r) {
        let k = choose|k: int|
            0 <= k < d.state.windows.len() && told(
                s,
                d.config.use_ssd,
                #[trigger] d.state.windows[k],
                r,
            );
        assert(d.state.windows[k].proxy == d.state.windows[i].proxy);
        if k < i {
            assert(d.state.windows[k].proxy != d.state.windows[i].proxy);
        } else if i < k {
            assert(d.state.windows[i].proxy != d.state.windows[k].proxy);
        }
    }
}

/// A manage sequence tells a window its capabilities if it was not told them
/// yet, and its decoration mode if that is not the one that was set. From then
/// on both are known.
pub proof fn windows_are_decorated_once(d: AppModel, i: int, capabilities: Capabilities)
    requires
        d.state.wf(),
        handles_distinct(d.state),
        0 <= i < d.state.windows.len(),
    ensures
        ({
            let w = d.state.windows[i];
            let requests = manage::manage_plan(d).requests;
            let v = manage::manage_plan(d).data.state.windows[i];
            &&& requests.contains(Request::SetCapabilities { window: w.proxy, capabilities })
                <==> !w.caps_set && capabilities.maximize && capabilities.fullscreen
                && capabilities.minimize && !capabilities.window_menu
            &&& requests.contains(Request::UseSsd { window: w.proxy }) <==> d.config.use_ssd
                && w.ssd_applied != Some(true)
            &&& requests.contains(Request::UseCsd { window: w.proxy }) <==> !d.config.use_ssd
                && w.ssd_applied != Some(false)
            &&& v.caps_set
            &&& v.ssd_applied == Some(d.config.use_ssd)
        }),
{
    let w = d.state.windows[i];
    lemma_told(d, i, Request::SetCapabilities { window: w.proxy, capabilities });
    lemma_told(d, i, Request::UseSsd { window: w.proxy });
    lemma_told(d, i, Request::UseCsd { window: w.proxy });
    lemma_after(d);
    assert(manage::manage_plan(d).data.state.windows[i].caps_set);
}

/// A manage sequence makes a window fullscreen that should be and is not, on the
/// output that owns its tag, or the first output where none does, and tells it
/// so; takes one out of fullscreen that should not be and is; and asks nothing
/// of the others. What was asked is remembered.
pub proof fn fullscreen_is_applied(d: AppModel, i: int, output: u64)
    requires
        d.state.wf(),
        handles_distinct(d.state),
        0 <= i < d.state.windows.len(),
    ensures
        ({
            let w = d.state.windows[i];
            let requests = manage::manage_plan(d).requests;
            let v = manage::manage_plan(d).data.state.windows[i];
            let o = match d.state.tags[w.tag as int].output {
                Some(owner) => owner as int,
                None => 0,
            };
            let enters = w.fullscreen && !w.fullscreen_applied && d.state.outputs.len() > 0;
            let leaves = !w.fullscreen && w.fullscreen_applied;
            &&& requests.contains(Request::Fullscreen { window: w.proxy, output }) <==> enters
                && output == d.state.outputs[o].proxy
            &&& requests.contains(Request::InformMaximized { window: w.proxy }) <==> enters
            &&& requests.contains(Request::InformFullscreen { window: w.proxy }) <==> enters
            &&& requests.contains(Request::ExitFullscreen { window: w.proxy }) <==> leaves
            &&& requests.contains(Request::InformUnmaximized { window: w.proxy }) <==> leaves
            &&& requests.contains(Request::InformNotFullscreen { window: w.proxy }) <==> leaves
            &&& v.fullscreen == w.fullscreen
            &&& v.fullscreen_applied == (if enters || leaves {
                w.fullscreen
            } else {
                w.fullscreen_applied
            })
        }),
{
    let w = d.state.windows[i];
    let p = w.proxy;
    lemma_told(d, i, Request::Fullscreen { window: p, output });
    lemma_told(d, i, Request::InformMaximized { window: p });
    lemma_told(d, i, Request::InformFullscreen { window: p });
    lemma_told(d, i, Request::ExitFullscreen { window: p });
    lemma_told(d, i, Request::InformUnmaximized { window: p });
    lemma_told(d, i, Request::InformNotFullscreen { window: p });
    lemma_after(d);
    assert(d.state.tags[w.tag as int].output matches Some(owner) ==> owner < d.state.outputs.len());
    assert(manage::manage_plan(d).data.state.windows[i].caps_set);
}

/// A manage sequence gives the keyboard of every seat to the window that the
/// active output then focuses, and takes it away where that output focuses none;
/// it asks for no other focus. Which window that is: see
/// `focus_is_settled_by_a_manage_sequence`.
pub proof fn keyboard_follows_the_focus(d: AppModel, seat: u64, window: u64)
    requires
        d.state.wf(),
    ensures
        ({
            let requests = manage::manage_plan(d).requests;
            let e = manage::manage_plan(d).data.state;
            let known = exists|k: int|
                0 <= k < d.state.seats.len() && (#[trigger] d.state.seats[k]).proxy == seat;
            let focused = if d.state.outputs.len() == 0 {
                None
            } else {
                match d.state.focused_output {
                    Some(f) => e.outputs[f as int].focused_window,
                    None => e.outputs[0].focused_window,
                }
            };
            &&& requests.contains(Request::FocusWindow { seat, window }) <==> known && exists|i: int|
                0 <= i < d.state.windows.len() && (#[trigger] d.state.windows[i]).proxy == window
                    && focused == Some(d.state.windows[i].id)
            &&& requests.contains(Request::ClearFocus { seat }) <==> known && focused is None
        }),
{
    let ready = ready_state(d);
    let e = manage::manage_plan(d).data.state;
    let s = manage::all_refocused(d.state);
    lemma_after(d);
    manage::lemma_all_refocused(d.state, d.config.gap);
    invariants::lemma_same_places(s, ready);
    let give = Request::FocusWindow { seat, window };
    let take = Request::ClearFocus { seat };
    lemma_kinds(d, give);
    lemma_kinds(d, take);
    lemma_focus_part(ready, give);
    lemma_focus_part(ready, take);
    if let Some(o) = ready.active_output() {
        assert(ready.outputs[o as int] == e.outputs[o as int]);
        if let Some(id) = ready.outputs[o as int].focused_window {
            lemma_found(ready, id);
            focused_windows_exist(d, o as int);
            if let Some(i) = ready.window_index(id) {
                assert(ready.windows[i].proxy == d.state.windows[i].proxy);
                assert(ready.windows[i].id == d.state.windows[i].id);
                assert forall|k: int|
                    0 <= k < d.state.windows.len() && (#[trigger] d.state.windows[k]).id
                        == id implies k == i by {
                    assert(ready.windows[k].id == id);
                }
            }
        }
    }
    if exists|k: int| 0 <= k < d.state.seats.len() && (#[trigger] d.state.seats[k]).proxy == seat {
        let k = choose|k: int|
            0 <= k < d.state.seats.len() && (#[trigger] d.state.seats[k]).proxy == seat;
        assert(ready.seats[k].proxy == seat);
    }
}

/// What an output focuses after a manage sequence is a window.
proof fn focused_windows_exist(d: AppModel, o: int)
    requires
        d.state.wf(),
        0 <= o < d.state.outputs.len(),
    ensures
        manage::all_refocused(d.state).outputs[o].focused_window matches Some(id) ==> ready_state(
            d,
        ).window_index(id) is Some,
{
    let s = manage::all_refocused(d.state);
    let ready = ready_state(d);
    manage::lemma_all_refocused(d.state, d.config.gap);
    invariants::lemma_same_places(s, ready);
    invariants::refocus_focuses_a_shown_window(d.state, o);
    assert(s.outputs[o].focused_window == d.state.refocused(o).outputs[o].focused_window);
    if let Some(id) = s.outputs[o].focused_window {
        let i = choose|i: int|
            0 <= i < d.state.windows.len() && (#[trigger] d.state.windows[i]).id == id
                && d.state.shows(o, d.state.windows[i]);
        assert(ready.windows[i].id == id);
        lemma_found(ready, id);
    }
}

/// A manage sequence leaves every output focusing the window that it focused,
/// where that is on its active tag and the output owns the tag, else the first
/// window there is on such a tag, and none where there is none. Nothing else of
/// the output changes.
pub proof fn focus_is_settled_by_a_manage_sequence(d: AppModel, o: int)
    requires
        d.state.wf(),
        0 <= o < d.state.outputs.len(),
    ensures
        ({
            let e = manage::manage_plan(d).data.state;
            let shown = repair::shown_ids(d.state, o);
            let before = d.state.outputs[o].focused_window;
            let after = e.outputs[o].focused_window;
            &&& e.outputs.len() == d.state.outputs.len()
            &&& e.outputs[o] == (Output { focused_window: after, ..d.state.outputs[o] })
            &&& after == (if before is Some && shown.contains(before->0) {
                before
            } else if shown.len() > 0 {
                Some(shown[0])
            } else {
                None
            })
        }),
{
    lemma_after(d);
    repair::refocus_keeps_or_takes_the_first(d.state, o);
    assert(manage::all_refocused(d.state).outputs[o].focused_window == d.state.refocused(
        o,
    ).outputs[o].focused_window);
}

/// A manage sequence proposes to a window of the layout the width and height of
/// its cell, unless they are what was proposed before or there is no room; to a
/// floating window its floating width and height; and nothing to a window that
/// is neither. The layout is the one that holds after the sequence.
pub proof fn windows_are_proposed_their_size(
    d: AppModel,
    i: int,
    k: int,
    width: i32,
    height: i32,
)
    requires
        d.state.wf(),
        handles_distinct(d.state),
        0 <= i < d.state.windows.len(),
    ensures
        ({
            let w = d.state.windows[i];
            let e = manage::manage_plan(d).data.state;
            let list = layout::layout(e, d.config.gap);
            let sent = manage::manage_plan(d).requests.contains(
                Request::ProposeDimensions { window: w.proxy, width, height },
            );
            &&& 0 <= k < list.len() && list[k].0 == w.id ==> {
                let g = list[k].1;
                &&& !w.floating
                &&& sent <==> g.width > 0 && g.height > 0 && w.proposed_dimensions != Some(
                    (g.width, g.height),
                ) && width == g.width as i32 && height == g.height as i32
                &&& g.width > 0 && g.height > 0 ==> e.windows[i].proposed_dimensions == Some(
                    (g.width, g.height),
                )
            }
            &&& w.floating ==> {
                &&& sent <==> w.float_w > 0 && w.float_h > 0 && w.proposed_dimensions != Some(
                    (w.float_w, w.float_h),
                ) && width == w.float_w as i32 && height == w.float_h as i32
                &&& w.float_w > 0 && w.float_h > 0 ==> e.windows[i].proposed_dimensions == Some(
                    (w.float_w, w.float_h),
                )
            }
            &&& !w.floating && !d.state.visible(w) ==> !sent && e.windows[i].proposed_dimensions
                == w.proposed_dimensions
        }),
{
    let w = d.state.windows[i];
    let e = manage::manage_plan(d).data.state;
    let list = cells(d);
    let s = manage::all_refocused(d.state);
    let ready = ready_state(d);
    let t = manage::cells_proposed(ready, list).0;
    let r = Request::ProposeDimensions { window: w.proxy, width, height };
    lemma_after(d);
    manage::lemma_all_refocused(d.state, d.config.gap);
    invariants::lemma_same_places(s, ready);
    laws::lemma_proposed_places(ready, list);
    lemma_kinds(d, r);
    lemma_cell_part(ready, list, r);
    lemma_sizes(d, r);
    lemma_cell_window(ready, list, i);
    assert(ready.windows[i] == manage::prepared(s, d.config.use_ssd, w));
    assert(e.windows[i] == manage::float_proposed(t.windows[i]));
    assert forall|a: int, b: int| #[trigger] asks(ready, list, a, b) && ready.windows[b].proxy
        == w.proxy implies b == i by {
        if b < i {
            assert(d.state.windows[b].proxy != d.state.windows[i].proxy);
        } else if i < b {
            assert(d.state.windows[i].proxy != d.state.windows[b].proxy);
        }
        assert(ready.windows[b].proxy == d.state.windows[b].proxy);
    }
    assert forall|b: int|
        0 <= b < d.state.windows.len() && (#[trigger] d.state.windows[b]).proxy
            == w.proxy implies b == i by {
        if b < i {
            assert(d.state.windows[b].proxy != d.state.windows[i].proxy);
        } else if i < b {
            assert(d.state.windows[i].proxy != d.state.windows[b].proxy);
        }
    }
    assert forall|a: int| 0 <= a < list.len() && (#[trigger] list[a]).0 == w.id implies !w.floating
        && d.state.visible(w) by {
        lemma_float_has_no_cell(s, d.config.gap, i, a);
        let o = choose|o: int| 0 <= o < s.outputs.len() && #[trigger] s.shows(o, s.windows[i]);
        assert(d.state.shows(o, w));
        invariants::visible_means_shown(d.state, w);
    }
    if 0 <= k < list.len() && list[k].0 == w.id {
        assert forall|a: int| 0 <= a < list.len() && (#[trigger] list[a]).0 == w.id implies a
            == k by {
            if a < k {
                assert(list[a].0 != list[k].0);
            } else if k < a {
                assert(list[k].0 != list[a].0);
            }
        }
        let g = list[k].1;
        if g.width > 0 && g.height > 0 && w.proposed_dimensions != Some((g.width, g.height)) {
            assert(asks(ready, list, k, i));
        }
    }
    if w.floating || !d.state.visible(w) {
        assert forall|a: int| 0 <= a < list.len() implies (#[trigger] list[a]).0
            != ready.windows[i].id by {
            assert(ready.windows[i].id == w.id);
        }
        if w.floating && asks_for_size(w) {
            assert(asks_for_size(d.state.windows[i]));
        }
    }
}

/// A manage sequence makes the first output the default one for layer-shell
/// surfaces, if it has a layer-shell object and none was made so before.
pub proof fn first_output_becomes_the_default(d: AppModel, layer: u64)
    requires
        d.state.wf(),
    ensures
        ({
            let sets = !d.layer_default_set && d.state.outputs.len() > 0
                && d.state.outputs[0].layer is Some;
            &&& manage::manage_plan(d).requests.contains(Request::SetDefaultLayer { layer })
                <==> sets && d.state.outputs[0].layer == Some(layer)
            &&& manage::manage_plan(d).data.layer_default_set == (d.layer_default_set || sets)
        }),
{
    let r = Request::SetDefaultLayer { layer };
    lemma_kinds(d, r);
    if layer_part(d).len() > 0 {
        lemma_single(layer_part(d)[0], r);
        assert(layer_part(d) =~= seq![layer_part(d)[0]]);
    }
}

/// A manage sequence warps the pointer of every seat to the middle of the output
/// that it should go to, and moves no pointer otherwise. It is not warped again.
pub proof fn pointer_is_warped_to_the_middle(d: AppModel, k: int, x: i32, y: i32)
    requires
        d.state.wf(),
        manage::warp_fits(d),
        0 <= k < d.state.seats.len(),
        d.pending_pointer_warp matches Some(t) ==> t < d.state.outputs.len()
            && d.state.outputs[t as int].width <= i32::MAX && d.state.outputs[t as int].height
            <= i32::MAX,
    ensures
        manage::manage_plan(d).requests.contains(
            Request::WarpPointer { seat: d.state.seats[k].proxy, x, y },
        ) <==> (d.pending_pointer_warp matches Some(t) && x == d.state.outputs[t as int].x
            + d.state.outputs[t as int].width as int / 2 && y == d.state.outputs[t as int].y
            + d.state.outputs[t as int].height as int / 2),
        manage::manage_plan(d).data.pending_pointer_warp is None,
{
    let r = Request::WarpPointer { seat: d.state.seats[k].proxy, x, y };
    lemma_kinds(d, r);
    lemma_warp_part(d, r);
    if let Some(t) = d.pending_pointer_warp {
        let seat = d.state.seats[k];
    }
}

/// A manage sequence starts the queued pointer operation on its seat, and ends
/// the one that is then under way on its seat where that was requested.
pub proof fn pointer_operations_start_and_end(d: AppModel, seat: u64)
    requires
        d.state.wf(),
    ensures
        ({
            let requests = manage::manage_plan(d).requests;
            let e = manage::manage_plan(d).data;
            let current = if d.pending_op is Some {
                d.pending_op
            } else {
                d.pointer_op
            };
            &&& requests.contains(Request::OpStartPointer { seat }) <==> (d.pending_op matches Some(
                op,
            ) && op.seat == seat)
            &&& requests.contains(Request::OpEnd { seat }) <==> d.op_end_requested && (
            current matches Some(op) && op.seat == seat)
            &&& e.pending_op is None
            &&& !e.op_end_requested
            &&& e.pointer_op == (if d.op_end_requested {
                None
            } else {
                current
            })
        }),
{
    let a = Request::OpStartPointer { seat };
    let b = Request::OpEnd { seat };
    lemma_kinds(d, a);
    lemma_kinds(d, b);
    lemma_op_part(d, a);
    lemma_op_part(d, b);
}

/// A manage sequence hides every window, and shows, places and draws none: that
/// is left to the render sequence. It enables every pointer binding and no
/// other.
pub proof fn everything_is_hidden_and_bound(d: AppModel, window: u64, binding: u64)
    requires
        d.state.wf(),
    ensures
        ({
            let requests = manage::manage_plan(d).requests;
            &&& requests.contains(Request::Hide { window }) <==> exists|i: int|
                0 <= i < d.state.windows.len() && (#[trigger] d.state.windows[i]).proxy == window
            &&& !requests.contains(Request::Show { window })
            &&& requests.contains(Request::EnablePointerBinding { binding }) <==> exists|i: int|
                0 <= i < d.pointer_bindings.len() && (#[trigger] d.pointer_bindings[i]).0
                    == binding
        }),
{
    let hide = Request::Hide { window };
    let bind = Request::EnablePointerBinding { binding };
    lemma_kinds(d, hide);
    lemma_hide_part(d.state.windows, hide);
    lemma_kinds(d, Request::Show { window });
    lemma_kinds(d, bind);
    lemma_binding_part(d, bind);
}

/// A manage sequence leaves windows, tags, seats and all else as they are, but
/// for what it has sent and the focus that it has settled.
pub proof fn manage_sequence_moves_nothing(d: AppModel, i: int)
    requires
        d.state.wf(),
    ensures
        ({
            let e = manage::manage_plan(d).data;
            &&& e.config == d.config
            &&& e.quit == d.quit
            &&& e.bindings == d.bindings
            &&& e.pointer_bindings == d.pointer_bindings
            &&& e.state.tags == d.state.tags
            &&& e.state.seats == d.state.seats
            &&& e.state.focused_output == d.state.focused_output
            &&& e.state.resize_mode == d.state.resize_mode
            &&& e.state.next_window_id == d.state.next_window_id
            &&& e.state.default_master_fraction == d.state.default_master_fraction
            &&& e.state.outputs.len() == d.state.outputs.len()
            &&& e.state.windows.len() == d.state.windows.len()
            &&& 0 <= i < d.state.windows.len() ==> e.state.windows[i] == (Window {
                caps_set: true,
                ssd_applied: Some(d.config.use_ssd),
                fullscreen_applied: e.state.windows[i].fullscreen_applied,
                proposed_dimensions: e.state.windows[i].proposed_dimensions,
                ..d.state.windows[i]
            })
        }),
{
    lemma_after(d);
    manage::lemma_cells_proposed(ready_state(d), cells(d));
}

} // verus!
