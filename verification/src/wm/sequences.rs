//! What manage and render sequences achieve, and that they keep to the rules of
//! the compositor.
use vstd::prelude::*;

use crate::actions;
use crate::bindings;
use crate::connection::AppModel;
use crate::invariants;
use crate::pointer;
use crate::request;
use crate::request::Request;
use crate::search;
use crate::state::{StateModel, Window};
use crate::wm::layout;
use crate::wm::layout::Geometry;
use crate::wm::manage;
use crate::wm::render;

verus! {

/// Whether all requests of a list are legal in a render sequence, short of the
/// one that ends it.
pub open spec fn all_render(requests: Seq<Request>) -> bool {
    forall|k: int| 0 <= k < requests.len() ==> (#[trigger] requests[k]).renders()
}

/// Render nodes are created by requests that are legal in a render sequence.
proof fn lemma_nodes_render(s: StateModel, windows: Seq<Window>)
    ensures
        all_render(render::node_requests(s, windows)),
    decreases windows.len(),
{
    if windows.len() > 0 {
        lemma_nodes_render(s, windows.drop_last());
    }
}

/// Windows are shown and hidden by requests that are legal in a render
/// sequence.
proof fn lemma_layer_renders(
    d: AppModel,
    cells: Seq<(u32, Geometry)>,
    windows: Seq<Window>,
    floating: bool,
)
    ensures
        all_render(render::layer_requests(d, cells, windows, floating)),
    decreases windows.len(),
{
    if windows.len() > 0 {
        lemma_layer_renders(d, cells, windows.drop_last(), floating);
        assert(all_render(render::show_requests(d, cells, windows.last())));
    }
}

/// A render sequence holds nothing but render requests, and ends with the one
/// that finishes it.
pub proof fn render_sequence_is_legal(d: AppModel)
    ensures
        ({
            let requests = render::render_plan(d).requests;
            &&& requests.len() > 0
            &&& requests.last() is RenderFinish
            &&& all_render(requests.drop_last())
        }),
{
    let ready = d.with_state(render::nodes_made(d.state));
    let cells = layout::layout(ready.state, ready.config.gap);
    let nodes = render::node_requests(d.state, d.state.windows);
    let shown = render::render_requests(ready);
    lemma_nodes_render(d.state, d.state.windows);
    lemma_layer_renders(ready, cells, ready.state.windows, false);
    lemma_layer_renders(ready, cells, ready.state.windows, true);
    assert(all_render(shown));
    assert(render::render_plan(d).requests.drop_last() =~= nodes + shown);
}

/// Whether a request neither switches a keybinding nor ends a sequence.
pub open spec fn ordinary(r: Request) -> bool {
    !(r is EnableBinding) && !(r is DisableBinding) && !(r is ManageFinish) && !(r is RenderFinish)
}

/// Whether all requests of a list are ordinary.
pub open spec fn all_ordinary(requests: Seq<Request>) -> bool {
    forall|k: int| 0 <= k < requests.len() ==> ordinary(#[trigger] requests[k])
}

/// Closing windows takes ordinary requests.
proof fn lemma_closes_ordinary(s: StateModel, ids: Seq<u32>)
    ensures
        all_ordinary(manage::close_requests(s, ids)),
    decreases ids.len(),
{
    if ids.len() > 0 {
        lemma_closes_ordinary(s, ids.drop_last());
    }
}

/// Preparing windows takes ordinary requests.
proof fn lemma_preparations_ordinary(s: StateModel, use_ssd: bool, windows: Seq<Window>)
    ensures
        all_ordinary(manage::prepare_requests(s, use_ssd, windows)),
    decreases windows.len(),
{
    if windows.len() > 0 {
        lemma_preparations_ordinary(s, use_ssd, windows.drop_last());
        let w = windows.last();
        assert(all_ordinary(manage::capability_requests(w)));
        assert(all_ordinary(manage::decoration_requests(use_ssd, w)));
        assert(all_ordinary(manage::fullscreen_requests(s, w)));
    }
}

/// Proposing cells takes ordinary requests.
proof fn lemma_cells_ordinary(s: StateModel, list: Seq<(u32, Geometry)>)
    ensures
        all_ordinary(manage::cells_proposed(s, list).1),
    decreases list.len(),
{
    if list.len() > 0 {
        lemma_cells_ordinary(s, list.drop_last());
    }
}

/// Proposing floating sizes takes ordinary requests.
proof fn lemma_floats_ordinary(windows: Seq<Window>)
    ensures
        all_ordinary(manage::float_requests(windows)),
    decreases windows.len(),
{
    if windows.len() > 0 {
        lemma_floats_ordinary(windows.drop_last());
    }
}

/// What comes before the proposals takes ordinary requests.
proof fn lemma_settling_ordinary(d: AppModel)
    ensures
        all_ordinary(manage::settled(d).requests),
        manage::settled(d).data.state.resize_mode == d.state.resize_mode,
        manage::settled(d).data.bindings == d.bindings,
        manage::settled(d).data.pointer_bindings == d.pointer_bindings,
{
    let start = request::plan(d, Seq::empty());
    let ops = pointer::op_ended(pointer::op_started(start));
    assert(all_ordinary(pointer::op_started(start).requests));
    assert(all_ordinary(ops.requests));
    let s = manage::all_refocused(ops.data.state);
    lemma_closes_ordinary(s, ops.data.pending_close);
    lemma_preparations_ordinary(s, ops.data.config.use_ssd, s.windows);
    assert(all_ordinary(manage::hide_requests(s.windows)));
    let ready = ops.with_data(
        AppModel {
            state: manage::all_prepared(s, ops.data.config.use_ssd),
            pending_close: Seq::empty(),
            ..ops.data
        },
    ).sending(manage::hide_requests(s.windows)).sending(
        manage::close_requests(s, ops.data.pending_close),
    ).sending(manage::prepare_requests(s, ops.data.config.use_ssd, s.windows));
    assert(all_ordinary(ready.requests));
    assert(all_ordinary(manage::layer_chosen(ready).requests));
    assert(all_ordinary(manage::focus_requests(manage::layer_chosen(ready).data.state)));
}

/// The parts of a manage sequence: what comes before the keybindings, the
/// keybindings, what comes after them, and the end.
proof fn lemma_manage_parts(d: AppModel) -> (parts: (Seq<Request>, Seq<Request>))
    ensures
        all_ordinary(parts.0),
        all_ordinary(parts.1),
        manage::manage_plan(d).requests == parts.0 + Seq::new(
            d.bindings.len(),
            |i: int| manage::binding_request(d.state.resize_mode, d.bindings[i]),
        ) + parts.1 + seq![Request::ManageFinish],
{
    let before = manage::settled(d);
    lemma_settling_ordinary(d);
    let list = layout::layout(manage::all_refocused(d.state), d.config.gap);
    let cells = manage::cells_proposed(before.data.state, list);
    lemma_cells_ordinary(before.data.state, list);
    manage::lemma_cells_proposed(before.data.state, list);
    lemma_floats_ordinary(cells.0.windows);
    let proposed = before.with_data(
        before.data.with_state(manage::floats_proposed(cells.0)),
    ).sending(cells.1).sending(manage::float_requests(cells.0.windows));
    let keys = Seq::new(
        d.bindings.len(),
        |i: int| manage::binding_request(d.state.resize_mode, d.bindings[i]),
    );
    let buttons = Seq::new(
        d.pointer_bindings.len(),
        |i: int| Request::EnablePointerBinding { binding: d.pointer_bindings[i].0 },
    );
    assert(manage::binding_requests(proposed.data) =~= keys + buttons);
    let bound = proposed.sending(manage::binding_requests(proposed.data));
    let warps = match bound.data.pending_pointer_warp {
        Some(t) => if t < bound.data.state.outputs.len() {
            manage::warp_requests(bound.data.state, t as int)
        } else {
            Seq::empty()
        },
        None => Seq::empty(),
    };
    assert(all_ordinary(warps));
    assert(all_ordinary(buttons + warps));
    assert(manage::warped(bound).requests =~= bound.requests + warps);
    assert(manage::manage_plan(d).requests =~= proposed.requests + keys + (buttons + warps) + seq![
        Request::ManageFinish,
    ]);
    (proposed.requests, buttons + warps)
}

/// A manage sequence ends with the request that finishes it, and no other
/// request of it ends a sequence.
pub proof fn manage_sequence_is_finished_once(d: AppModel, k: int)
    requires
        0 <= k < manage::manage_plan(d).requests.len(),
    ensures
        manage::manage_plan(d).requests.last() is ManageFinish,
        k < manage::manage_plan(d).requests.len() - 1 ==> !(
        manage::manage_plan(d).requests[k] is ManageFinish)
            && !(manage::manage_plan(d).requests[k] is RenderFinish),
{
    let parts = lemma_manage_parts(d);
    let keys = Seq::new(
        d.bindings.len(),
        |i: int| manage::binding_request(d.state.resize_mode, d.bindings[i]),
    );
    let requests = manage::manage_plan(d).requests;
    assert(requests[requests.len() - 1] == Request::ManageFinish);
    if k < requests.len() - 1 {
        if k < parts.0.len() {
            assert(requests[k] == parts.0[k]);
        } else if k < parts.0.len() + keys.len() {
            assert(requests[k] == keys[k - parts.0.len()]);
        } else {
            assert(requests[k] == parts.1[k - parts.0.len() - keys.len()]);
        }
    }
}

/// Outside of resize mode, the keys of resize mode are disabled by every manage
/// sequence and enabled by none, so that they reach the focused window; all
/// other keybindings are enabled.
pub proof fn resize_keys_are_bound_only_in_resize_mode(d: AppModel, i: int)
    requires
        0 <= i < d.bindings.len(),
        forall|a: int, b: int|
            0 <= a < b < d.bindings.len() ==> (#[trigger] d.bindings[a]).0 != (
            #[trigger] d.bindings[b]).0,
    ensures
        ({
            let requests = manage::manage_plan(d).requests;
            let on = Request::EnableBinding { binding: d.bindings[i].0 };
            let off = Request::DisableBinding { binding: d.bindings[i].0 };
            let bound = d.state.resize_mode || !bindings::is_resize_action(d.bindings[i].1@);
            &&& requests.contains(on) <==> bound
            &&& requests.contains(off) <==> !bound
        }),
{
    let parts = lemma_manage_parts(d);
    let keys = Seq::new(
        d.bindings.len(),
        |i: int| manage::binding_request(d.state.resize_mode, d.bindings[i]),
    );
    let requests = manage::manage_plan(d).requests;
    let on = Request::EnableBinding { binding: d.bindings[i].0 };
    let off = Request::DisableBinding { binding: d.bindings[i].0 };
    assert(requests[parts.0.len() + i] == keys[i]);
    assert forall|k: int| 0 <= k < requests.len() && (requests[k] == on || requests[k] == off)
        implies requests[k] == keys[i] by {
        if k < parts.0.len() {
            assert(requests[k] == parts.0[k]);
        } else if k < parts.0.len() + keys.len() {
            let j = k - parts.0.len();
            assert(requests[k] == keys[j]);
            if j != i {
                assert(d.bindings[j].0 != d.bindings[i].0);
            }
        } else if k < requests.len() - 1 {
            assert(requests[k] == parts.1[k - parts.0.len() - keys.len()]);
        } else {
            assert(requests[k] == Request::ManageFinish);
        }
    }
}

/// Whether a layout lists a window with identifier `id`.
pub open spec fn listed(list: Seq<(u32, Geometry)>, id: u32) -> bool {
    exists|k: int| 0 <= k < list.len() && (#[trigger] list[k]).0 == id
}

/// A layout lists the windows that its outputs list.
proof fn lemma_listed_up_to(s: StateModel, n: int, gap: u32, id: u32)
    ensures
        listed(layout::layout_up_to(s, n, gap), id) <==> exists|o: int|
            0 <= o < n && #[trigger] layout::laid_out_on(s, o, gap, id),
    decreases n,
{
    let all = layout::layout_up_to(s, n, gap);
    if n > 0 {
        let before = layout::layout_up_to(s, n - 1, gap);
        let last = layout::output_layout(s, n - 1, gap);
        lemma_listed_up_to(s, n - 1, gap, id);
        if listed(all, id) {
            let k = choose|k: int| 0 <= k < all.len() && (#[trigger] all[k]).0 == id;
            if k < before.len() {
                assert(before[k] == all[k]);
            } else {
                assert(last[k - before.len()].0 == id);
                assert(layout::laid_out_on(s, n - 1, gap, id));
            }
        }
        if listed(before, id) {
            let k = choose|k: int| 0 <= k < before.len() && (#[trigger] before[k]).0 == id;
            assert(all[k] == before[k]);
        }
        if layout::laid_out_on(s, n - 1, gap, id) {
            let k = choose|k: int| 0 <= k < last.len() && (#[trigger] last[k]).0 == id;
            assert(all[before.len() + k] == last[k]);
        }
    }
}

/// A window has a cell exactly if it is visible and does not float.
pub proof fn lemma_cell(s: StateModel, gap: u32, i: int)
    requires
        s.wf(),
        0 <= i < s.windows.len(),
    ensures
        actions::cell_of(layout::layout(s, gap), s.windows[i].id) is Some <==> s.visible(
            s.windows[i],
        ) && !s.windows[i].floating,
{
    let w = s.windows[i];
    let list = layout::layout(s, gap);
    let n = list.len() as int;
    lemma_listed_up_to(s, s.outputs.len() as int, gap, w.id);
    invariants::visible_means_shown(s, w);
    assert forall|o: int| 0 <= o < s.outputs.len() implies #[trigger] layout::laid_out_on(
        s,
        o,
        gap,
        w.id,
    ) == (s.shows(o, w) && !w.floating) by {
        layout::shown_tiled_windows_are_laid_out(s, o, gap, i);
    }
    if s.visible(w) && !w.floating {
        let o = choose|o: int| 0 <= o < s.outputs.len() && #[trigger] s.shows(o, w);
        assert(layout::laid_out_on(s, o, gap, w.id));
    }
    search::lemma_least(n, actions::placed(list, w.id));
    if listed(list, w.id) {
        let k = choose|k: int| 0 <= k < n && (#[trigger] list[k]).0 == w.id;
        assert(actions::placed(list, w.id)(k));
    }
    if actions::cell_of(list, w.id) is Some {
        let k = search::least(n, actions::placed(list, w.id))->0;
        assert(actions::placed(list, w.id)(k));
        assert(list[k].0 == w.id);
        assert(listed(list, w.id));
        let o = choose|o: int| 0 <= o < s.outputs.len() && #[trigger] layout::laid_out_on(
            s,
            o,
            gap,
            w.id,
        );
        assert(s.shows(o, w));
    }
}

/// The requests for a window are among those for its layer.
proof fn lemma_in_layer(
    d: AppModel,
    cells: Seq<(u32, Geometry)>,
    windows: Seq<Window>,
    i: int,
    r: Request,
)
    requires
        0 <= i < windows.len(),
        render::show_requests(d, cells, windows[i]).contains(r),
    ensures
        render::layer_requests(d, cells, windows, windows[i].floating).contains(r),
    decreases windows.len(),
{
    let floating = windows[i].floating;
    let all = render::layer_requests(d, cells, windows, floating);
    let before = render::layer_requests(d, cells, windows.drop_last(), floating);
    if i == windows.len() - 1 {
        let own = render::show_requests(d, cells, windows[i]);
        let k = choose|k: int| 0 <= k < own.len() && own[k] == r;
        assert(all[before.len() + k] == r);
    } else {
        lemma_in_layer(d, cells, windows.drop_last(), i, r);
        let k = choose|k: int| 0 <= k < before.len() && before[k] == r;
        assert(all[k] == r);
    }
}

/// Every visible window is shown by a render sequence, and every other window
/// is hidden by it.
pub proof fn visible_windows_are_shown(d: AppModel, i: int)
    requires
        d.state.wf(),
        0 <= i < d.state.windows.len(),
    ensures
        ({
            let requests = render::render_plan(d).requests;
            let w = d.state.windows[i];
            if d.state.visible(w) {
                requests.contains(Request::Show { window: w.proxy })
            } else {
                requests.contains(Request::Hide { window: w.proxy })
            }
        }),
{
    let ready = d.with_state(render::nodes_made(d.state));
    let s = ready.state;
    let cells = layout::layout(s, d.config.gap);
    let w = s.windows[i];
    invariants::lemma_same_places(d.state, s);
    lemma_cell(s, d.config.gap, i);
    let own = render::show_requests(ready, cells, w);
    let r = if s.visible(w) {
        Request::Show { window: w.proxy }
    } else {
        Request::Hide { window: w.proxy }
    };
    assert(own.last() == r);
    assert(own[own.len() - 1] == r);
    lemma_in_layer(ready, cells, s.windows, i, r);
    let low = render::layer_requests(ready, cells, s.windows, false);
    let high = render::layer_requests(ready, cells, s.windows, true);
    let nodes = render::node_requests(d.state, d.state.windows);
    let requests = render::render_plan(d).requests;
    if w.floating {
        let k = choose|k: int| 0 <= k < high.len() && high[k] == r;
        assert(requests[nodes.len() + low.len() + k] == r);
    } else {
        let k = choose|k: int| 0 <= k < low.len() && low[k] == r;
        assert(requests[nodes.len() + k] == r);
    }
}

/// What is placed with a layer are windows of that layer.
proof fn lemma_placed_in_layer(
    d: AppModel,
    cells: Seq<(u32, Geometry)>,
    windows: Seq<Window>,
    floating: bool,
    k: int,
)
    requires
        0 <= k < render::layer_requests(d, cells, windows, floating).len(),
        render::layer_requests(d, cells, windows, floating)[k] is PlaceTop,
    ensures
        exists|i: int|
            0 <= i < windows.len() && (#[trigger] windows[i]).floating == floating
                && render::layer_requests(d, cells, windows, floating)[k] == (Request::PlaceTop {
                window: windows[i].proxy,
            }),
    decreases windows.len(),
{
    let before = render::layer_requests(d, cells, windows.drop_last(), floating);
    let all = render::layer_requests(d, cells, windows, floating);
    if k < before.len() {
        lemma_placed_in_layer(d, cells, windows.drop_last(), floating, k);
        let rest = windows.drop_last();
        let i = choose|i: int|
            0 <= i < rest.len() && (#[trigger] rest[i]).floating == floating && before[k] == (
            Request::PlaceTop { window: rest[i].proxy });
        assert(windows[i] == rest[i]);
    } else {
        let own = render::show_requests(d, cells, windows.last());
        assert(all[k] == own[k - before.len()]);
        assert(windows[windows.len() - 1].floating == floating);
    }
}

/// Floating windows end up above all windows that do not float: each of them is
/// put on top after every one of those.
pub proof fn floating_windows_are_on_top(d: AppModel, a: int, b: int, p: int, q: int)
    requires
        0 <= a < d.state.windows.len(),
        0 <= b < d.state.windows.len(),
        d.state.windows[a].floating,
        !d.state.windows[b].floating,
        forall|i: int, j: int|
            0 <= i < j < d.state.windows.len() ==> (#[trigger] d.state.windows[i]).proxy != (
            #[trigger] d.state.windows[j]).proxy,
        0 <= p < render::render_requests(d).len(),
        0 <= q < render::render_requests(d).len(),
        render::render_requests(d)[p] == (Request::PlaceTop { window: d.state.windows[a].proxy }),
        render::render_requests(d)[q] == (Request::PlaceTop { window: d.state.windows[b].proxy }),
    ensures
        q < p,
{
    let windows = d.state.windows;
    let cells = layout::layout(d.state, d.config.gap);
    let low = render::layer_requests(d, cells, windows, false);
    let high = render::layer_requests(d, cells, windows, true);
    if p < low.len() {
        lemma_placed_in_layer(d, cells, windows, false, p);
        let i = choose|i: int|
            0 <= i < windows.len() && !(#[trigger] windows[i]).floating && low[p] == (
            Request::PlaceTop { window: windows[i].proxy });
        assert(windows[i].proxy == windows[a].proxy);
    }
    if q >= low.len() {
        lemma_placed_in_layer(d, cells, windows, true, q - low.len());
        let i = choose|i: int|
            0 <= i < windows.len() && (#[trigger] windows[i]).floating && high[q - low.len()] == (
            Request::PlaceTop { window: windows[i].proxy });
        assert(windows[i].proxy == windows[b].proxy);
    }
}

/// A window that an output lays out is shown on it.
proof fn lemma_laid_out_is_shown(s: StateModel, o: int, gap: u32, id: u32)
    requires
        layout::laid_out_on(s, o, gap, id),
    ensures
        exists|i: int|
            0 <= i < s.windows.len() && (#[trigger] s.windows[i]).id == id && s.shows(
                o,
                s.windows[i],
            ),
{
    let list = layout::output_layout(s, o, gap);
    let keep = layout::tiled_on(s, o);
    let ids = layout::ids_where(s.windows, keep);
    let k = choose|k: int| 0 <= k < list.len() && (#[trigger] list[k]).0 == id;
    assert(layout::visible_ids(s, o)[k] == id);
    layout::lemma_fronted(ids, s.outputs[o].focused_window, id);
    assert(ids.contains(id));
    layout::lemma_ids_where(s.windows, keep, id);
    let i = choose|i: int|
        0 <= i < s.windows.len() && keep(#[trigger] s.windows[i]) && s.windows[i].id == id;
    assert(s.shows(o, s.windows[i]));
}

/// A layout lists no window twice.
proof fn lemma_layout_distinct(s: StateModel, n: int, gap: u32)
    requires
        s.wf(),
        n <= s.outputs.len(),
    ensures
        forall|i: int, j: int|
            0 <= i < j < layout::layout_up_to(s, n, gap).len() ==> (
            #[trigger] layout::layout_up_to(s, n, gap)[i]).0 != (#[trigger] layout::layout_up_to(
                s,
                n,
                gap,
            )[j]).0,
    decreases n,
{
    if n > 0 {
        let all = layout::layout_up_to(s, n, gap);
        let before = layout::layout_up_to(s, n - 1, gap);
        let last = layout::output_layout(s, n - 1, gap);
        let ids = layout::ids_where(s.windows, layout::tiled_on(s, n - 1));
        lemma_layout_distinct(s, n - 1, gap);
        layout::lemma_ids_distinct(s.windows, layout::tiled_on(s, n - 1));
        layout::lemma_fronted_distinct(ids, s.outputs[n - 1].focused_window);
        assert forall|i: int, j: int| 0 <= i < j < all.len() implies (#[trigger] all[i]).0 != (
        #[trigger] all[j]).0 by {
            if j < before.len() {
                assert(before[i] == all[i] && before[j] == all[j]);
            } else if i >= before.len() {
                let a = i - before.len();
                let b = j - before.len();
                assert(layout::visible_ids(s, n - 1)[a] != layout::visible_ids(s, n - 1)[b]);
            } else if all[i].0 == all[j].0 {
                let id = all[i].0;
                assert(before[i].0 == id);
                assert(last[j - before.len()].0 == id);
                lemma_listed_up_to(s, n - 1, gap, id);
                let o = choose|o: int| 0 <= o < n - 1 && #[trigger] layout::laid_out_on(
                    s,
                    o,
                    gap,
                    id,
                );
                lemma_laid_out_is_shown(s, o, gap, id);
                lemma_laid_out_is_shown(s, n - 1, gap, id);
                let a = choose|a: int|
                    0 <= a < s.windows.len() && (#[trigger] s.windows[a]).id == id && s.shows(
                        o,
                        s.windows[a],
                    );
                let b = choose|b: int|
                    0 <= b < s.windows.len() && (#[trigger] s.windows[b]).id == id && s.shows(
                        n - 1,
                        s.windows[b],
                    );
                assert(s.windows[a].id == s.windows[b].id);
                assert(a == b);
            }
        }
    }
}

/// Whether no window of a layout wants its cell proposed.
pub open spec fn all_satisfied(s: StateModel, list: Seq<(u32, Geometry)>) -> bool {
    forall|k: int|
        0 <= k < list.len() ==> match s.window_index((#[trigger] list[k]).0) {
            Some(i) => !manage::wants(s.windows[i], list[k].1.width, list[k].1.height),
            None => true,
        }
}

/// Windows that want nothing are proposed nothing.
proof fn lemma_nothing_proposed(s: StateModel, list: Seq<(u32, Geometry)>)
    requires
        all_satisfied(s, list),
    ensures
        manage::cells_proposed(s, list) == (s, Seq::<Request>::empty()),
    decreases list.len(),
{
    if list.len() > 0 {
        let rest = list.drop_last();
        assert forall|k: int| 0 <= k < rest.len() implies match s.window_index(
            (#[trigger] rest[k]).0,
        ) {
            Some(i) => !manage::wants(s.windows[i], rest[k].1.width, rest[k].1.height),
            None => true,
        } by {
            assert(list[k] == rest[k]);
        }
        lemma_nothing_proposed(s, rest);
        assert(list[list.len() - 1] == list.last());
    }
}

/// Once the cells of a layout were proposed, no window of it wants more.
proof fn lemma_satisfied(s: StateModel, list: Seq<(u32, Geometry)>)
    requires
        forall|i: int, j: int|
            0 <= i < j < list.len() ==> (#[trigger] list[i]).0 != (#[trigger] list[j]).0,
    ensures
        all_satisfied(manage::cells_proposed(s, list).0, list),
    decreases list.len(),
{
    if list.len() > 0 {
        let rest = list.drop_last();
        let b = manage::cells_proposed(s, rest).0;
        let t = manage::cells_proposed(s, list).0;
        let n = b.windows.len() as int;
        let (id, g) = list.last();
        assert forall|i: int, j: int| 0 <= i < j < rest.len() implies (#[trigger] rest[i]).0 != (
        #[trigger] rest[j]).0 by {
            assert(list[i].0 != list[j].0);
        }
        lemma_satisfied(s, rest);
        search::lemma_least(n, b.has_id(id));
        assert(t.windows.len() == b.windows.len());
        assert forall|k: int| 0 <= k < list.len() implies match t.window_index(
            (#[trigger] list[k]).0,
        ) {
            Some(i) => !manage::wants(t.windows[i], list[k].1.width, list[k].1.height),
            None => true,
        } by {
            let other = list[k].0;
            search::lemma_least_same(n, b.has_id(other), t.has_id(other));
            search::lemma_least(n, b.has_id(other));
            if k < rest.len() {
                assert(rest[k] == list[k]);
                assert(list[k].0 != list[list.len() - 1].0);
                if let Some(i) = b.window_index(other) {
                    assert(b.has_id(other)(i));
                    if let Some(m) = b.window_index(id) {
                        assert(b.has_id(id)(m));
                        assert(i != m);
                    }
                    assert(t.windows[i] == b.windows[i]);
                }
            }
        }
    }
}

/// Dimensions are proposed once: as long as the layout stays the same, windows
/// that were proposed their cells and floating sizes are not asked again.
pub proof fn proposals_are_not_repeated(s: StateModel, gap: u32)
    requires
        s.wf(),
    ensures
        ({
            let list = layout::layout(s, gap);
            let t = manage::cells_proposed(s, list).0;
            &&& manage::cells_proposed(t, list) == (t, Seq::<Request>::empty())
            &&& manage::float_requests(manage::floats_proposed(t).windows) == Seq::<
                Request,
            >::empty()
        }),
{
    let list = layout::layout(s, gap);
    let t = manage::cells_proposed(s, list).0;
    lemma_layout_distinct(s, s.outputs.len() as int, gap);
    lemma_satisfied(s, list);
    lemma_nothing_proposed(t, list);
    let windows = manage::floats_proposed(t).windows;
    assert forall|i: int| 0 <= i < windows.len() implies !manage::wants_float_size(
        #[trigger] windows[i],
    ) by {
        assert(windows[i] == manage::float_proposed(t.windows[i]));
    }
    lemma_no_float_requests(windows);
}

/// Floating windows that want nothing are proposed nothing.
proof fn lemma_no_float_requests(windows: Seq<Window>)
    requires
        forall|i: int|
            0 <= i < windows.len() ==> !manage::wants_float_size(#[trigger] windows[i]),
    ensures
        manage::float_requests(windows) == Seq::<Request>::empty(),
    decreases windows.len(),
{
    if windows.len() > 0 {
        let rest = windows.drop_last();
        assert forall|i: int| 0 <= i < rest.len() implies !manage::wants_float_size(
            #[trigger] rest[i],
        ) by {
            assert(windows[i] == rest[i]);
        }
        lemma_no_float_requests(rest);
        assert(!manage::wants_float_size(windows[windows.len() - 1]));
    }
}

/// A layout lists every window once at most, over all outputs.
pub proof fn no_window_is_laid_out_twice(s: StateModel, gap: u32, i: int, j: int)
    requires
        s.wf(),
        0 <= i < j < layout::layout(s, gap).len(),
    ensures
        layout::layout(s, gap)[i].0 != layout::layout(s, gap)[j].0,
{
    lemma_layout_distinct(s, s.outputs.len() as int, gap);
}

/// A manage sequence gives the keyboard to a window that the active output
/// shows, and to none only if it shows none.
pub proof fn keyboard_reaches_a_visible_window(d: AppModel)
    requires
        d.state.wf(),
        d.state.active_output() is Some,
    ensures
        ({
            let s = manage::all_refocused(d.state);
            let o = d.state.active_output()->0 as int;
            match manage::keyboard_target(s) {
                Some(window) => exists|i: int|
                    0 <= i < s.windows.len() && (#[trigger] s.windows[i]).proxy == window
                        && s.shows(o, s.windows[i]),
                None => forall|i: int|
                    0 <= i < s.windows.len() ==> !s.shows(o, #[trigger] s.windows[i]),
            }
        }),
{
    let s = manage::all_refocused(d.state);
    let o = d.state.active_output()->0 as int;
    invariants::refocus_focuses_a_shown_window(d.state, o);
    manage::lemma_all_refocused(d.state, 0);
    assert(s.outputs[o].focused_window == d.state.refocused(o).outputs[o].focused_window);
    assert forall|w: Window| #[trigger] s.shows(o, w) == d.state.shows(o, w) by {}
    if let Some(id) = s.outputs[o].focused_window {
        let i = choose|i: int|
            0 <= i < d.state.windows.len() && (#[trigger] d.state.windows[i]).id == id
                && d.state.shows(o, d.state.windows[i]);
        invariants::window_is_found_by_id(s, i);
        assert(s.shows(o, s.windows[i]));
    }
}

} // verus!
