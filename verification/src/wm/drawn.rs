//! What the requests of a render sequence draw, said of every window.
use vstd::prelude::*;

use crate::actions;
use crate::config;
use crate::connection::{AppModel, Edges};
use crate::invariants;
use crate::request::Request;
use crate::search;
use crate::state::{StateModel, Window};
use crate::wm::effects;
use crate::wm::layout;
use crate::wm::layout::Geometry;
use crate::wm::render;
use crate::wm::sequences;

verus! {

/// The requests that create render nodes.
proof fn lemma_node_part(s: StateModel, windows: Seq<Window>, r: Request)
    ensures
        render::node_requests(s, windows).contains(r) <==> exists|i: int|
            0 <= i < windows.len() && !(#[trigger] windows[i]).node && s.visible(windows[i]) && r
                == (Request::GetNode { window: windows[i].proxy }),
    decreases windows.len(),
{
    if windows.len() > 0 {
        let rest = windows.drop_last();
        let w = windows.last();
        let n = windows.len() - 1;
        lemma_node_part(s, rest, r);
        assert(windows[n] == w);
        assert forall|i: int| 0 <= i < rest.len() implies #[trigger] rest[i] == windows[i] by {}
        let own: Seq<Request> = if !w.node && s.visible(w) {
            seq![Request::GetNode { window: w.proxy }]
        } else {
            Seq::empty()
        };
        assert(render::node_requests(s, windows) =~= render::node_requests(s, rest) + own);
        effects::lemma_both(render::node_requests(s, rest), own, r);
        effects::lemma_single(Request::GetNode { window: w.proxy }, r);
        if render::node_requests(s, rest).contains(r) {
            let i = choose|i: int|
                0 <= i < rest.len() && !(#[trigger] rest[i]).node && s.visible(rest[i]) && r == (
                Request::GetNode { window: rest[i].proxy });
            assert(windows[i] == rest[i]);
        }
        if exists|i: int|
            0 <= i < windows.len() && !(#[trigger] windows[i]).node && s.visible(windows[i]) && r
                == (Request::GetNode { window: windows[i].proxy }) {
            let i = choose|i: int|
                0 <= i < windows.len() && !(#[trigger] windows[i]).node && s.visible(windows[i])
                    && r == (Request::GetNode { window: windows[i].proxy });
            if i < n {
                assert(rest[i] == windows[i]);
            }
        }
    }
}

/// The requests about one window.
proof fn lemma_window_part(d: AppModel, cells: Seq<(u32, Geometry)>, w: Window, r: Request)
    ensures
        render::show_requests(d, cells, w).contains(r) <==> {
            let cell = actions::cell_of(cells, w.id);
            if cell is Some || (w.floating && d.state.visible(w)) {
                ||| w.node && r == (match cell {
                    Some(g) => Request::SetPosition { window: w.proxy, x: g.x, y: g.y },
                    None => Request::SetPosition {
                        window: w.proxy,
                        x: w.float_x,
                        y: w.float_y,
                    },
                })
                ||| w.node && r == (Request::PlaceTop { window: w.proxy })
                ||| r == render::border_request(d.config, w, d.focused_window() == Some(w.id))
                ||| r == (Request::Show { window: w.proxy })
            } else {
                r == (Request::Hide { window: w.proxy })
            }
        },
{
    let cell = actions::cell_of(cells, w.id);
    let at = render::place_requests(w, cell);
    let border = render::border_request(d.config, w, d.focused_window() == Some(w.id));
    let show = Request::Show { window: w.proxy };
    let rest = seq![border, show];
    assert(rest =~= seq![border] + seq![show]);
    effects::lemma_both(at, rest, r);
    effects::lemma_both(seq![border], seq![show], r);
    effects::lemma_single(border, r);
    effects::lemma_single(show, r);
    effects::lemma_single(Request::Hide { window: w.proxy }, r);
    if w.node {
        let place = match cell {
            Some(g) => Request::SetPosition { window: w.proxy, x: g.x, y: g.y },
            None => Request::SetPosition { window: w.proxy, x: w.float_x, y: w.float_y },
        };
        let top = Request::PlaceTop { window: w.proxy };
        assert(at =~= seq![place] + seq![top]);
        effects::lemma_both(seq![place], seq![top], r);
        effects::lemma_single(place, r);
        effects::lemma_single(top, r);
    }
}

/// The requests about one layer of windows.
proof fn lemma_layer_part(
    d: AppModel,
    cells: Seq<(u32, Geometry)>,
    windows: Seq<Window>,
    floating: bool,
    r: Request,
)
    ensures
        render::layer_requests(d, cells, windows, floating).contains(r) <==> exists|i: int|
            0 <= i < windows.len() && (#[trigger] windows[i]).floating == floating
                && render::show_requests(d, cells, windows[i]).contains(r),
    decreases windows.len(),
{
    if windows.len() > 0 {
        let rest = windows.drop_last();
        let w = windows.last();
        let n = windows.len() - 1;
        let before = render::layer_requests(d, cells, rest, floating);
        lemma_layer_part(d, cells, rest, floating, r);
        assert(windows[n] == w);
        assert forall|i: int| 0 <= i < rest.len() implies #[trigger] rest[i] == windows[i] by {}
        effects::lemma_both(before, render::show_requests(d, cells, w), r);
        if before.contains(r) {
            let i = choose|i: int|
                0 <= i < rest.len() && (#[trigger] rest[i]).floating == floating
                    && render::show_requests(d, cells, rest[i]).contains(r);
            assert(windows[i] == rest[i]);
        }
        if exists|i: int|
            0 <= i < windows.len() && (#[trigger] windows[i]).floating == floating
                && render::show_requests(d, cells, windows[i]).contains(r) {
            let i = choose|i: int|
                0 <= i < windows.len() && (#[trigger] windows[i]).floating == floating
                    && render::show_requests(d, cells, windows[i]).contains(r);
            if i < n {
                assert(rest[i] == windows[i]);
            }
        }
    }
}

/// What stands in a render sequence: the requests that create render nodes,
/// those about each window, and the one that ends it.
proof fn lemma_parts(d: AppModel, r: Request)
    ensures
        ({
            let ready = d.with_state(render::nodes_made(d.state));
            let cells = layout::layout(ready.state, d.config.gap);
            render::render_plan(d).requests.contains(r) <==> {
                ||| render::node_requests(d.state, d.state.windows).contains(r)
                ||| exists|i: int|
                    0 <= i < ready.state.windows.len() && render::show_requests(
                        ready,
                        cells,
                        #[trigger] ready.state.windows[i],
                    ).contains(r)
                ||| r is RenderFinish
            }
        }),
{
    let ready = d.with_state(render::nodes_made(d.state));
    let cells = layout::layout(ready.state, d.config.gap);
    let windows = ready.state.windows;
    let nodes = render::node_requests(d.state, d.state.windows);
    let low = render::layer_requests(ready, cells, windows, false);
    let high = render::layer_requests(ready, cells, windows, true);
    let end = seq![Request::RenderFinish];
    effects::lemma_both(low, high, r);
    effects::lemma_both(nodes, low + high, r);
    effects::lemma_both(nodes + (low + high), end, r);
    effects::lemma_single(Request::RenderFinish, r);
    lemma_layer_part(ready, cells, windows, false, r);
    lemma_layer_part(ready, cells, windows, true, r);
    assert(render::render_plan(d).requests =~= nodes + (low + high) + end);
    if exists|i: int|
        0 <= i < windows.len() && render::show_requests(
            ready,
            cells,
            #[trigger] windows[i],
        ).contains(r) {
        let i = choose|i: int|
            0 <= i < windows.len() && render::show_requests(
                ready,
                cells,
                #[trigger] windows[i],
            ).contains(r);
        assert(windows[i].floating || !windows[i].floating);
    }
}

/// Whether a request is about showing the window with handle `window`.
spec fn is_about(r: Request, p: u64) -> bool {
    ||| r matches Request::SetPosition { window, x, y } && window == p
    ||| r == (Request::PlaceTop { window: p })
    ||| r matches Request::SetBorders { window, edges, width, red, green, blue, alpha } && window
        == p
    ||| r == (Request::Show { window: p })
    ||| r == (Request::Hide { window: p })
}

/// What stands in a render sequence about one window.
proof fn lemma_about(d: AppModel, i: int, r: Request)
    requires
        d.state.wf(),
        effects::handles_distinct(d.state),
        0 <= i < d.state.windows.len(),
        is_about(r, d.state.windows[i].proxy),
    ensures
        ({
            let ready = d.with_state(render::nodes_made(d.state));
            let cells = layout::layout(d.state, d.config.gap);
            &&& ready.state.wf()
            &&& layout::layout(ready.state, d.config.gap) == cells
            &&& render::render_plan(d).requests.contains(r) <==> render::show_requests(
                ready,
                cells,
                ready.state.windows[i],
            ).contains(r)
        }),
{
    let ready = d.with_state(render::nodes_made(d.state));
    let windows = ready.state.windows;
    invariants::lemma_same_places(d.state, ready.state);
    layout::lemma_same_layout(d.state, ready.state, d.config.gap);
    let cells = layout::layout(d.state, d.config.gap);
    lemma_parts(d, r);
    lemma_node_part(d.state, d.state.windows, r);
    let w = windows[i];
    if render::render_plan(d).requests.contains(r) {
        let k = choose|k: int|
            0 <= k < windows.len() && render::show_requests(
                ready,
                cells,
                #[trigger] windows[k],
            ).contains(r);
        lemma_window_part(ready, cells, windows[k], r);
        assert(windows[k].proxy == d.state.windows[k].proxy);
        assert(d.state.windows[k].proxy == d.state.windows[i].proxy);
        if k < i {
            assert(d.state.windows[k].proxy != d.state.windows[i].proxy);
        } else if i < k {
            assert(d.state.windows[i].proxy != d.state.windows[k].proxy);
        }
    }
}

/// The cell of a window in the layout is the one that is listed for it.
proof fn lemma_cell(s: StateModel, gap: u32, i: int, k: int)
    requires
        s.wf(),
        0 <= i < s.windows.len(),
    ensures
        ({
            let list = layout::layout(s, gap);
            let cell = actions::cell_of(list, s.windows[i].id);
            &&& cell is Some <==> s.visible(s.windows[i]) && !s.windows[i].floating
            &&& cell is Some ==> exists|m: int|
                0 <= m < list.len() && (#[trigger] list[m]).0 == s.windows[i].id
            &&& 0 <= k < list.len() && list[k].0 == s.windows[i].id ==> cell == Some(list[k].1)
        }),
{
    let list = layout::layout(s, gap);
    let n = list.len() as int;
    let id = s.windows[i].id;
    sequences::lemma_cell(s, gap, i);
    search::lemma_least(n, actions::placed(list, id));
    if let Some(m) = search::least(n, actions::placed(list, id)) {
        assert(actions::placed(list, id)(m));
        assert(list[m].0 == id);
        if 0 <= k < n && list[k].0 == id && k != m {
            if k < m {
                sequences::no_window_is_laid_out_twice(s, gap, k, m);
            } else {
                sequences::no_window_is_laid_out_twice(s, gap, m, k);
            }
        }
    } else if 0 <= k < n && list[k].0 == id {
        assert(actions::placed(list, id)(k));
    }
}

/// A render sequence places every visible window, and no other: a tiled one at
/// the horizontal and vertical coordinate of its cell in the layout, a floating
/// one at its own floating coordinates. It raises just those windows.
pub proof fn visible_windows_are_placed(d: AppModel, i: int, k: int, x: i32, y: i32)
    requires
        d.state.wf(),
        effects::handles_distinct(d.state),
        0 <= i < d.state.windows.len(),
    ensures
        ({
            let w = d.state.windows[i];
            let requests = render::render_plan(d).requests;
            let list = layout::layout(d.state, d.config.gap);
            let placed = requests.contains(Request::SetPosition { window: w.proxy, x, y });
            &&& d.state.visible(w) && !w.floating ==> exists|m: int|
                0 <= m < list.len() && (#[trigger] list[m]).0 == w.id
            &&& d.state.visible(w) && !w.floating && 0 <= k < list.len() && list[k].0 == w.id ==> (
            placed <==> x == list[k].1.x && y == list[k].1.y)
            &&& d.state.visible(w) && w.floating ==> (placed <==> x == w.float_x && y == w.float_y)
            &&& !d.state.visible(w) ==> !placed
            &&& requests.contains(Request::PlaceTop { window: w.proxy }) <==> d.state.visible(w)
            &&& requests.contains(Request::Show { window: w.proxy }) <==> d.state.visible(w)
            &&& requests.contains(Request::Hide { window: w.proxy }) <==> !d.state.visible(w)
        }),
{
    let ready = d.with_state(render::nodes_made(d.state));
    let w = d.state.windows[i];
    let v = ready.state.windows[i];
    let list = layout::layout(d.state, d.config.gap);
    let at = Request::SetPosition { window: w.proxy, x, y };
    let top = Request::PlaceTop { window: w.proxy };
    let show = Request::Show { window: w.proxy };
    let hide = Request::Hide { window: w.proxy };
    assert(v == render::with_node(d.state, w));
    assert(ready.state.visible(v) == d.state.visible(w));
    lemma_cell(d.state, d.config.gap, i, k);
    lemma_about(d, i, at);
    lemma_about(d, i, top);
    lemma_about(d, i, show);
    lemma_about(d, i, hide);
    lemma_window_part(ready, list, v, at);
    lemma_window_part(ready, list, v, top);
    lemma_window_part(ready, list, v, show);
    lemma_window_part(ready, list, v, hide);
}

/// A render sequence draws borders round every visible window, and no other: on
/// all four edges, in the configured width, opaque, in the configured color for
/// the focused window of the active output and in the other configured color
/// for the rest, each channel in its place and spread over 32 bits.
pub proof fn visible_windows_are_bordered(
    d: AppModel,
    i: int,
    edges: Edges,
    width: i32,
    red: u32,
    green: u32,
    blue: u32,
    alpha: u32,
)
    requires
        d.state.wf(),
        effects::handles_distinct(d.state),
        0 <= i < d.state.windows.len(),
    ensures
        ({
            let w = d.state.windows[i];
            let focused = d.state.outputs.len() > 0 && (match d.state.focused_output {
                Some(f) => d.state.outputs[f as int].focused_window,
                None => d.state.outputs[0].focused_window,
            }) == Some(w.id);
            let text = if focused {
                d.config.focused_border_color@
            } else {
                d.config.border_color@
            };
            let color = config::rgb(config::color_number(text));
            render::render_plan(d).requests.contains(
                Request::SetBorders { window: w.proxy, edges, width, red, green, blue, alpha },
            ) <==> {
                &&& d.state.visible(w)
                &&& edges.top && edges.bottom && edges.left && edges.right
                &&& width == d.config.border_width as i32
                &&& red == color.0 * 0x0101_0101
                &&& green == color.1 * 0x0101_0101
                &&& blue == color.2 * 0x0101_0101
                &&& alpha == u32::MAX
            }
        }),
{
    let ready = d.with_state(render::nodes_made(d.state));
    let w = d.state.windows[i];
    let v = ready.state.windows[i];
    let list = layout::layout(d.state, d.config.gap);
    let r = Request::SetBorders { window: w.proxy, edges, width, red, green, blue, alpha };
    assert(v == render::with_node(d.state, w));
    assert(ready.state.visible(v) == d.state.visible(w));
    lemma_cell(d.state, d.config.gap, i, 0);
    lemma_about(d, i, r);
    lemma_window_part(ready, list, v, r);
}

/// A render sequence creates the render node of a visible window that has none,
/// and of no other; from then on it has one. Nothing else changes.
pub proof fn visible_windows_get_nodes(d: AppModel, i: int)
    requires
        d.state.wf(),
        effects::handles_distinct(d.state),
        0 <= i < d.state.windows.len(),
    ensures
        ({
            let w = d.state.windows[i];
            let e = render::render_plan(d).data;
            &&& render::render_plan(d).requests.contains(Request::GetNode { window: w.proxy })
                <==> d.state.visible(w) && !w.node
            &&& e == d.with_state(StateModel { windows: e.state.windows, ..d.state })
            &&& e.state.windows.len() == d.state.windows.len()
            &&& e.state.windows[i] == (Window { node: w.node || d.state.visible(w), ..w })
        }),
{
    let ready = d.with_state(render::nodes_made(d.state));
    let windows = ready.state.windows;
    let cells = layout::layout(ready.state, d.config.gap);
    let r = Request::GetNode { window: d.state.windows[i].proxy };
    lemma_parts(d, r);
    lemma_node_part(d.state, d.state.windows, r);
    assert forall|k: int| 0 <= k < windows.len() implies !render::show_requests(
        ready,
        cells,
        #[trigger] windows[k],
    ).contains(r) by {
        lemma_window_part(ready, cells, windows[k], r);
    }
    if render::render_plan(d).requests.contains(r) {
        let k = choose|k: int|
            0 <= k < d.state.windows.len() && !(#[trigger] d.state.windows[k]).node
                && d.state.visible(d.state.windows[k]) && r == (Request::GetNode {
                window: d.state.windows[k].proxy,
            });
        if k < i {
            assert(d.state.windows[k].proxy != d.state.windows[i].proxy);
        } else if i < k {
            assert(d.state.windows[i].proxy != d.state.windows[k].proxy);
        }
    }
}

} // verus!
