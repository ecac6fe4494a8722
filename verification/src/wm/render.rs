//! The render sequence: the requests that place and show windows.
use vstd::prelude::*;
use vstd::string::*;

use crate::actions;
use crate::config;
use crate::config::Config;
use crate::connection::{AppData, AppModel, Edges};
use crate::invariants;
use crate::request;
use crate::request::{Plan, Request};
use crate::state::{State, StateModel, Window};
use crate::wm::layout;
use crate::wm::layout::Geometry;

verus! {

/// A window that has its render node if it is visible.
pub open spec fn with_node(s: StateModel, w: Window) -> Window {
    Window { node: w.node || s.visible(w), ..w }
}

/// The state in which every visible window has its render node.
pub open spec fn nodes_made(s: StateModel) -> StateModel {
    StateModel {
        windows: Seq::new(s.windows.len(), |i: int| with_node(s, s.windows[i])),
        ..s
    }
}

/// The requests that create the render nodes still missing.
pub open spec fn node_requests(s: StateModel, windows: Seq<Window>) -> Seq<Request>
    decreases windows.len(),
{
    if windows.len() == 0 {
        Seq::empty()
    } else {
        let before = node_requests(s, windows.drop_last());
        let w = windows.last();
        if !w.node && s.visible(w) {
            before.push(Request::GetNode { window: w.proxy })
        } else {
            before
        }
    }
}

/// Create the render nodes that visible windows are still missing.
fn make_nodes(state: &mut State, requests: &mut Vec<Request>)
    ensures
        final(state)@ == nodes_made(old(state)@),
        final(requests)@ == old(requests)@ + node_requests(old(state)@, old(state).windows@),
{
    let ghost start = state@;
    let ghost target = nodes_made(start);
    let mut i: usize = 0;
    assert(start.windows.take(0) =~= Seq::empty());
    while i < state.windows.len()
        invariant
            start == old(state)@,
            target == nodes_made(start),
            i <= state.windows@.len() == start.windows.len(),
            state@ == (StateModel { windows: state.windows@, ..start }),
            forall|k: int| 0 <= k < i ==> state.windows@[k] == target.windows[k],
            forall|k: int| i <= k < state.windows@.len() ==> state.windows@[k] == start.windows[k],
            requests@ =~= old(requests)@ + node_requests(start, start.windows.take(i as int)),
        decreases state.windows@.len() - i,
    {
        assert(start.windows.take(i + 1).drop_last() =~= start.windows.take(i as int));
        assert(start.windows.take(i + 1).last() == start.windows[i as int]);
        if !state.windows[i].node && state.window_is_visible(&state.windows[i]) {
            requests.push(Request::GetNode { window: state.windows[i].proxy });
            state.windows[i].node = true;
        }
        i += 1;
    }
    assert(start.windows.take(i as int) =~= start.windows);
    assert(state@ =~= target);
}

/// The border color of a window.
pub open spec fn border_color(config: Config, focused: bool) -> (u8, u8, u8) {
    if focused {
        config::rgb(config::color_number(config.focused_border_color@))
    } else {
        config::rgb(config::color_number(config.border_color@))
    }
}

/// The edges of a window, all of them.
pub open spec fn all_edges() -> Edges {
    Edges { top: true, bottom: true, left: true, right: true }
}

/// The request that draws the borders of a window.
pub open spec fn border_request(config: Config, w: Window, focused: bool) -> Request {
    let color = border_color(config, focused);
    Request::SetBorders {
        window: w.proxy,
        edges: all_edges(),
        width: config.border_width as i32,
        red: layout::widened(color.0),
        green: layout::widened(color.1),
        blue: layout::widened(color.2),
        alpha: 0xFFFF_FFFF,
    }
}

/// The requests that put a window above those placed before: in its cell, or
/// where it floats.
pub open spec fn place_requests(w: Window, cell: Option<Geometry>) -> Seq<Request> {
    if w.node {
        let at = match cell {
            Some(g) => (g.x, g.y),
            None => (w.float_x, w.float_y),
        };
        seq![
            Request::SetPosition { window: w.proxy, x: at.0, y: at.1 },
            Request::PlaceTop { window: w.proxy },
        ]
    } else {
        Seq::empty()
    }
}

/// The requests that place and show a window, or hide it where it has no cell
/// and does not float visibly.
pub open spec fn show_requests(d: AppModel, cells: Seq<(u32, Geometry)>, w: Window) -> Seq<
    Request,
> {
    let cell = actions::cell_of(cells, w.id);
    if cell is Some || (w.floating && d.state.visible(w)) {
        place_requests(w, cell) + seq![
            border_request(d.config, w, d.focused_window() == Some(w.id)),
            Request::Show { window: w.proxy },
        ]
    } else {
        seq![Request::Hide { window: w.proxy }]
    }
}

/// The requests that show or hide the floating windows, or those that do not
/// float, in order.
pub open spec fn layer_requests(
    d: AppModel,
    cells: Seq<(u32, Geometry)>,
    windows: Seq<Window>,
    floating: bool,
) -> Seq<Request>
    decreases windows.len(),
{
    if windows.len() == 0 {
        Seq::empty()
    } else {
        let before = layer_requests(d, cells, windows.drop_last(), floating);
        if windows.last().floating == floating {
            before + show_requests(d, cells, windows.last())
        } else {
            before
        }
    }
}

/// The requests that show and hide all windows: floating ones last, so that
/// they end up above the others.
pub open spec fn render_requests(d: AppModel) -> Seq<Request> {
    let cells = layout::layout(d.state, d.config.gap);
    layer_requests(d, cells, d.state.windows, false) + layer_requests(
        d,
        cells,
        d.state.windows,
        true,
    )
}

/// Place and show a window, or hide it.
fn show_window(
    data: &AppData,
    cells: &Vec<(u32, Geometry)>,
    i: usize,
    focused: Option<u32>,
    requests: &mut Vec<Request>,
)
    requires
        i < data.state.windows@.len(),
        focused == data@.focused_window(),
    ensures
        final(requests)@ == old(requests)@ + show_requests(
            data@,
            cells@,
            data.state.windows@[i as int],
        ),
{
    let w = &data.state.windows[i];
    let window: u64 = w.proxy;
    let cell = actions::find_cell(cells, w.id);
    if cell.is_some() || (w.floating && data.state.window_is_visible(w)) {
        if w.node {
            let (x, y): (i32, i32) = match cell {
                Some(g) => (g.x, g.y),
                None => (w.float_x, w.float_y),
            };
            requests.push(Request::SetPosition { window, x, y });
            requests.push(Request::PlaceTop { window });
        }
        let color = if focused == Some(w.id) {
            data.config.color(data.config.focused_border_color.as_str())
        } else {
            data.config.color(data.config.border_color.as_str())
        };
        let (alpha, red, green, blue) = layout::to_32bit(color.0, color.1, color.2);
        requests.push(
            Request::SetBorders {
                window,
                edges: Edges { top: true, bottom: true, left: true, right: true },
                width: data.config.border_width as i32,
                red,
                green,
                blue,
                alpha,
            },
        );
        requests.push(Request::Show { window });
    } else {
        requests.push(Request::Hide { window });
    }
    assert(requests@ =~= old(requests)@ + show_requests(data@, cells@, *w));
}

/// Show or hide the floating windows, or those that do not float.
fn show_layer(
    data: &AppData,
    cells: &Vec<(u32, Geometry)>,
    floating: bool,
    focused: Option<u32>,
    requests: &mut Vec<Request>,
)
    requires
        focused == data@.focused_window(),
    ensures
        final(requests)@ == old(requests)@ + layer_requests(
            data@,
            cells@,
            data.state.windows@,
            floating,
        ),
{
    let ghost windows = data.state.windows@;
    let mut i: usize = 0;
    assert(windows.take(0) =~= Seq::empty());
    while i < data.state.windows.len()
        invariant
            windows == data.state.windows@,
            focused == data@.focused_window(),
            i <= windows.len(),
            requests@ =~= old(requests)@ + layer_requests(
                data@,
                cells@,
                windows.take(i as int),
                floating,
            ),
        decreases windows.len() - i,
    {
        assert(windows.take(i + 1).drop_last() =~= windows.take(i as int));
        assert(windows.take(i + 1).last() == windows[i as int]);
        if data.state.windows[i].floating == floating {
            show_window(data, cells, i, focused, requests);
        }
        i += 1;
    }
    assert(windows.take(i as int) =~= windows);
}

/// Position windows, draw their borders, and show the visible ones.
pub fn render_all_run(data: &AppData, requests: &mut Vec<Request>)
    requires
        data.state@.wf(),
        layout::layout_fits(data.state@, data.config.gap),
    ensures
        final(requests)@ == old(requests)@ + render_requests(data@),
{
    let cells = layout::compute_all(&data.state, &data.config);
    let focused: Option<u32> = data.focused_window();
    show_layer(data, &cells, false, focused, requests);
    show_layer(data, &cells, true, focused, requests);
    assert(requests@ =~= old(requests)@ + render_requests(data@));
}

/// The plan of a render sequence.
pub open spec fn render_plan(d: AppModel) -> Plan {
    let ready = d.with_state(nodes_made(d.state));
    request::plan(
        ready,
        node_requests(d.state, d.state.windows) + render_requests(ready) + seq![
            Request::RenderFinish,
        ],
    )
}

/// Run a render sequence: create missing render nodes, position windows, draw
/// their borders, and show the visible ones. Returns the requests to send, in
/// order.
pub fn on_render_start(data: &mut AppData) -> (requests: Vec<Request>)
    requires
        old(data).state@.wf(),
        layout::layout_fits(old(data).state@, old(data).config.gap),
    ensures
        request::plan(final(data)@, requests@) == render_plan(old(data)@),
        final(data).state@.wf(),
{
    let mut requests: Vec<Request> = Vec::new();
    let ghost d = data@;
    make_nodes(&mut data.state, &mut requests);
    proof {
        invariants::lemma_same_places(d.state, data.state@);
        layout::lemma_same_layout(d.state, data.state@, d.config.gap);
    }
    render_all_run(data, &mut requests);
    requests.push(Request::RenderFinish);
    assert(request::plan(data@, requests@) =~= render_plan(d));
    requests
}

} // verus!
