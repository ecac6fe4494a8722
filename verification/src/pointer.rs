//! Interactive pointer operations: moving and resizing floating windows.
use vstd::prelude::*;
use vstd::string::*;

use crate::actions;
use crate::connection::{AppData, AppModel, Edges, OpKind, PointerOp};
use crate::invariants;
use crate::request;
use crate::request::{Plan, Request};
use crate::search;
use crate::state::{Seat, State, StateModel, Window};
use crate::text;
use crate::wm::layout;

verus! {

/// The smallest width and height that an interactive resize gives.
pub const MIN_FLOAT_SIZE: i32 = 50;

/// Whether the pointer of the seat at an index is over a floating window.
pub open spec fn over_floating(s: StateModel) -> spec_fn(int) -> bool {
    |i: int|
        match s.seats[i].pointer_window {
            Some(id) => match s.window_index(id) {
                Some(w) => s.windows[w].floating,
                None => false,
            },
            None => false,
        }
}

/// The edges that an operation of a kind drags.
pub open spec fn dragged_edges(kind: OpKind) -> Edges {
    match kind {
        OpKind::Move => Edges { top: false, bottom: false, left: false, right: false },
        OpKind::Resize => Edges { top: false, bottom: true, left: false, right: true },
    }
}

/// The operation on window `w` under the pointer of `seat`.
pub open spec fn op_on(seat: Seat, w: Window, kind: OpKind) -> PointerOp {
    PointerOp {
        window: w.id,
        kind,
        start_x: seat.pointer_x,
        start_y: seat.pointer_y,
        start_float_x: w.float_x,
        start_float_y: w.float_y,
        start_w: w.float_w,
        start_h: w.float_h,
        edges: dragged_edges(kind),
        seat: seat.proxy,
    }
}

/// The operation that a pointer binding starts: on the floating window under
/// the pointer of the first seat that has one.
pub open spec fn started_op(d: AppModel, binding: u64) -> Option<PointerOp> {
    match actions::bound_action(d.pointer_bindings, binding) {
        Some(action) => match search::least(
            d.state.seats.len() as int,
            over_floating(d.state),
        ) {
            Some(i) => {
                let seat = d.state.seats[i];
                let w = d.state.windows[d.state.window_index(seat.pointer_window->0)->0];
                let kind = if action@ == "move"@ {
                    OpKind::Move
                } else {
                    OpKind::Resize
                };
                Some(op_on(seat, w, kind))
            },
            None => None,
        },
        None => None,
    }
}

/// Find the first seat whose pointer is over a floating window, and the window.
fn find_dragged(state: &State) -> (r: Option<(usize, usize)>)
    ensures
        match search::least(state.seats@.len() as int, over_floating(state@)) {
            Some(i) => {
                &&& r matches Some(found)
                &&& found.0 == i
                &&& found.0 < state.seats@.len()
                &&& found.1 < state.windows@.len()
                &&& state@.window_index(state.seats@[i].pointer_window->0) == Some(found.1 as int)
                &&& state.seats@[i].pointer_window == Some(state.windows@[found.1 as int].id)
            },
            None => r is None,
        },
{
    let ghost n = state.seats@.len() as int;
    let ghost over = over_floating(state@);
    let mut i: usize = 0;
    while i < state.seats.len()
        invariant
            i <= state.seats@.len() == n,
            over == over_floating(state@),
            forall|k: int| 0 <= k < i ==> !(#[trigger] over(k)),
        decreases state.seats@.len() - i,
    {
        if let Some(id) = state.seats[i].pointer_window {
            if let Some(w) = state.find_window_index(id) {
                if state.windows[w].floating {
                    proof {
                        assert(search::is_least(n, over, i as int));
                        search::lemma_least_is(n, over, i as int);
                    }
                    return Some((i, w));
                }
            }
        }
        i += 1;
    }
    proof {
        search::lemma_least_none(n, over);
    }
    None
}

/// Queue the operation that a pointer binding starts, for the next manage
/// sequence. Returns whether one is needed.
pub fn start_pointer_op(data: &mut AppData, binding: u64) -> (manage: bool)
    ensures
        match started_op(old(data)@, binding) {
            Some(op) => manage && final(data)@ == (AppModel { pending_op: Some(op), ..old(data)@ }),
            None => !manage && final(data)@ == old(data)@,
        },
{
    let action = match actions::find_bound(&data.pointer_bindings, binding) {
        Some(action) => action,
        None => {
            return false;
        },
    };
    let (seat, window): (usize, usize) = match find_dragged(&data.state) {
        Some(found) => found,
        None => {
            return false;
        },
    };
    let kind = if text::same(action.as_str(), "move") {
        OpKind::Move
    } else {
        OpKind::Resize
    };
    let edges = match kind {
        OpKind::Move => Edges { top: false, bottom: false, left: false, right: false },
        OpKind::Resize => Edges { top: false, bottom: true, left: false, right: true },
    };
    let op = PointerOp {
        window: data.state.windows[window].id,
        kind,
        start_x: data.state.seats[seat].pointer_x,
        start_y: data.state.seats[seat].pointer_y,
        start_float_x: data.state.windows[window].float_x,
        start_float_y: data.state.windows[window].float_y,
        start_w: data.state.windows[window].float_w,
        start_h: data.state.windows[window].float_h,
        edges,
        seat: data.state.seats[seat].proxy,
    };
    data.pending_op = Some(op);
    true
}

/// A dragged size, no smaller than the least one.
pub open spec fn dragged_size(size: int) -> int {
    if size < MIN_FLOAT_SIZE {
        MIN_FLOAT_SIZE as int
    } else {
        size
    }
}

/// A window after the pointer moved by (`dx`, `dy`) since an operation on it
/// started: a move shifts its place at the start by as much, a resize its size
/// at the start.
pub open spec fn dragged(w: Window, op: PointerOp, dx: i32, dy: i32) -> Window {
    match op.kind {
        OpKind::Move => Window {
            float_x: (op.start_float_x + dx) as i32,
            float_y: (op.start_float_y + dy) as i32,
            ..w
        },
        OpKind::Resize => Window {
            float_w: dragged_size((op.start_w as i32) + dx) as u32,
            float_h: dragged_size((op.start_h as i32) + dy) as u32,
            ..w
        },
    }
}

/// Whether a pointer motion stays in numbers of 32 bits.
pub open spec fn drag_fits(op: PointerOp, dx: i32, dy: i32) -> bool {
    match op.kind {
        OpKind::Move => {
            &&& layout::fits(op.start_float_x + dx)
            &&& layout::fits(op.start_float_y + dy)
        },
        OpKind::Resize => {
            &&& layout::fits((op.start_w as i32) + dx)
            &&& layout::fits((op.start_h as i32) + dy)
        },
    }
}

/// Whether a pointer motion can be applied to the operation under way.
pub open spec fn delta_fits(d: AppModel, dx: i32, dy: i32) -> bool {
    match d.pointer_op {
        Some(op) => d.state.window_index(op.window) is Some ==> drag_fits(op, dx, dy),
        None => true,
    }
}

/// The context after a pointer motion was applied to the operation under way.
pub open spec fn delta_applied(d: AppModel, dx: i32, dy: i32) -> AppModel {
    match d.pointer_op {
        Some(op) => match d.state.window_index(op.window) {
            Some(i) => d.with_state(
                d.state.with_window(i, dragged(d.state.windows[i], op, dx, dy)),
            ),
            None => d,
        },
        None => d,
    }
}

/// Whether a pointer motion can be applied to the operation under way.
pub fn can_apply_delta(data: &AppData, dx: i32, dy: i32) -> (r: bool)
    ensures
        r == delta_fits(data@, dx, dy),
{
    match data.pointer_op {
        Some(op) => match data.state.find_window_index(op.window) {
            Some(_) => {
                let (to_x, to_y): (i64, i64) = match op.kind {
                    OpKind::Move => (
                        op.start_float_x as i64 + dx as i64,
                        op.start_float_y as i64 + dy as i64,
                    ),
                    OpKind::Resize => (
                        (op.start_w as i32) as i64 + dx as i64,
                        (op.start_h as i32) as i64 + dy as i64,
                    ),
                };
                is_small(to_x) && is_small(to_y)
            },
            None => true,
        },
        None => true,
    }
}

/// Whether `v` is a number of 32 bits.
fn is_small(v: i64) -> (r: bool)
    ensures
        r == layout::fits(v as int),
{
    i32::MIN as i64 <= v && v <= i32::MAX as i64
}

/// Apply a pointer motion to the operation under way.
pub fn apply_pointer_delta(data: &mut AppData, dx: i32, dy: i32)
    requires
        delta_fits(old(data)@, dx, dy),
    ensures
        final(data)@ == delta_applied(old(data)@, dx, dy),
{
    if let Some(op) = data.pointer_op {
        if let Some(i) = data.state.find_window_index(op.window) {
            match op.kind {
                OpKind::Move => {
                    data.state.windows[i].float_x = op.start_float_x + dx;
                    data.state.windows[i].float_y = op.start_float_y + dy;
                },
                OpKind::Resize => {
                    let w: i32 = op.start_w as i32 + dx;
                    let h: i32 = op.start_h as i32 + dy;
                    data.state.windows[i].float_w = if w < MIN_FLOAT_SIZE {
                        MIN_FLOAT_SIZE as u32
                    } else {
                        w as u32
                    };
                    data.state.windows[i].float_h = if h < MIN_FLOAT_SIZE {
                        MIN_FLOAT_SIZE as u32
                    } else {
                        h as u32
                    };
                },
            }
        }
    }
}

/// Whether an operation is under way or queued.
pub open spec fn has_op(d: AppModel) -> bool {
    d.pointer_op is Some || d.pending_op is Some
}

/// The context after the end of the pointer operation was requested.
pub open spec fn end_requested(d: AppModel) -> AppModel {
    if has_op(d) {
        AppModel { op_end_requested: true, ..d }
    } else {
        d
    }
}

/// Request the end of the pointer operation, for the next manage sequence.
/// Returns whether one is needed.
pub fn end_pointer_op(data: &mut AppData) -> (manage: bool)
    ensures
        manage == has_op(old(data)@),
        final(data)@ == end_requested(old(data)@),
{
    if data.pointer_op.is_some() || data.pending_op.is_some() {
        data.op_end_requested = true;
        true
    } else {
        false
    }
}

/// The plan after the queued operation was started.
pub open spec fn op_started(p: Plan) -> Plan {
    match p.data.pending_op {
        Some(op) => p.with_data(
            AppModel { pending_op: None, pointer_op: Some(op), ..p.data },
        ).sending(seq![Request::OpStartPointer { seat: op.seat }]),
        None => p,
    }
}

/// The plan after the operation under way was ended, if that was requested.
pub open spec fn op_ended(p: Plan) -> Plan {
    if p.data.op_end_requested {
        let done = p.with_data(AppModel { op_end_requested: false, pointer_op: None, ..p.data });
        match p.data.pointer_op {
            Some(op) => done.sending(seq![Request::OpEnd { seat: op.seat }]),
            None => done,
        }
    } else {
        p
    }
}

/// Start the queued pointer operation and end the one under way, as requested.
pub fn process_pointer_ops(data: &mut AppData, requests: &mut Vec<Request>)
    ensures
        request::plan(final(data)@, final(requests)@) == op_ended(
            op_started(request::plan(old(data)@, old(requests)@)),
        ),
{
    let ghost start = request::plan(data@, requests@);
    if let Some(op) = data.pending_op {
        requests.push(Request::OpStartPointer { seat: op.seat });
        data.pending_op = None;
        data.pointer_op = Some(op);
    }
    assert(request::plan(data@, requests@) =~= op_started(start));
    let ghost mid = request::plan(data@, requests@);
    if data.op_end_requested {
        data.op_end_requested = false;
        if let Some(op) = data.pointer_op {
            requests.push(Request::OpEnd { seat: op.seat });
            data.pointer_op = None;
        }
    }
    assert(request::plan(data@, requests@) =~= op_ended(mid));
}

/// Whether the pointer of the seat at index `k` is over the floating window at
/// index `i`.
pub open spec fn hovers(s: StateModel, k: int, i: int) -> bool {
    &&& 0 <= k < s.seats.len()
    &&& 0 <= i < s.windows.len()
    &&& s.seats[k].pointer_window == Some(s.windows[i].id)
    &&& s.windows[i].floating
}

/// A pointer binding starts an operation exactly if it is registered and the
/// pointer of a seat is over a floating window. The operation is on that window
/// and that seat, of the first such seat; it is a move for a binding to move, and
/// a resize of the right and bottom edges for any other.
pub proof fn bindings_start_operations(d: AppModel, binding: u64, b: int, k: int, i: int)
    requires
        d.state.wf(),
    ensures
        started_op(d, binding) is Some ==> (exists|m: int|
            0 <= m < d.pointer_bindings.len() && (#[trigger] d.pointer_bindings[m]).0 == binding)
            && (exists|m: int, n: int| #[trigger] hovers(d.state, m, n)),
        0 <= b < d.pointer_bindings.len() && d.pointer_bindings[b].0 == binding && (forall|m: int|
            0 <= m < b ==> (#[trigger] d.pointer_bindings[m]).0 != binding) && hovers(
            d.state,
            k,
            i,
        ) && (forall|m: int, n: int| 0 <= m < k ==> !(#[trigger] hovers(d.state, m, n))) ==> {
            let moves = d.pointer_bindings[b].1@ == "move"@;
            &&& started_op(d, binding) matches Some(op)
            &&& op.window == d.state.windows[i].id
            &&& op.seat == d.state.seats[k].proxy
            &&& op.kind is Move <==> moves
            &&& op.start_x == d.state.seats[k].pointer_x
            &&& op.start_y == d.state.seats[k].pointer_y
            &&& !op.edges.top && !op.edges.left
            &&& op.edges.bottom == !moves
            &&& op.edges.right == !moves
        },
{
    let s = d.state;
    let n = s.seats.len() as int;
    let over = over_floating(s);
    let list = d.pointer_bindings;
    let bound = actions::has_handle(list, binding);
    search::lemma_least(n, over);
    search::lemma_least(list.len() as int, bound);
    assert forall|m: int| 0 <= m < n implies (#[trigger] over(m) <==> exists|w: int| #[trigger]
        hovers(s, m, w)) by {
        if over(m) {
            let id = s.seats[m].pointer_window->0;
            search::lemma_least(s.windows.len() as int, s.has_id(id));
            let w = s.window_index(id)->0;
            assert(s.has_id(id)(w));
            assert(hovers(s, m, w));
        }
        if exists|w: int| #[trigger] hovers(s, m, w) {
            let w = choose|w: int| #[trigger] hovers(s, m, w);
            invariants::window_is_found_by_id(s, w);
        }
    }
    if started_op(d, binding) is Some {
        let m = search::least(list.len() as int, bound)->0;
        assert(bound(m));
        assert(list[m].0 == binding);
        let seat = search::least(n, over)->0;
        assert(over(seat));
        let w = choose|w: int| #[trigger] hovers(s, seat, w);
        assert(hovers(s, seat, w));
    }
    if 0 <= b < list.len() && list[b].0 == binding && (forall|m: int|
        0 <= m < b ==> (#[trigger] list[m]).0 != binding) && hovers(s, k, i) && (forall|
        m: int,
        n: int,
    |
        0 <= m < k ==> !(#[trigger] hovers(s, m, n))) {
        assert(bound(b));
        assert forall|m: int| 0 <= m < b implies !(#[trigger] bound(m)) by {
            assert(list[m].0 != binding);
        }
        assert(search::is_least(list.len() as int, bound, b));
        search::lemma_least_is(list.len() as int, bound, b);
        assert(over(k));
        assert forall|m: int| 0 <= m < k implies !(#[trigger] over(m)) by {
            if over(m) {
                let w = choose|w: int| #[trigger] hovers(s, m, w);
                assert(!hovers(s, m, w));
            }
        }
        assert(search::is_least(n, over, k));
        search::lemma_least_is(n, over, k);
        invariants::window_is_found_by_id(s, i);
    }
}

/// An operation that a pointer binding starts drags a floating window under the
/// pointer of a seat: a motion of the pointer by (`dx`, `dy`) since then moves
/// the window from its own place by as much, or changes its own width and height
/// by as much, down to the least size. No other window changes, and a pointer
/// that has not moved changes nothing.
pub proof fn started_drags_follow_the_pointer(
    d: AppModel,
    binding: u64,
    op: PointerOp,
    dx: i32,
    dy: i32,
)
    requires
        d.state.wf(),
        started_op(d, binding) == Some(op),
        drag_fits(op, dx, dy),
    ensures
        exists|k: int, i: int|
            {
                let w = d.state.windows[i];
                let e = delta_applied(AppModel { pointer_op: Some(op), ..d }, dx, dy).state;
                let v = e.windows[i];
                &&& #[trigger] hovers(d.state, k, i)
                &&& e == (StateModel { windows: d.state.windows.update(i, v), ..d.state })
                &&& op.kind is Move ==> v.float_x == w.float_x + dx && v.float_y == w.float_y + dy
                    && v == (Window { float_x: v.float_x, float_y: v.float_y, ..w })
                &&& op.kind is Resize && w.float_w <= i32::MAX && w.float_h <= i32::MAX ==> {
                    &&& v.float_w == (if w.float_w + dx < 50 {
                        50
                    } else {
                        w.float_w + dx
                    })
                    &&& v.float_h == (if w.float_h + dy < 50 {
                        50
                    } else {
                        w.float_h + dy
                    })
                }
                &&& op.kind is Resize ==> v == (Window {
                    float_w: v.float_w,
                    float_h: v.float_h,
                    ..w
                })
                &&& dx == 0 && dy == 0 && op.kind is Move ==> v == w
                &&& dx == 0 && dy == 0 && op.kind is Resize && 50 <= w.float_w <= i32::MAX && 50
                    <= w.float_h <= i32::MAX ==> v == w
            },
{
    let s = d.state;
    let n = s.seats.len() as int;
    let over = over_floating(s);
    search::lemma_least(n, over);
    let k = search::least(n, over)->0;
    assert(over(k));
    let id = s.seats[k].pointer_window->0;
    search::lemma_least(s.windows.len() as int, s.has_id(id));
    let i = s.window_index(id)->0;
    assert(s.has_id(id)(i));
    assert(hovers(s, k, i));
    invariants::window_is_found_by_id(s, i);
}

/// A pointer that moves while no operation is under way, or one on a window that
/// is gone, changes nothing.
pub proof fn idle_motion_changes_nothing(d: AppModel, dx: i32, dy: i32)
    requires
        d.state.wf(),
        d.pointer_op matches Some(op) ==> forall|i: int|
            0 <= i < d.state.windows.len() ==> (#[trigger] d.state.windows[i]).id != op.window,
    ensures
        delta_applied(d, dx, dy) == d,
{
    if let Some(op) = d.pointer_op {
        search::lemma_least(d.state.windows.len() as int, d.state.has_id(op.window));
        if let Some(i) = d.state.window_index(op.window) {
            assert(d.state.has_id(op.window)(i));
        }
    }
}

} // verus!
