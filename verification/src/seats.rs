//! The events of seats: the pointer, and the focus that follows it.
use vstd::prelude::*;

use crate::connection::{AppData, AppModel};
use crate::laws;
use crate::pointer;
use crate::search;
use crate::state::{Output, Seat, State, StateModel};
use crate::wm::layout;

verus! {

/// An event of a seat.
pub enum SeatEvent {
    /// The pointer entered a window.
    PointerEnter { window: u64 },
    /// The pointer left the window that it was in.
    PointerLeave,
    /// A button was pressed on a window, or it was touched.
    WindowInteraction { window: u64 },
    /// The pointer moved.
    PointerPosition { x: i32, y: i32 },
    /// The pointer moved during an interactive operation.
    OpDelta { dx: i32, dy: i32 },
    /// The buttons were released during an interactive operation.
    OpRelease,
    /// The seat is gone.
    Removed,
}

/// Whether the seat at an index has protocol handle `proxy`.
pub open spec fn seat_has_proxy(s: StateModel, proxy: u64) -> spec_fn(int) -> bool {
    |i: int| s.seats[i].proxy == proxy
}

/// The index of the seat with protocol handle `proxy`.
pub open spec fn seat_by_proxy(s: StateModel, proxy: u64) -> Option<int> {
    search::least(s.seats.len() as int, seat_has_proxy(s, proxy))
}

/// The index of the seat with protocol handle `proxy`.
fn find_seat(state: &State, proxy: u64) -> (r: Option<usize>)
    ensures
        r is Some <==> seat_by_proxy(state@, proxy) is Some,
        r is Some ==> r->0 == seat_by_proxy(state@, proxy)->0 && r->0 < state.seats@.len(),
{
    let ghost n = state.seats@.len() as int;
    let ghost holds = seat_has_proxy(state@, proxy);
    let mut i: usize = 0;
    while i < state.seats.len()
        invariant
            i <= state.seats@.len() == n,
            holds == seat_has_proxy(state@, proxy),
            forall|k: int| 0 <= k < i ==> !(#[trigger] holds(k)),
        decreases state.seats@.len() - i,
    {
        if state.seats[i].proxy == proxy {
            proof {
                assert(search::is_least(n, holds, i as int));
                search::lemma_least_is(n, holds, i as int);
            }
            return Some(i);
        }
        i += 1;
    }
    proof {
        search::lemma_least_none(n, holds);
    }
    None
}

/// The state with the window under the pointer of seat `proxy` set.
pub open spec fn pointer_over(s: StateModel, proxy: u64, window: Option<u32>) -> StateModel {
    match seat_by_proxy(s, proxy) {
        Some(i) => StateModel {
            seats: s.seats.update(i, Seat { pointer_window: window, ..s.seats[i] }),
            ..s
        },
        None => s,
    }
}

/// Set the window under the pointer of a seat.
fn set_pointer_window(state: &mut State, proxy: u64, window: Option<u32>)
    ensures
        final(state)@ == pointer_over(old(state)@, proxy, window),
{
    if let Some(i) = find_seat(state, proxy) {
        state.seats[i].pointer_window = window;
    }
    assert(state@ =~= pointer_over(old(state)@, proxy, window));
}

/// The state after the pointer moved the focus to window `id`: to it, its tag,
/// and the output that owns the tag; unchanged if no output does.
pub open spec fn window_picked(s: StateModel, id: u32) -> StateModel {
    match s.window_index(id) {
        Some(i) => {
            let tag = s.windows[i].tag;
            match s.owner(tag) {
                Some(o) => if o < s.outputs.len() {
                    StateModel { focused_output: Some(o), ..s }.with_focus(
                        o as int,
                        Some(id),
                    ).tag_switched(o, tag)
                } else {
                    s
                },
                None => s,
            }
        },
        None => s,
    }
}

/// Move the focus to a window.
fn pick_window(state: &mut State, id: u32)
    ensures
        final(state)@ == window_picked(old(state)@, id),
{
    if let Some(i) = state.find_window_index(id) {
        let tag: usize = state.windows[i].tag;
        if let Some(o) = state.tag_owner(tag) {
            if o < state.outputs.len() {
                state.focused_output = Some(o);
                state.outputs[o].focused_window = Some(id);
                assert(state@ =~= StateModel { focused_output: Some(o), ..old(state)@ }.with_focus(
                    o as int,
                    Some(id),
                ));
                state.switch_active_tag(o, tag);
            }
        }
    }
}

/// Whether a point lies on an output.
pub open spec fn lies_on(output: Output, x: i32, y: i32) -> bool {
    output.x <= x < output.x + (output.width as i32) && output.y <= y < output.y + (
    output.height as i32)
}

/// Whether a point lies on the output at an index.
pub open spec fn under_point(s: StateModel, x: i32, y: i32) -> spec_fn(int) -> bool {
    |o: int| lies_on(s.outputs[o], x, y)
}

/// Whether the right and bottom edges of an output that are compared with a
/// point are numbers of 32 bits.
pub open spec fn edges_fit(output: Output, x: i32, y: i32) -> bool {
    &&& x >= output.x ==> layout::fits(output.x + (output.width as i32))
    &&& output.x <= x < output.x + (output.width as i32) && y >= output.y ==> layout::fits(
        output.y + (output.height as i32),
    )
}

/// Whether every output up to the one that a point lies on has edges that are
/// numbers of 32 bits.
pub open spec fn point_fits(s: StateModel, x: i32, y: i32) -> bool {
    forall|o: int|
        0 <= o < s.outputs.len() && (forall|k: int|
            0 <= k < o ==> !(#[trigger] under_point(s, x, y)(k))) ==> #[trigger] edges_fit(
            s.outputs[o],
            x,
            y,
        )
}

/// The first output that a point lies on.
fn find_output_at(state: &State, x: i32, y: i32) -> (r: Option<usize>)
    requires
        point_fits(state@, x, y),
    ensures
        match search::least(state.outputs@.len() as int, under_point(state@, x, y)) {
            Some(o) => r == Some(o as usize) && o < state.outputs@.len(),
            None => r is None,
        },
{
    let ghost n = state.outputs@.len() as int;
    let ghost under = under_point(state@, x, y);
    let mut o: usize = 0;
    while o < state.outputs.len()
        invariant
            o <= state.outputs@.len() == n,
            under == under_point(state@, x, y),
            point_fits(state@, x, y),
            forall|k: int| 0 <= k < o ==> !(#[trigger] under(k)),
        decreases state.outputs@.len() - o,
    {
        let output = &state.outputs[o];
        assert(edges_fit(state@.outputs[o as int], x, y));
        if x >= output.x && x < output.x + output.width as i32 && y >= output.y && y < output.y
            + output.height as i32 {
            proof {
                assert(search::is_least(n, under, o as int));
                search::lemma_least_is(n, under, o as int);
            }
            return Some(o);
        }
        o += 1;
    }
    proof {
        search::lemma_least_none(n, under);
    }
    None
}

/// Whether the output under a point can be told in numbers of 32 bits.
pub fn can_find_output_at(state: &State, x: i32, y: i32) -> (r: bool)
    ensures
        r == point_fits(state@, x, y),
{
    let ghost under = under_point(state@, x, y);
    let mut o: usize = 0;
    while o < state.outputs.len()
        invariant
            o <= state.outputs@.len(),
            under == under_point(state@, x, y),
            forall|k: int| 0 <= k < o ==> !(#[trigger] under(k)),
            forall|k: int| 0 <= k < o ==> edges_fit(#[trigger] state@.outputs[k], x, y),
        decreases state.outputs@.len() - o,
    {
        let output = &state.outputs[o];
        let right: i64 = output.x as i64 + (output.width as i32) as i64;
        let bottom: i64 = output.y as i64 + (output.height as i32) as i64;
        let in_width: bool = x >= output.x && (x as i64) < right;
        let right_fits: bool = i32::MIN as i64 <= right && right <= i32::MAX as i64;
        let bottom_fits: bool = i32::MIN as i64 <= bottom && bottom <= i32::MAX as i64;
        if (x >= output.x && !right_fits) || (in_width && y >= output.y && !bottom_fits) {
            assert(!edges_fit(state@.outputs[o as int], x, y));
            return false;
        }
        assert(edges_fit(state@.outputs[o as int], x, y));
        if in_width && y >= output.y && (y as i64) < bottom {
            assert(under(o as int));
            assert forall|j: int|
                0 <= j < state@.outputs.len() && (forall|k: int|
                    0 <= k < j ==> !(#[trigger] under_point(state@, x, y)(k)))
                implies #[trigger] edges_fit(state@.outputs[j], x, y) by {
                if j > o {
                    assert(!under_point(state@, x, y)(o as int));
                }
            }
            return true;
        }
        o += 1;
    }
    true
}

/// The state after the pointer of seat `proxy` moved. With focus following the
/// mouse, the focus goes to the output under the pointer, even an empty one.
pub open spec fn pointer_moved(
    s: StateModel,
    follow: bool,
    proxy: u64,
    x: i32,
    y: i32,
) -> StateModel {
    let moved = match seat_by_proxy(s, proxy) {
        Some(i) => StateModel {
            seats: s.seats.update(i, Seat { pointer_x: x, pointer_y: y, ..s.seats[i] }),
            ..s
        },
        None => s,
    };
    if follow {
        match search::least(s.outputs.len() as int, under_point(s, x, y)) {
            Some(o) => StateModel { focused_output: Some(o as usize), ..moved },
            None => moved,
        }
    } else {
        moved
    }
}

/// Record a pointer position, and move the focus to the output under it.
fn move_pointer(state: &mut State, follow: bool, proxy: u64, x: i32, y: i32)
    requires
        follow ==> point_fits(old(state)@, x, y),
    ensures
        final(state)@ == pointer_moved(old(state)@, follow, proxy, x, y),
{
    if let Some(i) = find_seat(state, proxy) {
        state.seats[i].pointer_x = x;
        state.seats[i].pointer_y = y;
    }
    if follow {
        assert(under_point(state@, x, y) =~= under_point(old(state)@, x, y));
        if let Some(o) = find_output_at(state, x, y) {
            state.focused_output = Some(o);
        }
    }
    assert(state@ =~= pointer_moved(old(state)@, follow, proxy, x, y));
}

/// The seats without those that have protocol handle `proxy`.
pub open spec fn without_seat(seats: Seq<Seat>, proxy: u64) -> Seq<Seat>
    decreases seats.len(),
{
    if seats.len() == 0 {
        Seq::empty()
    } else {
        let before = without_seat(seats.drop_last(), proxy);
        if seats.last().proxy != proxy {
            before.push(seats.last())
        } else {
            before
        }
    }
}

/// Remove the seats with protocol handle `proxy`.
fn remove_seats(state: &mut State, proxy: u64)
    ensures
        final(state)@ == (StateModel {
            seats: without_seat(old(state).seats@, proxy),
            ..old(state)@
        }),
{
    let ghost all = state.seats@;
    let mut i: usize = 0;
    let ghost mut seen: int = 0;
    assert(all.take(0) =~= Seq::empty());
    assert(all.skip(0) =~= all);
    while i < state.seats.len()
        invariant
            all == old(state).seats@,
            0 <= i <= state.seats@.len(),
            0 <= seen <= all.len(),
            state.seats@.len() - i == all.len() - seen,
            state@ == (StateModel { seats: state.seats@, ..old(state)@ }),
            state.seats@ =~= without_seat(all.take(seen), proxy) + all.skip(seen),
            without_seat(all.take(seen), proxy).len() == i,
        decreases state.seats@.len() - i,
    {
        let ghost kept = without_seat(all.take(seen), proxy);
        assert(all.take(seen + 1).drop_last() =~= all.take(seen));
        assert(all.take(seen + 1).last() == all[seen]);
        assert(state.seats@[i as int] == all[seen]);
        if state.seats[i].proxy == proxy {
            state.seats.remove(i);
            assert(state.seats@ =~= kept + all.skip(seen + 1));
        } else {
            assert(state.seats@ =~= kept.push(all[seen]) + all.skip(seen + 1));
            i += 1;
        }
        proof {
            seen = seen + 1;
        }
    }
    assert(all.take(seen) =~= all);
}

/// The context after an event of the seat with protocol handle `proxy`.
pub open spec fn seat_event(d: AppModel, proxy: u64, event: SeatEvent) -> AppModel {
    match event {
        SeatEvent::PointerEnter { window } => match d.state.window_by_proxy(window) {
            Some(id) => {
                let over = pointer_over(d.state, proxy, Some(id));
                d.with_state(
                    if d.config.focus_follows_mouse {
                        window_picked(over, id)
                    } else {
                        over
                    },
                )
            },
            None => d,
        },
        SeatEvent::PointerLeave => d.with_state(pointer_over(d.state, proxy, None)),
        SeatEvent::WindowInteraction { window } => match d.state.window_by_proxy(window) {
            Some(id) => d.with_state(window_picked(d.state, id)),
            None => d,
        },
        SeatEvent::PointerPosition { x, y } => d.with_state(
            pointer_moved(d.state, d.config.focus_follows_mouse, proxy, x, y),
        ),
        SeatEvent::OpDelta { dx, dy } => pointer::delta_applied(d, dx, dy),
        SeatEvent::OpRelease => pointer::end_requested(d),
        SeatEvent::Removed => d.with_state(
            StateModel { seats: without_seat(d.state.seats, proxy), ..d.state },
        ),
    }
}

/// Whether an event of a seat stays in numbers of 32 bits.
pub open spec fn seat_event_fits(d: AppModel, event: SeatEvent) -> bool {
    match event {
        SeatEvent::PointerPosition { x, y } => d.config.focus_follows_mouse ==> point_fits(
            d.state,
            x,
            y,
        ),
        SeatEvent::OpDelta { dx, dy } => pointer::delta_fits(d, dx, dy),
        _ => true,
    }
}

/// Handle an event of the seat with protocol handle `proxy`. Returns whether a
/// manage sequence is needed.
pub fn on_seat_event(data: &mut AppData, proxy: u64, event: SeatEvent) -> (manage: bool)
    requires
        seat_event_fits(old(data)@, event),
    ensures
        manage == (event is OpRelease && pointer::has_op(old(data)@)),
        final(data)@ == seat_event(old(data)@, proxy, event),
        old(data).state@.wf() ==> final(data).state@.wf(),
{
    proof {
        if data.state@.wf() {
            laws::seat_events_keep_wf(data@, proxy, event);
        }
    }
    match event {
        SeatEvent::PointerEnter { window } => {
            if let Some(id) = data.state.find_window_by_proxy(window) {
                set_pointer_window(&mut data.state, proxy, Some(id));
                if data.config.focus_follows_mouse {
                    pick_window(&mut data.state, id);
                }
            }
            false
        },
        SeatEvent::PointerLeave => {
            set_pointer_window(&mut data.state, proxy, None);
            false
        },
        SeatEvent::WindowInteraction { window } => {
            if let Some(id) = data.state.find_window_by_proxy(window) {
                pick_window(&mut data.state, id);
            }
            false
        },
        SeatEvent::PointerPosition { x, y } => {
            move_pointer(&mut data.state, data.config.focus_follows_mouse, proxy, x, y);
            false
        },
        SeatEvent::OpDelta { dx, dy } => {
            pointer::apply_pointer_delta(data, dx, dy);
            false
        },
        SeatEvent::OpRelease => pointer::end_pointer_op(data),
        SeatEvent::Removed => {
            remove_seats(&mut data.state, proxy);
            false
        },
    }
}

} // verus!
