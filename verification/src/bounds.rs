//! What happens at the bounds: rectangles outside their area, windows too large
//! for it, drags below the least size, crowded tilings, tags that are not owned,
//! and outputs that go while they are focused.
use vstd::prelude::*;

use crate::connection::PointerOp;
use crate::events;
use crate::invariants;
use crate::pointer;
use crate::search;
use crate::state;
use crate::state::{StateModel, Window};
use crate::wm::layout::Tiling;

verus! {

/// A rectangle that sticks out of its area on one side ends up at that side,
/// whatever its place on the other axis.
pub proof fn outside_rects_land_at_the_nearest_edge(
    x: i32,
    y: i32,
    width: u32,
    height: u32,
    area: (i32, i32, u32, u32),
)
    requires
        0 < width <= area.2,
        0 < height <= area.3,
    ensures
        ({
            let at = state::clamped_rect(x, y, width, height, area);
            &&& x < area.0 ==> at.0 == area.0
            &&& y < area.1 ==> at.1 == area.1
            &&& x + width > area.0 + area.2 ==> at.0 + width == area.0 + area.2
            &&& y + height > area.1 + area.3 ==> at.1 + height == area.1 + area.3
            &&& area.0 <= x && x + width <= area.0 + area.2 ==> at.0 == x
            &&& area.1 <= y && y + height <= area.1 + area.3 ==> at.1 == y
        }),
{
}

/// A rectangle in an area without width or height is put at its origin.
pub proof fn rects_go_to_the_origin_of_an_empty_area(
    x: i32,
    y: i32,
    width: u32,
    height: u32,
    area: (i32, i32, u32, u32),
)
    requires
        area.2 == 0 || area.3 == 0,
    ensures
        state::clamped_rect(x, y, width, height, area) == (area.0 as int, area.1 as int),
{
}

/// A window that is never tiled and too large for its area starts at the origin
/// of the area; one whose area is not known, or that floats already, stays where
/// it is. Nothing but the place of the window changes, and that it floats.
pub proof fn large_windows_start_at_the_origin(s: StateModel, w: Window)
    ensures
        ({
            let r = events::auto_floated(s, w);
            &&& r == (Window { floating: true, float_x: r.float_x, float_y: r.float_y, ..w })
            &&& w.floating ==> r == w
            &&& s.float_area(w) is None ==> (r.float_x, r.float_y) == (w.float_x, w.float_y)
            &&& !w.floating ==> (s.float_area(w) matches Some(area) ==> w.float_w >= area.2
                ==> r.float_x == area.0)
            &&& !w.floating ==> (s.float_area(w) matches Some(area) ==> w.float_h >= area.3
                ==> r.float_y == area.1)
        }),
{
}

/// A resize below fifty pixels stops there, on each axis by itself.
pub proof fn resizes_stop_at_fifty(w: Window, op: PointerOp, dx: i32, dy: i32)
    requires
        op.kind is Resize,
        op.start_w <= i32::MAX,
        op.start_h <= i32::MAX,
        pointer::drag_fits(op, dx, dy),
    ensures
        ({
            let v = pointer::dragged(w, op, dx, dy);
            &&& op.start_w + dx < 50 ==> v.float_w == 50
            &&& op.start_h + dy < 50 ==> v.float_h == 50
            &&& op.start_w + dx >= 50 ==> v.float_w == op.start_w + dx
            &&& op.start_h + dy >= 50 ==> v.float_h == op.start_h + dy
            &&& v == (Window { float_w: v.float_w, float_h: v.float_h, ..w })
        }),
{
}

/// A move changes nothing of a window but its place.
pub proof fn moves_change_the_place_alone(w: Window, op: PointerOp, dx: i32, dy: i32)
    requires
        op.kind is Move,
    ensures
        ({
            let v = pointer::dragged(w, op, dx, dy);
            v == (Window { float_x: v.float_x, float_y: v.float_y, ..w })
        }),
{
}

/// Where the master window and the gap leave no width, the stack has none; and
/// where the gaps leave no height, the windows of the stack have none, but for
/// the last.
pub proof fn crowded_cells_have_no_size(t: Tiling, i: int)
    requires
        t.fits(),
        1 <= i < t.n,
        t.gap >= 0,
        t.area.width <= i32::MAX,
    ensures
        t.master_w() + t.gap >= t.area.width ==> t.cell(i).width == 0,
        t.area.height <= (t.n - 2) * t.gap && i < t.n - 1 ==> t.cell(i).height == 0,
{
    if t.area.height <= (t.n - 2) * t.gap {
        let n = t.n - 1;
        assert(0int / n == 0) by (nonlinear_arith)
            requires
                n > 0,
        ;
        assert((t.gap as u32) == t.gap);
    }
}

/// The tag that an output should show is its current one where it owns that;
/// otherwise the first tag that it owns and that is occupied, and the first that
/// it owns where none of them is.
pub proof fn best_tag_is_chosen(
    owners: Seq<Option<usize>>,
    current: usize,
    output: usize,
    occupied: spec_fn(int) -> bool,
    t: int,
)
    requires
        0 <= t < owners.len(),
        owners[t] == Some(output),
    ensures
        t == current ==> state::chosen_tag(owners, current, output, occupied) == Some(t),
        (current >= owners.len() || owners[current as int] != Some(output)) && occupied(t) && (
        forall|k: int| 0 <= k < t ==> !(#[trigger] owners[k] == Some(output) && occupied(k)))
            ==> state::chosen_tag(owners, current, output, occupied) == Some(t),
        (current >= owners.len() || owners[current as int] != Some(output)) && (forall|k: int|
            0 <= k < owners.len() ==> !(#[trigger] owners[k] == Some(output) && occupied(k))) && (
        forall|k: int| 0 <= k < t ==> #[trigger] owners[k] != Some(output)) ==> state::chosen_tag(
            owners,
            current,
            output,
            occupied,
        ) == Some(t),
{
    let n = owners.len() as int;
    let both = state::owned_and(owners, output, occupied);
    let owned = state::owned(owners, output);
    if occupied(t) && (forall|k: int|
        0 <= k < t ==> !(#[trigger] owners[k] == Some(output) && occupied(k))) {
        assert forall|k: int| 0 <= k < t implies !(#[trigger] both(k)) by {
            assert(!(owners[k] == Some(output) && occupied(k)));
        }
        assert(search::is_least(n, both, t));
        search::lemma_least_is(n, both, t);
    }
    if (forall|k: int| 0 <= k < n ==> !(#[trigger] owners[k] == Some(output) && occupied(k))) && (
    forall|k: int| 0 <= k < t ==> #[trigger] owners[k] != Some(output)) {
        assert forall|k: int| 0 <= k < n implies !(#[trigger] both(k)) by {
            assert(!(owners[k] == Some(output) && occupied(k)));
        }
        search::lemma_least_none(n, both);
        assert forall|k: int| 0 <= k < t implies !(#[trigger] owned(k)) by {
            assert(owners[k] != Some(output));
        }
        assert(search::is_least(n, owned, t));
        search::lemma_least_is(n, owned, t);
    }
}

/// After its focused window was sent to a tag, an output focuses a window on the
/// tag that it shows, if it owns that tag and any window is left there.
pub proof fn focus_stays_behind(s: StateModel, o: usize, tag: usize)
    requires
        s.wf(),
        o < s.outputs.len(),
        tag < 9,
    ensures
        ({
            let r = s.focused_sent(o, tag);
            let shown = s.outputs[o as int].active_tag;
            match r.outputs[o as int].focused_window {
                Some(id) => exists|i: int|
                    0 <= i < r.windows.len() && (#[trigger] r.windows[i]).id == id
                        && r.windows[i].tag == shown,
                None => r.tags[shown as int].output == Some(o) ==> forall|i: int|
                    0 <= i < r.windows.len() ==> (#[trigger] r.windows[i]).tag != shown,
            }
        }),
{
    let held = if s.owner(tag) is None {
        s.with_owner(tag as int, Some(o))
    } else {
        s
    };
    assert(held.wf());
    let moved = match s.outputs[o as int].focused_window {
        Some(id) => match held.window_index(id) {
            Some(i) => held.with_window(i, Window { tag, ..held.windows[i] }),
            None => held,
        },
        None => held,
    };
    if let Some(id) = s.outputs[o as int].focused_window {
        search::lemma_least(held.windows.len() as int, held.has_id(id));
    }
    assert(moved.wf());
    let r = s.focused_sent(o, tag);
    assert(r == moved.refocused(o as int));
    invariants::refocus_focuses_a_shown_window(moved, o as int);
    let shown = s.outputs[o as int].active_tag;
    if r.outputs[o as int].focused_window is None && r.tags[shown as int].output == Some(o) {
        assert forall|i: int| 0 <= i < r.windows.len() implies (#[trigger] r.windows[i]).tag
            != shown by {
            assert(!moved.shows(o as int, moved.windows[i]));
        }
    }
}

/// Repairing outputs does not move the focus from one output to another.
proof fn lemma_repairs_keep_the_focus(s: StateModel, n: int)
    ensures
        s.repaired_up_to(n).focused_output == s.focused_output,
        s.repaired_up_to(n).seats == s.seats,
        s.repaired_up_to(n).resize_mode == s.resize_mode,
        s.repaired_up_to(n).next_window_id == s.next_window_id,
        s.repaired_up_to(n).default_master_fraction == s.default_master_fraction,
    decreases n,
{
    if n > 0 {
        lemma_repairs_keep_the_focus(s, n - 1);
    }
}

/// When an output goes, the focus stays on the output that has it, whose place
/// moves down past the gap. If that is the output that goes, or there is no
/// focus, the first output gets it, if there is one. Seats, the resize mode and
/// the numbering of windows stay.
pub proof fn focus_survives_a_removed_output(s: StateModel, o: usize)
    requires
        s.wf(),
        o < s.outputs.len(),
    ensures
        ({
            let t = s.output_removed(o);
            &&& s.outputs.len() == 1 ==> t.focused_output is None
            &&& s.outputs.len() > 1 ==> t.focused_output == (match s.focused_output {
                Some(f) => if f < o {
                    Some(f)
                } else if f == o {
                    Some(0usize)
                } else {
                    Some((f - 1) as usize)
                },
                None => Some(0usize),
            })
            &&& t.seats == s.seats
            &&& t.resize_mode == s.resize_mode
            &&& t.next_window_id == s.next_window_id
            &&& t.default_master_fraction == s.default_master_fraction
        }),
{
    let dropped = s.output_dropped(o as int);
    lemma_repairs_keep_the_focus(dropped.focus_checked(), dropped.outputs.len() as int);
}

/// A tag beyond the ninth, or an output that is not there, changes nothing; nor
/// does the master fraction of such a tag, which is read as that of new tags.
pub proof fn out_of_range_changes_nothing(s: StateModel, o: usize, tag: usize, fraction: int)
    requires
        s.wf(),
    ensures
        tag >= 9 || o >= s.outputs.len() ==> s.tag_focused(o, tag) == s,
        tag >= 9 || o >= s.outputs.len() ==> s.focused_sent(o, tag) == s,
        o >= s.outputs.len() ==> s.tag_switched(o, tag) == s,
        o >= s.outputs.len() ==> s.output_removed(o) == s,
        o >= s.outputs.len() ==> s.best_tag(o) is None,
        tag >= 9 ==> s.fraction_set(tag, fraction) == s,
        tag >= 9 ==> s.fraction(tag) == s.default_master_fraction,
        tag < 9 ==> s.fraction(tag) == s.tags[tag as int].master_fraction,
        o < s.outputs.len() ==> s.active_fraction(o)
            == s.tags[s.outputs[o as int].active_tag as int].master_fraction,
        o >= s.outputs.len() ==> s.active_fraction(o) == s.default_master_fraction,
{
}

} // verus!
