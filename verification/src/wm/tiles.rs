//! Where the windows of an output are tiled, in terms of its area, its gap and
//! the master fraction of the tag that it shows.
use vstd::prelude::*;

use crate::search;
use crate::state::{StateModel, Window};
use crate::wm::layout;
use crate::wm::layout::Geometry;

verus! {

/// The windows with a property are listed in the order in which they come.
pub proof fn listed_windows_keep_their_order(
    windows: Seq<Window>,
    keep: spec_fn(Window) -> bool,
    a: int,
    b: int,
)
    requires
        0 <= a < b < windows.len(),
        keep(windows[a]),
        keep(windows[b]),
    ensures
        exists|p: int, q: int|
            0 <= p < q < layout::ids_where(windows, keep).len() && #[trigger] layout::ids_where(
                windows,
                keep,
            )[p] == windows[a].id && #[trigger] layout::ids_where(windows, keep)[q]
                == windows[b].id,
    decreases windows.len(),
{
    let all = layout::ids_where(windows, keep);
    let rest = windows.drop_last();
    let before = layout::ids_where(rest, keep);
    if b < rest.len() {
        listed_windows_keep_their_order(rest, keep, a, b);
        let (p, q) = choose|p: int, q: int|
            0 <= p < q < before.len() && #[trigger] before[p] == rest[a].id && #[trigger] before[q]
                == rest[b].id;
        assert(all[p] == windows[a].id && all[q] == windows[b].id);
    } else {
        layout::lemma_ids_where(rest, keep, windows[a].id);
        assert(rest[a] == windows[a]);
        let p = choose|p: int| 0 <= p < before.len() && before[p] == windows[a].id;
        assert(all[p] == windows[a].id && all[all.len() - 1] == windows[b].id);
    }
}

/// The identifiers are listed without the focused one in their order, behind it
/// where it is among them.
pub proof fn others_keep_their_order(ids: Seq<u32>, front: Option<u32>, a: int, b: int)
    requires
        0 <= a < b < ids.len(),
        front != Some(ids[a]),
        front != Some(ids[b]),
    ensures
        exists|p: int, q: int|
            0 <= p < q < layout::fronted(ids, front).len() && #[trigger] layout::fronted(
                ids,
                front,
            )[p] == ids[a] && #[trigger] layout::fronted(ids, front)[q] == ids[b],
        layout::fronted(ids, front).len() == ids.len(),
        front is Some && ids.contains(front->0) ==> layout::fronted(ids, front)[0] == front->0,
        front is None ==> layout::fronted(ids, front) == ids,
{
    let list = layout::fronted(ids, front);
    if let Some(id) = front {
        let n = ids.len() as int;
        search::lemma_least(n, layout::stands_at(ids, id));
        if ids.contains(id) {
            let k = choose|k: int| 0 <= k < n && ids[k] == id;
            assert(layout::stands_at(ids, id)(k));
        }
        match search::least(n, layout::stands_at(ids, id)) {
            Some(m) => {
                assert(layout::stands_at(ids, id)(m));
                let p = if a < m {
                    a + 1
                } else {
                    a
                };
                let q = if b < m {
                    b + 1
                } else {
                    b
                };
                assert(list[p] == ids[a] && list[q] == ids[b]);
            },
            None => {
                assert(list[a] == ids[a] && list[b] == ids[b]);
            },
        }
    } else {
        assert(list[a] == ids[a] && list[b] == ids[b]);
    }
}

/// The area that windows may use on an output: what panels leave free where that
/// is known, else all of it.
pub open spec fn area(s: StateModel, o: int) -> Geometry {
    let output = s.outputs[o];
    if output.usable_width == 0 && output.usable_height == 0 {
        Geometry { x: output.x, y: output.y, width: output.width, height: output.height }
    } else {
        Geometry {
            x: output.usable_x,
            y: output.usable_y,
            width: output.usable_width,
            height: output.usable_height,
        }
    }
}

/// A single window takes all of the usable area but a gap on each side. Of
/// several, the first takes the left side, as wide as the master fraction of the
/// tag that is shown says, and as high; the others take the rest of the width,
/// one gap apart, one below the other, equally high but for the last, which ends
/// one gap above the bottom.
pub proof fn windows_are_tiled_in_the_usable_area(s: StateModel, o: int, gap: u32, i: int)
    requires
        s.wf(),
        0 <= o < s.outputs.len(),
        layout::output_fits(s, o, gap),
        0 <= i < layout::output_layout(s, o, gap).len(),
        area(s, o).width <= i32::MAX,
        area(s, o).height <= i32::MAX,
        2 * gap <= area(s, o).height,
        2 * gap <= area(s, o).width,
    ensures
        ({
            let list = layout::output_layout(s, o, gap);
            let n = list.len() as int;
            let u = area(s, o);
            let inner = u.width - 2 * gap;
            let fraction = s.tags[s.outputs[o].active_tag as int].master_fraction;
            let w = inner * fraction / 1_000_000_000;
            let first = list[0].1;
            let g = list[i].1;
            let room = u.height - 2 * gap - (n - 2) * gap;
            &&& first.x == u.x + gap
            &&& first.y == u.y + gap
            &&& first.height == u.height - 2 * gap
            &&& n == 1 ==> first.width == inner
            &&& n > 1 ==> first.width == w
            &&& n > 1 && w + gap <= inner && room >= 0 && i > 0 ==> {
                &&& g.x == first.x + first.width + gap
                &&& g.x + g.width == u.x + u.width - gap
                &&& list[1].1.y == u.y + gap
                &&& i < n - 1 ==> g.height == room / (n - 1)
                &&& i < n - 1 ==> list[i + 1].1.y == g.y + g.height + gap
                &&& i == n - 1 ==> g.y + g.height == u.y + u.height - gap
            }
        }),
{
    let t = layout::output_tiling(s, o, gap);
    let list = layout::output_layout(s, o, gap);
    let n = list.len() as int;
    let u = area(s, o);
    let fraction = s.tags[s.outputs[o].active_tag as int].master_fraction;
    let inner = u.width - 2 * gap;
    assert(layout::visible_ids(s, o).len() > 0);
    layout::output_tiling_ends_at_the_bottom(s, o, gap);
    assert(t.fraction == fraction);
    assert(t.area.width == inner);
    assert(0 <= inner * fraction / 1_000_000_000 <= inner) by (nonlinear_arith)
        requires
            0 <= inner,
            100_000_000 <= fraction <= 900_000_000,
    ;
    assert(t.master_w() == inner * fraction / 1_000_000_000);
    let w = t.master_w();
    let room = u.height - 2 * gap - (n - 2) * gap;
    if n > 1 && w + gap <= inner && room >= 0 && i > 0 {
        layout::stack_fills_the_area(t, i);
        assert(t.stack_h() == room / (n - 1));
    }
}

} // verus!
