//! The tiling layout.
use vstd::prelude::*;
use vstd::string::*;

use crate::config::{Config, FRACTION_ONE};
use crate::search;
use crate::state;
use crate::state::{State, StateModel, Window};

verus! {

/// A window geometry in logical pixels (global coordinates).
#[derive(Debug, Clone, Copy, PartialEq, Eq, Structural)]
pub struct Geometry {
    pub x: i32,
    pub y: i32,
    pub width: u32,
    pub height: u32,
}

/// Fraction of the width given to the master window unless a tag has its own,
/// in billionths.
pub const MASTER_FRACTION: i64 = 550_000_000;

/// Whether `v` is a number of 32 bits.
pub open spec fn fits(v: int) -> bool {
    i32::MIN <= v <= i32::MAX
}

/// The larger of `v` and zero.
pub open spec fn at_least_zero(v: int) -> int {
    if v < 0 {
        0
    } else {
        v
    }
}

/// The width of the master window: the given fraction of the area's width,
/// rounded down.
pub open spec fn master_width(width: u32, fraction: i64) -> int {
    let v = width * fraction / (FRACTION_ONE as int);
    if fraction < 0 {
        0
    } else if v > i32::MAX {
        i32::MAX as int
    } else {
        v
    }
}

/// A master and stack arrangement of `n` windows in `area`, `gap` pixels apart,
/// on an output that ends at `bottom`.
pub struct Tiling {
    pub n: int,
    pub area: Geometry,
    pub bottom: i32,
    pub gap: i32,
    pub fraction: i64,
}

impl Tiling {
    /// The width of the master window.
    pub open spec fn master_w(self) -> int {
        master_width(self.area.width, self.fraction)
    }

    /// Where the stack starts.
    pub open spec fn stack_x(self) -> int {
        self.area.x + self.master_w() + self.gap
    }

    /// The width of the stack: what the master window and the gap leave.
    pub open spec fn stack_w(self) -> int {
        at_least_zero((self.area.width as i32) - self.master_w() - self.gap)
    }

    /// The height of a stack window: an even share of what the gaps leave.
    pub open spec fn stack_h(self) -> int {
        at_least_zero(self.area.height - (self.n - 2) * (self.gap as u32)) / (self.n - 1)
    }

    /// The distance from one stack window to the next.
    pub open spec fn step(self) -> int {
        (self.stack_h() as u32 as i32) + self.gap
    }

    /// Where window `i` of the stack starts, counted from one.
    pub open spec fn stack_y(self, i: int) -> int {
        self.area.y + (i - 1) * self.step()
    }

    /// The geometry of window `i`: the whole area for a single window; for more,
    /// the master window on the left and the others stacked on the right, the
    /// last of them down to the bottom of the output, less the gap.
    pub open spec fn cell(self, i: int) -> Geometry {
        if self.n == 1 {
            self.area
        } else if i == 0 {
            Geometry {
                x: self.area.x,
                y: self.area.y,
                width: self.master_w() as u32,
                height: self.area.height,
            }
        } else {
            Geometry {
                x: self.stack_x() as i32,
                y: self.stack_y(i) as i32,
                width: self.stack_w() as u32,
                height: if i == self.n - 1 {
                    at_least_zero(self.bottom - self.gap - self.stack_y(i)) as u32
                } else {
                    self.stack_h() as u32
                },
            }
        }
    }

    /// Whether every number on the way is one of 32 bits.
    pub open spec fn fits(self) -> bool {
        self.n >= 2 ==> {
            &&& self.n <= i32::MAX
            &&& fits(self.area.x + self.master_w())
            &&& fits(self.stack_x())
            &&& fits((self.area.width as i32) - self.master_w())
            &&& fits((self.area.width as i32) - self.master_w() - self.gap)
            &&& (self.n - 2) * (self.gap as u32) <= u32::MAX
            &&& fits(self.step())
            &&& fits((self.n - 2) * self.step())
            &&& fits(self.stack_y(self.n - 1))
            &&& fits(self.bottom - self.gap)
            &&& fits(self.bottom - self.gap - self.stack_y(self.n - 1))
        }
    }
}

/// The layout of the windows `ids`, in order.
pub open spec fn tiled(ids: Seq<u32>, tiling: Tiling) -> Seq<(u32, Geometry)> {
    Seq::new(ids.len(), |i: int| (ids[i], tiling.cell(i)))
}

/// The master window's width in an area `width` wide.
fn split_width(width: u32, fraction: i64) -> (r: u32)
    ensures
        r == master_width(width, fraction),
{
    if fraction < 0 {
        return 0;
    }
    assert(0 <= width * fraction <= u32::MAX * i64::MAX) by (nonlinear_arith)
        requires
            0 <= width <= u32::MAX,
            0 <= fraction <= i64::MAX,
    ;
    let v: i128 = width as i128 * fraction as i128 / FRACTION_ONE as i128;
    if v > i32::MAX as i128 {
        i32::MAX as u32
    } else {
        v as u32
    }
}

/// A multiple of a number lies between zero and a larger multiple of it.
proof fn lemma_between(i: int, n: int, step: int)
    requires
        0 <= i <= n,
    ensures
        0 <= i * step <= n * step || n * step <= i * step <= 0,
{
    assert(0 <= i * step <= n * step || n * step <= i * step <= 0) by (nonlinear_arith)
        requires
            0 <= i <= n,
    ;
}

/// Lay out `ids` in `area`, with the given fraction of its width for the first
/// of them.
pub fn compute_split_tiling(
    ids: &[u32],
    area: Geometry,
    output_bottom: i32,
    gap: i32,
    fraction: i64,
) -> (r: Vec<(u32, Geometry)>)
    requires
        (Tiling { n: ids@.len() as int, area, bottom: output_bottom, gap, fraction }).fits(),
    ensures
        r@ == tiled(
            ids@,
            Tiling { n: ids@.len() as int, area, bottom: output_bottom, gap, fraction },
        ),
{
    let n: usize = ids.len();
    let ghost tiling = Tiling { n: n as int, area, bottom: output_bottom, gap, fraction };
    let mut result: Vec<(u32, Geometry)> = Vec::new();
    if n == 0 {
        assert(result@ =~= tiled(ids@, tiling));
        return result;
    }
    if n == 1 {
        result.push((ids[0], area));
        assert(result@ =~= tiled(ids@, tiling));
        return result;
    }
    let master_w: u32 = split_width(area.width, fraction);
    result.push(
        (ids[0], Geometry { x: area.x, y: area.y, width: master_w, height: area.height }),
    );
    let stack_x: i32 = area.x + master_w as i32 + gap;
    let rest_w: i32 = area.width as i32 - master_w as i32 - gap;
    let stack_w: u32 = if rest_w < 0 {
        0
    } else {
        rest_w as u32
    };
    let stack_n: u32 = (n - 1) as u32;
    let gaps: u32 = (stack_n - 1) * (gap as u32);
    let stack_room: u32 = if area.height < gaps {
        0
    } else {
        area.height - gaps
    };
    let stack_h: u32 = stack_room / stack_n;
    let step: i32 = stack_h as i32 + gap;
    assert(stack_h == tiling.stack_h());
    let mut i: usize = 1;
    while i < n
        invariant
            1 <= i <= n == ids@.len(),
            2 <= n <= i32::MAX,
            tiling == (Tiling { n: n as int, area, bottom: output_bottom, gap, fraction }),
            tiling.fits(),
            stack_x == tiling.stack_x(),
            stack_w == tiling.stack_w(),
            stack_h == tiling.stack_h(),
            step == tiling.step(),
            result@.len() == i,
            forall|k: int| 0 <= k < i ==> result@[k] == (ids@[k], tiling.cell(k)),
        decreases n - i,
    {
        proof {
            lemma_between(i - 1, n - 2, step as int);
        }
        let y: i32 = area.y + (i - 1) as i32 * step;
        let height: u32 = if i == n - 1 {
            let rest: i32 = output_bottom - gap - y;
            if rest < 0 {
                0
            } else {
                rest as u32
            }
        } else {
            stack_h
        };
        result.push((ids[i], Geometry { x: stack_x, y, width: stack_w, height }));
        assert(result@[i as int] == (ids@[i as int], tiling.cell(i as int)));
        i += 1;
    }
    assert(result@ =~= tiled(ids@, tiling));
    result
}

/// Lay out `ids` in `area` with the default master fraction.
pub fn compute_tiling(ids: &[u32], area: Geometry, output_bottom: i32, gap: i32) -> (r: Vec<
    (u32, Geometry),
>)
    requires
        (Tiling {
            n: ids@.len() as int,
            area,
            bottom: output_bottom,
            gap,
            fraction: MASTER_FRACTION,
        }).fits(),
    ensures
        r@ == tiled(
            ids@,
            Tiling {
                n: ids@.len() as int,
                area,
                bottom: output_bottom,
                gap,
                fraction: MASTER_FRACTION,
            },
        ),
{
    compute_split_tiling(ids, area, output_bottom, gap, MASTER_FRACTION)
}

/// The identifiers of the windows with a property, in order.
pub open spec fn ids_where(windows: Seq<Window>, keep: spec_fn(Window) -> bool) -> Seq<u32>
    decreases windows.len(),
{
    if windows.len() == 0 {
        Seq::empty()
    } else {
        let before = ids_where(windows.drop_last(), keep);
        if keep(windows.last()) {
            before.push(windows.last().id)
        } else {
            before
        }
    }
}

/// Whether a window is tiled on output `o`: shown there and not floating.
pub open spec fn tiled_on(s: StateModel, o: int) -> spec_fn(Window) -> bool {
    |w: Window| s.shows(o, w) && !w.floating
}

/// Whether an identifier stands at an index.
pub open spec fn stands_at(ids: Seq<u32>, id: u32) -> spec_fn(int) -> bool {
    |i: int| ids[i] == id
}

/// `ids` with `front` moved to the front, if it is among them.
pub open spec fn fronted(ids: Seq<u32>, front: Option<u32>) -> Seq<u32> {
    match front {
        Some(id) => match search::least(ids.len() as int, stands_at(ids, id)) {
            Some(p) => seq![id] + ids.remove(p),
            None => ids,
        },
        None => ids,
    }
}

/// The windows tiled on output `o`, the focused one first.
pub open spec fn visible_ids(s: StateModel, o: int) -> Seq<u32> {
    fronted(ids_where(s.windows, tiled_on(s, o)), s.outputs[o].focused_window)
}

/// The index of `id` in `ids`.
pub fn find_id(ids: &Vec<u32>, id: u32) -> (r: Option<usize>)
    ensures
        r is Some <==> search::least(ids@.len() as int, stands_at(ids@, id)) is Some,
        r is Some ==> r->0 == search::least(ids@.len() as int, stands_at(ids@, id))->0 && r->0
            < ids@.len() && ids@[r->0 as int] == id,
{
    let mut i: usize = 0;
    while i < ids.len()
        invariant
            i <= ids@.len(),
            forall|k: int| 0 <= k < i ==> !(#[trigger] stands_at(ids@, id)(k)),
        decreases ids@.len() - i,
    {
        if ids[i] == id {
            proof {
                assert(search::is_least(ids@.len() as int, stands_at(ids@, id), i as int));
                search::lemma_least_is(ids@.len() as int, stands_at(ids@, id), i as int);
            }
            return Some(i);
        }
        i += 1;
    }
    proof {
        search::lemma_least_none(ids@.len() as int, stands_at(ids@, id));
    }
    None
}

/// The windows tiled on an output, in the order of the window list.
pub fn tiled_windows(state: &State, output_idx: usize) -> (r: Vec<u32>)
    requires
        output_idx < state.outputs@.len(),
    ensures
        r@ == ids_where(state.windows@, tiled_on(state@, output_idx as int)),
{
    let ghost keep = tiled_on(state@, output_idx as int);
    let active: usize = state.outputs[output_idx].active_tag;
    let mut ids: Vec<u32> = Vec::new();
    let mut i: usize = 0;
    assert(state.windows@.take(0) =~= Seq::<Window>::empty());
    while i < state.windows.len()
        invariant
            output_idx < state.outputs@.len(),
            active == state.outputs@[output_idx as int].active_tag,
            i <= state.windows@.len(),
            keep == tiled_on(state@, output_idx as int),
            ids@ == ids_where(state.windows@.take(i as int), keep),
        decreases state.windows@.len() - i,
    {
        assert(state.windows@.take(i + 1).drop_last() =~= state.windows@.take(i as int));
        assert(state.windows@.take(i + 1).last() == state.windows@[i as int]);
        let w = &state.windows[i];
        if state.tag_owner(w.tag) == Some(output_idx) && w.tag == active && !w.floating {
            ids.push(w.id);
        }
        i += 1;
    }
    assert(state.windows@.take(i as int) =~= state.windows@);
    ids
}

/// The windows tiled on an output in master and stack order: the focused one
/// first.
pub fn visible_windows(state: &State, output_idx: usize) -> (r: Vec<u32>)
    requires
        output_idx < state.outputs@.len(),
    ensures
        r@ == visible_ids(state@, output_idx as int),
{
    let mut ids: Vec<u32> = tiled_windows(state, output_idx);
    if let Some(id) = state.outputs[output_idx].focused_window {
        if let Some(p) = find_id(&ids, id) {
            let ghost before = ids@;
            let front: u32 = ids.remove(p);
            ids.insert(0, front);
            assert(ids@ =~= seq![id] + before.remove(p as int));
        }
    }
    ids
}

/// The area of output `o` that is tiled: its usable area without a gap on each
/// side.
pub open spec fn tiled_area(area: (i32, i32, u32, u32), gap: i32) -> Geometry {
    Geometry {
        x: (area.0 + gap) as i32,
        y: (area.1 + gap) as i32,
        width: at_least_zero((area.2 as i32) - gap * 2) as u32,
        height: at_least_zero((area.3 as i32) - gap * 2) as u32,
    }
}

/// Whether the numbers that make up the tiled area are of 32 bits.
pub open spec fn tiled_area_fits(area: (i32, i32, u32, u32), gap: i32) -> bool {
    &&& fits(area.0 + gap)
    &&& fits(area.1 + gap)
    &&& fits(gap * 2)
    &&& fits((area.2 as i32) - gap * 2)
    &&& fits((area.3 as i32) - gap * 2)
    &&& fits(area.1 + (area.3 as i32))
}

/// The arrangement of the windows on output `o`.
pub open spec fn output_tiling(s: StateModel, o: int, gap: u32) -> Tiling {
    let area = state::usable_area(s.outputs[o]);
    Tiling {
        n: visible_ids(s, o).len() as int,
        area: tiled_area(area, gap as i32),
        bottom: (area.1 + (area.3 as i32)) as i32,
        gap: gap as i32,
        fraction: s.active_fraction(o as usize),
    }
}

/// Whether output `o` can be laid out in numbers of 32 bits.
pub open spec fn output_fits(s: StateModel, o: int, gap: u32) -> bool {
    visible_ids(s, o).len() > 0 ==> {
        &&& tiled_area_fits(state::usable_area(s.outputs[o]), gap as i32)
        &&& output_tiling(s, o, gap).fits()
    }
}

/// The layout of output `o`.
pub open spec fn output_layout(s: StateModel, o: int, gap: u32) -> Seq<(u32, Geometry)> {
    tiled(visible_ids(s, o), output_tiling(s, o, gap))
}

/// The layout of the outputs before `n`.
pub open spec fn layout_up_to(s: StateModel, n: int, gap: u32) -> Seq<(u32, Geometry)>
    decreases n,
{
    if n <= 0 {
        Seq::empty()
    } else {
        layout_up_to(s, n - 1, gap) + output_layout(s, n - 1, gap)
    }
}

/// The layout of all outputs.
pub open spec fn layout(s: StateModel, gap: u32) -> Seq<(u32, Geometry)> {
    layout_up_to(s, s.outputs.len() as int, gap)
}

/// Whether all outputs can be laid out in numbers of 32 bits.
pub open spec fn layout_fits(s: StateModel, gap: u32) -> bool {
    forall|o: int| 0 <= o < s.outputs.len() ==> #[trigger] output_fits(s, o, gap)
}

/// What stands in the layout of the outputs before `n` stands in the layout of
/// one of them.
pub proof fn lemma_layout_entry(s: StateModel, n: int, gap: u32, k: int) -> (r: (int, int))
    requires
        0 <= k < layout_up_to(s, n, gap).len(),
    ensures
        0 <= r.0 < n,
        0 <= r.1 < output_layout(s, r.0, gap).len(),
        output_layout(s, r.0, gap)[r.1] == layout_up_to(s, n, gap)[k],
    decreases n,
{
    let before = layout_up_to(s, n - 1, gap);
    if k < before.len() {
        lemma_layout_entry(s, n - 1, gap, k)
    } else {
        (n - 1, k - before.len())
    }
}

/// Compute the geometry of every window tiled on an output.
pub fn compute_output(state: &State, output_idx: usize, config: &Config) -> (r: Vec<
    (u32, Geometry),
>)
    requires
        output_idx < state.outputs@.len(),
        output_fits(state@, output_idx as int, config.gap),
    ensures
        r@ == output_layout(state@, output_idx as int, config.gap),
{
    let ids: Vec<u32> = visible_windows(state, output_idx);
    if ids.len() == 0 {
        let none: Vec<(u32, Geometry)> = Vec::new();
        assert(none@ =~= output_layout(state@, output_idx as int, config.gap));
        return none;
    }
    let gap: i32 = config.gap as i32;
    let (x, y, width, height) = state.outputs[output_idx].usable();
    let inner_w: i32 = width as i32 - gap * 2;
    let inner_h: i32 = height as i32 - gap * 2;
    let area = Geometry {
        x: x + gap,
        y: y + gap,
        width: if inner_w < 0 {
            0
        } else {
            inner_w as u32
        },
        height: if inner_h < 0 {
            0
        } else {
            inner_h as u32
        },
    };
    compute_split_tiling(
        ids.as_slice(),
        area,
        y + height as i32,
        gap,
        state.active_master_fraction(output_idx),
    )
}

/// Compute geometry for every visible window across all outputs, as pairs of
/// window identifier and geometry. Floating windows are left out.
pub fn compute_all(state: &State, config: &Config) -> (r: Vec<(u32, Geometry)>)
    requires
        layout_fits(state@, config.gap),
    ensures
        r@ == layout(state@, config.gap),
{
    let mut out: Vec<(u32, Geometry)> = Vec::new();
    let mut o: usize = 0;
    while o < state.outputs.len()
        invariant
            o <= state.outputs@.len(),
            layout_fits(state@, config.gap),
            out@ == layout_up_to(state@, o as int, config.gap),
        decreases state.outputs@.len() - o,
    {
        assert(output_fits(state@, o as int, config.gap));
        let mut part: Vec<(u32, Geometry)> = compute_output(state, o, config);
        out.append(&mut part);
        o += 1;
    }
    out
}

/// Whether `v` is a number of 32 bits.
fn is_small(v: i128) -> (r: bool)
    ensures
        r == fits(v as int),
{
    i32::MIN as i128 <= v && v <= i32::MAX as i128
}

/// Whether an arrangement stays in numbers of 32 bits.
fn tiling_fits(n: usize, area: Geometry, bottom: i32, gap: i32, fraction: i64) -> (r: bool)
    ensures
        r == (Tiling { n: n as int, area, bottom, gap, fraction }).fits(),
{
    let ghost tiling = Tiling { n: n as int, area, bottom, gap, fraction };
    if n < 2 {
        return true;
    }
    if n > i32::MAX as usize {
        return false;
    }
    let master_w: i128 = split_width(area.width, fraction) as i128;
    let inner_w: i128 = (area.width as i32) as i128;
    let wide_gap: i128 = gap as i128;
    let stacked: i128 = n as i128 - 2;
    let each_gap: i128 = (gap as u32) as i128;
    assert(0 <= stacked * each_gap <= i32::MAX * u32::MAX) by (nonlinear_arith)
        requires
            0 <= stacked <= i32::MAX,
            0 <= each_gap <= u32::MAX,
    ;
    let gaps: i128 = stacked * each_gap;
    let left: i128 = area.height as i128 - gaps;
    let room: i128 = if left < 0 {
        0
    } else {
        left
    };
    let stack_n: u64 = (n - 1) as u64;
    let stack_h: u32 = (room as u64 / stack_n) as u32;
    assert(stack_h == tiling.stack_h()) by {
        let r = room as int;
        let d = n - 1;
        assert(0 <= r / d <= r) by (nonlinear_arith)
            requires
                d >= 1,
                r >= 0,
        ;
    }
    let step: i128 = (stack_h as i32) as i128 + wide_gap;
    assert(step == tiling.step());
    assert(-0x8000_0000 * 0x1_0000_0000 <= stacked * step <= 0x8000_0000 * 0x1_0000_0000)
        by (nonlinear_arith)
        requires
            0 <= stacked <= 0x8000_0000,
            -0x1_0000_0000 <= step <= 0x1_0000_0000,
    ;
    let last_y: i128 = area.y as i128 + stacked * step;
    assert(last_y == tiling.stack_y(n - 1));
    is_small(area.x as i128 + master_w) && is_small(area.x as i128 + master_w + wide_gap)
        && is_small(inner_w - master_w) && is_small(inner_w - master_w - wide_gap) && gaps
        <= u32::MAX as i128 && is_small(step) && is_small(stacked * step) && is_small(last_y)
        && is_small(bottom as i128 - wide_gap) && is_small(bottom as i128 - wide_gap - last_y)
}

/// Whether an output can be laid out in numbers of 32 bits.
pub fn output_can_be_tiled(state: &State, output_idx: usize, config: &Config) -> (r: bool)
    requires
        output_idx < state.outputs@.len(),
    ensures
        r == output_fits(state@, output_idx as int, config.gap),
{
    let ids: Vec<u32> = visible_windows(state, output_idx);
    if ids.len() == 0 {
        return true;
    }
    let gap: i32 = config.gap as i32;
    let wide_gap: i128 = gap as i128;
    let (x, y, width, height) = state.outputs[output_idx].usable();
    let inner_w: i128 = (width as i32) as i128 - wide_gap * 2;
    let inner_h: i128 = (height as i32) as i128 - wide_gap * 2;
    let bottom: i128 = y as i128 + (height as i32) as i128;
    if !(is_small(x as i128 + wide_gap) && is_small(y as i128 + wide_gap) && is_small(wide_gap * 2)
        && is_small(inner_w) && is_small(inner_h) && is_small(bottom)) {
        return false;
    }
    let area = Geometry {
        x: x + gap,
        y: y + gap,
        width: if inner_w < 0 {
            0
        } else {
            inner_w as u32
        },
        height: if inner_h < 0 {
            0
        } else {
            inner_h as u32
        },
    };
    tiling_fits(ids.len(), area, bottom as i32, gap, state.active_master_fraction(output_idx))
}

/// Whether all outputs can be laid out in numbers of 32 bits.
pub fn all_can_be_tiled(state: &State, config: &Config) -> (r: bool)
    ensures
        r == layout_fits(state@, config.gap),
{
    let mut o: usize = 0;
    while o < state.outputs.len()
        invariant
            o <= state.outputs@.len(),
            forall|k: int| 0 <= k < o ==> #[trigger] output_fits(state@, k, config.gap),
        decreases state.outputs@.len() - o,
    {
        if !output_can_be_tiled(state, o, config) {
            return false;
        }
        o += 1;
    }
    true
}

/// Convert 8-bit color components to 32-bit RGBA: (alpha, red, green, blue).
pub fn to_32bit(r: u8, g: u8, b: u8) -> (c: (u32, u32, u32, u32))
    ensures
        c == (0xFFFF_FFFFu32, widened(r), widened(g), widened(b)),
{
    (widen(0xff), widen(r), widen(g), widen(b))
}

/// An 8-bit component, stretched to the 32-bit range.
pub open spec fn widened(v: u8) -> u32 {
    ((v * 0xFFFF_FFFF) / 255) as u32
}

/// Stretch an 8-bit component to the 32-bit range.
fn widen(v: u8) -> (r: u32)
    ensures
        r == widened(v),
{
    ((v as u64 * 0xFFFF_FFFF) / 255) as u32
}

/// Stretching keeps the order of components, and takes the ends of the one
/// range to the ends of the other.
pub proof fn widening_keeps_order(a: u8, b: u8)
    ensures
        a <= b ==> widened(a) <= widened(b),
        widened(a) == a * 0x0101_0101,
        widened(0) == 0,
        widened(255) == 0xFFFF_FFFF,
{
}

/// The layout lists the windows of an output in master and stack order: the
/// focused one is the master.
pub proof fn focused_window_is_master(s: StateModel, o: int, gap: u32, i: int)
    requires
        0 <= o < s.outputs.len(),
        0 <= i < s.windows.len(),
        tiled_on(s, o)(s.windows[i]),
        s.outputs[o].focused_window == Some(s.windows[i].id),
    ensures
        output_layout(s, o, gap).len() > 0,
        output_layout(s, o, gap)[0].0 == s.windows[i].id,
{
    let id = s.windows[i].id;
    let ids = ids_where(s.windows, tiled_on(s, o));
    lemma_ids_where(s.windows, tiled_on(s, o), id);
    assert(ids.contains(id));
    let k = choose|k: int| 0 <= k < ids.len() && ids[k] == id;
    assert(stands_at(ids, id)(k));
    search::lemma_least_some(ids.len() as int, stands_at(ids, id), k);
}

/// Which identifiers are listed for the windows with a property.
pub proof fn lemma_ids_where(windows: Seq<Window>, keep: spec_fn(Window) -> bool, id: u32)
    ensures
        ids_where(windows, keep).contains(id) <==> exists|i: int|
            0 <= i < windows.len() && keep(#[trigger] windows[i]) && windows[i].id == id,
    decreases windows.len(),
{
    let all = ids_where(windows, keep);
    if windows.len() > 0 {
        let rest = windows.drop_last();
        let before = ids_where(rest, keep);
        lemma_ids_where(rest, keep, id);
        if before.contains(id) {
            let i = choose|i: int|
                0 <= i < rest.len() && keep(#[trigger] rest[i]) && rest[i].id == id;
            assert(windows[i] == rest[i]);
            let k = choose|k: int| 0 <= k < before.len() && before[k] == id;
            assert(all[k] == id);
        }
        if keep(windows.last()) && windows.last().id == id {
            assert(windows[windows.len() - 1].id == id);
            assert(all[all.len() - 1] == id);
        }
        if exists|i: int| 0 <= i < windows.len() && keep(#[trigger] windows[i]) && windows[i].id == id {
            let i = choose|i: int|
                0 <= i < windows.len() && keep(#[trigger] windows[i]) && windows[i].id == id;
            if i < rest.len() {
                assert(rest[i] == windows[i]);
            }
        }
        if all.contains(id) {
            let k = choose|k: int| 0 <= k < all.len() && all[k] == id;
            if k < before.len() {
                assert(before[k] == id);
            }
        }
    }
}

/// Moving one identifier to the front neither adds nor loses any.
pub proof fn lemma_fronted(ids: Seq<u32>, front: Option<u32>, id: u32)
    ensures
        fronted(ids, front).contains(id) <==> ids.contains(id),
        fronted(ids, front).len() == ids.len(),
{
    if let Some(f) = front {
        search::lemma_least(ids.len() as int, stands_at(ids, f));
        if let Some(p) = search::least(ids.len() as int, stands_at(ids, f)) {
            assert(stands_at(ids, f)(p));
            let r = fronted(ids, front);
            assert(ids[p] == f);
            if ids.contains(id) {
                let k = choose|k: int| 0 <= k < ids.len() && ids[k] == id;
                if k == p {
                    assert(r[0] == id);
                } else if k < p {
                    assert(r[k + 1] == id);
                } else {
                    assert(r[k] == id);
                }
            }
            if r.contains(id) {
                let k = choose|k: int| 0 <= k < r.len() && r[k] == id;
                if k == 0 {
                    assert(ids[p] == id);
                } else if k - 1 < p {
                    assert(ids[k - 1] == id);
                } else {
                    assert(ids[k] == id);
                }
            }
        }
    }
}

/// Whether the layout of output `o` lists a window with identifier `id`.
pub open spec fn laid_out_on(s: StateModel, o: int, gap: u32, id: u32) -> bool {
    exists|k: int|
        0 <= k < output_layout(s, o, gap).len() && (#[trigger] output_layout(s, o, gap)[k]).0 == id
}

/// An output lays out exactly the windows that it shows and that do not float.
pub proof fn shown_tiled_windows_are_laid_out(s: StateModel, o: int, gap: u32, i: int)
    requires
        s.wf(),
        0 <= o < s.outputs.len(),
        0 <= i < s.windows.len(),
    ensures
        laid_out_on(s, o, gap, s.windows[i].id) <==> s.shows(o, s.windows[i])
            && !s.windows[i].floating,
{
    let id = s.windows[i].id;
    let keep = tiled_on(s, o);
    let ids = ids_where(s.windows, keep);
    let list = output_layout(s, o, gap);
    lemma_ids_where(s.windows, keep, id);
    lemma_fronted(ids, s.outputs[o].focused_window, id);
    if keep(s.windows[i]) {
        assert(ids.contains(id));
        let k = choose|k: int| 0 <= k < visible_ids(s, o).len() && visible_ids(s, o)[k] == id;
        assert(list[k].0 == id);
    }
    if laid_out_on(s, o, gap, id) {
        let k = choose|k: int| 0 <= k < list.len() && (#[trigger] list[k]).0 == id;
        assert(visible_ids(s, o)[k] == id);
        let j = choose|j: int|
            0 <= j < s.windows.len() && keep(#[trigger] s.windows[j]) && s.windows[j].id == id;
        assert(s.windows[j].id == s.windows[i].id);
    }
}

/// In a layout with room for its gaps, the stack is flush with the right edge
/// of the area, its windows lie one gap apart, all but the last are equally
/// high, and the last takes up what is left over by the division, down to the
/// bottom of the area.
pub proof fn stack_fills_the_area(t: Tiling, i: int)
    requires
        t.fits(),
        t.n >= 2,
        1 <= i < t.n,
        t.gap >= 0,
        t.area.width <= i32::MAX,
        t.area.height <= i32::MAX,
        t.master_w() + t.gap <= t.area.width,
        (t.n - 2) * t.gap <= t.area.height,
        t.bottom == t.area.y + t.area.height + t.gap,
    ensures
        t.cell(i).x == t.cell(0).x + t.cell(0).width + t.gap,
        t.cell(i).x + t.cell(i).width == t.area.x + t.area.width,
        t.cell(1).y == t.area.y,
        i < t.n - 1 ==> t.cell(i + 1).y == t.cell(i).y + t.cell(i).height + t.gap,
        i < t.n - 1 ==> t.cell(i).height == t.stack_h(),
        i == t.n - 1 ==> t.cell(i).y + t.cell(i).height == t.area.y + t.area.height,
        i == t.n - 1 ==> t.cell(i).height == t.stack_h() + (t.area.height - (t.n - 2) * t.gap) % (
        t.n - 1),
{
    let room = t.area.height - (t.n - 2) * t.gap;
    let parts = t.n - 1;
    let h = t.stack_h();
    assert((t.gap as u32) as int == t.gap);
    assert((t.n - 2) * t.gap >= 0) by (nonlinear_arith)
        requires
            t.n >= 2,
            t.gap >= 0,
    ;
    assert(h == room / parts);
    assert(0 <= h <= room && room == parts * h + room % parts && 0 <= room % parts < parts)
        by (nonlinear_arith)
        requires
            room >= 0,
            parts >= 1,
            h == room / parts,
    ;
    assert(t.step() == h + t.gap);
    lemma_between(i - 1, t.n - 2, t.step());
    if i < t.n - 1 {
        lemma_between(i, t.n - 2, t.step());
        assert(i * t.step() == (i - 1) * t.step() + t.step()) by (nonlinear_arith);
    } else {
        assert((i - 1) * t.step() == (t.n - 2) * h + (t.n - 2) * t.gap) by (nonlinear_arith)
            requires
                i == t.n - 1,
                t.step() == h + t.gap,
        ;
        assert(parts * h == (t.n - 2) * h + h) by (nonlinear_arith)
            requires
                parts == t.n - 1,
        ;
    }
    assert(0 * t.step() == 0) by (nonlinear_arith);
}

/// The layout of an output lies inside its usable area: the arrangement of an
/// output with room for its gaps is one that fills its area.
pub proof fn output_tiling_ends_at_the_bottom(s: StateModel, o: int, gap: u32)
    requires
        0 <= o < s.outputs.len(),
        visible_ids(s, o).len() > 0,
        output_fits(s, o, gap),
        gap <= i32::MAX,
        state::usable_area(s.outputs[o]).3 <= i32::MAX,
        2 * gap <= state::usable_area(s.outputs[o]).3,
    ensures
        ({
            let t = output_tiling(s, o, gap);
            t.bottom == t.area.y + t.area.height + t.gap
        }),
{
}

/// The windows with a property that depends on tag and floating state alone are
/// the same in two lists that agree on those and on identifiers.
proof fn lemma_same_ids(a: Seq<Window>, b: Seq<Window>, keep: spec_fn(Window) -> bool)
    requires
        a.len() == b.len(),
        forall|i: int|
            0 <= i < a.len() ==> (#[trigger] b[i]).id == a[i].id && keep(b[i]) == keep(a[i]),
    ensures
        ids_where(b, keep) == ids_where(a, keep),
    decreases a.len(),
{
    if a.len() > 0 {
        assert forall|i: int| 0 <= i < a.drop_last().len() implies (#[trigger] b.drop_last()[i]).id
            == a.drop_last()[i].id && keep(b.drop_last()[i]) == keep(a.drop_last()[i]) by {
            assert(b.drop_last()[i] == b[i]);
        }
        lemma_same_ids(a.drop_last(), b.drop_last(), keep);
        assert(b[b.len() - 1].id == a[a.len() - 1].id);
    }
}

/// The layout depends on the windows only through their identifiers, tags and
/// floating states.
pub proof fn lemma_same_layout(s: StateModel, t: StateModel, gap: u32)
    requires
        t == (StateModel { windows: t.windows, ..s }),
        t.windows.len() == s.windows.len(),
        forall|i: int|
            0 <= i < s.windows.len() ==> (#[trigger] t.windows[i]).id == s.windows[i].id
                && t.windows[i].tag == s.windows[i].tag && t.windows[i].floating
                == s.windows[i].floating,
    ensures
        layout_fits(t, gap) == layout_fits(s, gap),
        layout(t, gap) == layout(s, gap),
{
    assert forall|o: int| 0 <= o < s.outputs.len() implies #[trigger] visible_ids(t, o)
        == visible_ids(s, o) by {
        assert(tiled_on(t, o) =~= tiled_on(s, o));
        lemma_same_ids(s.windows, t.windows, tiled_on(s, o));
    }
    assert forall|o: int| 0 <= o < s.outputs.len() implies #[trigger] output_fits(t, o, gap)
        == output_fits(s, o, gap) by {
        assert(visible_ids(t, o) == visible_ids(s, o));
    }
    lemma_same_layout_up_to(s, t, s.outputs.len() as int, gap);
    if layout_fits(t, gap) {
        assert forall|o: int| 0 <= o < s.outputs.len() implies #[trigger] output_fits(s, o, gap) by {
            assert(output_fits(t, o, gap));
        }
    }
}

/// Outputs that lay out the same windows lay them out alike.
proof fn lemma_same_layout_up_to(s: StateModel, t: StateModel, n: int, gap: u32)
    requires
        t == (StateModel { windows: t.windows, ..s }),
        n <= s.outputs.len(),
        forall|o: int| 0 <= o < s.outputs.len() ==> #[trigger] visible_ids(t, o) == visible_ids(s, o),
    ensures
        layout_up_to(t, n, gap) == layout_up_to(s, n, gap),
    decreases n,
{
    if n > 0 {
        lemma_same_layout_up_to(s, t, n - 1, gap);
        assert(visible_ids(t, n - 1) == visible_ids(s, n - 1));
    }
}

/// Windows with distinct identifiers are listed once each.
pub proof fn lemma_ids_distinct(windows: Seq<Window>, keep: spec_fn(Window) -> bool)
    requires
        forall|i: int, j: int|
            0 <= i < j < windows.len() ==> (#[trigger] windows[i]).id != (
            #[trigger] windows[j]).id,
    ensures
        forall|i: int, j: int|
            0 <= i < j < ids_where(windows, keep).len() ==> #[trigger] ids_where(windows, keep)[i]
                != #[trigger] ids_where(windows, keep)[j],
    decreases windows.len(),
{
    if windows.len() > 0 {
        let rest = windows.drop_last();
        let before = ids_where(rest, keep);
        let all = ids_where(windows, keep);
        lemma_ids_distinct(rest, keep);
        assert forall|i: int, j: int| 0 <= i < j < all.len() implies #[trigger] all[i]
            != #[trigger] all[j] by {
            if j == before.len() {
                lemma_ids_where(rest, keep, before[i]);
                assert(before.contains(before[i]));
                let k = choose|k: int|
                    0 <= k < rest.len() && keep(#[trigger] rest[k]) && rest[k].id == before[i];
                assert(windows[k].id != windows[windows.len() - 1].id);
            } else {
                assert(before[i] != before[j]);
            }
        }
    }
}

/// Moving one identifier to the front keeps identifiers distinct.
pub proof fn lemma_fronted_distinct(ids: Seq<u32>, front: Option<u32>)
    requires
        forall|i: int, j: int|
            0 <= i < j < ids.len() ==> #[trigger] ids[i] != #[trigger] ids[j],
    ensures
        forall|i: int, j: int|
            0 <= i < j < fronted(ids, front).len() ==> #[trigger] fronted(ids, front)[i]
                != #[trigger] fronted(ids, front)[j],
{
    if let Some(f) = front {
        search::lemma_least(ids.len() as int, stands_at(ids, f));
        if let Some(p) = search::least(ids.len() as int, stands_at(ids, f)) {
            assert(stands_at(ids, f)(p));
            let r = fronted(ids, front);
            assert forall|i: int, j: int| 0 <= i < j < r.len() implies #[trigger] r[i]
                != #[trigger] r[j] by {
                let b = if j - 1 < p {
                    j - 1
                } else {
                    j
                };
                assert(r[j] == ids[b]);
                if i == 0 {
                    assert(r[i] == ids[p]);
                } else {
                    let a = if i - 1 < p {
                        i - 1
                    } else {
                        i
                    };
                    assert(r[i] == ids[a]);
                }
            }
        }
    }
}

/// In a layout with room for its gaps, the cells lie inside the area and do not
/// overlap.
pub proof fn cells_lie_apart(t: Tiling, i: int, j: int)
    requires
        t.fits(),
        t.n >= 2,
        0 <= i < j < t.n,
        t.gap >= 0,
        t.area.width <= i32::MAX,
        t.area.height <= i32::MAX,
        t.master_w() + t.gap <= t.area.width,
        (t.n - 2) * t.gap <= t.area.height,
        t.bottom == t.area.y + t.area.height + t.gap,
    ensures
        t.area.x <= t.cell(i).x,
        t.cell(i).x + t.cell(i).width <= t.area.x + t.area.width,
        t.area.y <= t.cell(i).y,
        t.cell(i).y + t.cell(i).height <= t.area.y + t.area.height,
        t.area.x <= t.cell(j).x,
        t.cell(j).x + t.cell(j).width <= t.area.x + t.area.width,
        t.area.y <= t.cell(j).y,
        t.cell(j).y + t.cell(j).height <= t.area.y + t.area.height,
        t.cell(i).x + t.cell(i).width + t.gap <= t.cell(j).x || t.cell(i).y + t.cell(i).height
            + t.gap <= t.cell(j).y,
{
    lemma_cell_inside(t, j);
    stack_fills_the_area(t, j);
    if i > 0 {
        lemma_cell_inside(t, i);
        stack_fills_the_area(t, i);
        let step = t.step();
        assert(t.cell(i).height == t.stack_h());
        lemma_stack_y(t, i);
        lemma_stack_y(t, j);
        assert((j - 1) * step >= i * step) by (nonlinear_arith)
            requires
                j - 1 >= i,
                step >= 0,
        ;
        assert(i * step == (i - 1) * step + step) by (nonlinear_arith);
    }
}

/// Where a stack window starts, in a layout with room for its gaps.
proof fn lemma_stack_y(t: Tiling, i: int)
    requires
        t.fits(),
        t.n >= 2,
        1 <= i < t.n,
        t.gap >= 0,
        t.area.height <= i32::MAX,
        (t.n - 2) * t.gap <= t.area.height,
    ensures
        t.cell(i).y == t.stack_y(i),
        t.step() == t.stack_h() + t.gap,
        t.step() >= 0,
{
    let room = t.area.height - (t.n - 2) * t.gap;
    let parts = t.n - 1;
    assert((t.gap as u32) as int == t.gap);
    assert((t.n - 2) * t.gap >= 0) by (nonlinear_arith)
        requires
            t.n >= 2,
            t.gap >= 0,
    ;
    assert(0 <= room / parts <= room) by (nonlinear_arith)
        requires
            room >= 0,
            parts >= 1,
    ;
    lemma_between(i - 1, t.n - 2, t.step());
}

/// A stack window lies inside the area.
proof fn lemma_cell_inside(t: Tiling, i: int)
    requires
        t.fits(),
        t.n >= 2,
        1 <= i < t.n,
        t.gap >= 0,
        t.area.width <= i32::MAX,
        t.area.height <= i32::MAX,
        t.master_w() + t.gap <= t.area.width,
        (t.n - 2) * t.gap <= t.area.height,
        t.bottom == t.area.y + t.area.height + t.gap,
    ensures
        t.area.x <= t.cell(i).x,
        t.cell(i).x + t.cell(i).width <= t.area.x + t.area.width,
        t.area.y <= t.cell(i).y,
        t.cell(i).y + t.cell(i).height <= t.area.y + t.area.height,
        t.cell(0).x == t.area.x,
        t.cell(0).x + t.cell(0).width <= t.area.x + t.area.width,
{
    let last = t.n - 1;
    let step = t.step();
    stack_fills_the_area(t, i);
    stack_fills_the_area(t, last);
    lemma_stack_y(t, i);
    lemma_stack_y(t, last);
    assert((i - 1) * step >= 0) by (nonlinear_arith)
        requires
            i >= 1,
            step >= 0,
    ;
    if i < last {
        assert((last - 1) * step >= i * step) by (nonlinear_arith)
            requires
                last - 1 >= i,
                step >= 0,
        ;
        assert(i * step == (i - 1) * step + step) by (nonlinear_arith);
    }
}

} // verus!
