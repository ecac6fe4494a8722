//! Snapshots of the state, as the clients of the status socket see it.
use vstd::prelude::*;
use vstd::string::*;

use crate::state::{State, StateModel, Window, NUM_TAGS};
use crate::text;
use crate::wm::layout;

verus! {

/// A status snapshot, as it is sent to clients.
pub struct StatusSnapshot {
    /// Name of the focused output (e.g. `"eDP-1"`).
    pub focused_output: Option<String>,
    /// The outputs.
    pub outputs: Vec<OutputSnap>,
}

/// The part of a snapshot for one output.
pub struct OutputSnap {
    /// Connector name (e.g. `"eDP-1"`).
    pub name: String,
    /// Whether this output has the focus.
    pub focused: bool,
    /// Mask of the tag shown on this output.
    pub active_mask: u32,
    /// Mask of the tags owned by this output.
    pub owned_mask: u32,
    /// Mask of the tags owned by this output that windows are on.
    pub occupied_mask: u32,
    /// Mask of the tags with urgent windows.
    pub urgent_mask: u32,
    /// The tags.
    pub tags: Vec<TagSnap>,
    /// The windows on tags owned by this output.
    pub windows: Vec<WindowSnap>,
    /// The window focused on this output, if any.
    pub focused_window: Option<u32>,
}

/// The part of a snapshot for one tag.
pub struct TagSnap {
    /// Tag index (`0..=8`).
    pub id: u32,
    /// Optional display label.
    pub label: Option<String>,
}

/// The part of a snapshot for one window.
pub struct WindowSnap {
    /// Window identifier.
    pub id: u32,
    /// Application id (e.g. `"alacritty"`).
    pub app_id: Option<String>,
    /// Title text.
    pub title: Option<String>,
    /// The tag that the window is on (`0..=8`).
    pub tag: u32,
}

/// Whether bit `k` of a mask is set.
pub open spec fn bit(mask: u32, k: u32) -> bool {
    (mask >> k) & 1 == 1
}

/// Whether a mask has exactly the bits with a property.
pub open spec fn is_mask(mask: u32, holds: spec_fn(int) -> bool) -> bool {
    forall|k: u32| k < 32 ==> (#[trigger] bit(mask, k) <==> holds(k as int))
}

/// No bit of zero is set.
proof fn lemma_no_bits(k: u32)
    by (bit_vector)
    requires
        k < 32,
    ensures
        (0u32 >> k) & 1 != 1,
{
}

/// Setting a bit sets that bit and no other.
proof fn lemma_set_bit(mask: u32, t: u32, k: u32)
    by (bit_vector)
    requires
        t < 32,
        k < 32,
    ensures
        ((mask | (1u32 << t)) >> k) & 1 == 1 <==> (mask >> k) & 1 == 1 || k == t,
{
}

/// Set bit `t` of a mask.
fn set_bit(mask: u32, t: usize) -> (r: u32)
    requires
        t < 32,
    ensures
        forall|k: u32| k < 32 ==> (#[trigger] bit(r, k) <==> bit(mask, k) || k == t),
{
    let shift: u32 = t as u32;
    let r: u32 = mask | (1u32 << shift);
    assert forall|k: u32| k < 32 implies (#[trigger] bit(r, k) <==> bit(mask, k) || k == t) by {
        lemma_set_bit(mask, shift, k);
    }
    r
}

/// A mask without bits.
fn no_bits() -> (r: u32)
    ensures
        r == 0,
        forall|k: u32| k < 32 ==> !(#[trigger] bit(r, k)),
{
    assert forall|k: u32| k < 32 implies !(#[trigger] bit(0, k)) by {
        lemma_no_bits(k);
    }
    0
}

/// Whether a tag is owned by output `o`.
pub open spec fn owned_by(s: StateModel, o: int) -> spec_fn(int) -> bool {
    |t: int| 0 <= t < s.tags.len() && s.tags[t].output == Some(o as usize)
}

/// Whether a tag is owned by output `o` and windows are on it.
pub open spec fn occupied_on(s: StateModel, o: int) -> spec_fn(int) -> bool {
    |t: int| owned_by(s, o)(t) && (s.occupied())(t)
}

/// Whether every tag that is shown by or owned by an output has a bit in a mask.
pub open spec fn masks_fit(s: StateModel) -> bool {
    &&& forall|o: int| 0 <= o < s.outputs.len() ==> (#[trigger] s.outputs[o]).active_tag < 32
    &&& forall|t: int|
        0 <= t < s.tags.len() ==> match (#[trigger] s.tags[t]).output {
            Some(o) => o < s.outputs.len() ==> t < 32,
            None => true,
        }
}

/// The name of output `o`; made up from its index where it is not known.
pub open spec fn output_title(s: StateModel, o: int) -> Seq<char> {
    match s.outputs[o].name {
        Some(name) => name@,
        None => "output-"@ + text::decimal(o as nat),
    }
}

/// The snapshot of the tags.
pub open spec fn tag_snaps(s: StateModel) -> Seq<TagSnap> {
    Seq::new(
        NUM_TAGS as nat,
        |t: int|
            TagSnap {
                id: t as u32,
                label: if t < s.tags.len() {
                    s.tags[t].label
                } else {
                    None
                },
            },
    )
}

/// The snapshot of a window.
pub open spec fn window_snap(w: Window) -> WindowSnap {
    WindowSnap { id: w.id, app_id: w.app_id, title: w.title, tag: w.tag as u32 }
}

/// The snapshots of those windows that are on tags owned by output `o`.
pub open spec fn window_snaps(s: StateModel, o: int, windows: Seq<Window>) -> Seq<WindowSnap>
    decreases windows.len(),
{
    if windows.len() == 0 {
        Seq::empty()
    } else {
        let before = window_snaps(s, o, windows.drop_last());
        if s.owner(windows.last().tag) == Some(o as usize) {
            before.push(window_snap(windows.last()))
        } else {
            before
        }
    }
}

/// Whether `snap` is the snapshot of output `o`.
pub open spec fn shows_output(s: StateModel, o: int, snap: OutputSnap) -> bool {
    &&& snap.name@ == output_title(s, o)
    &&& snap.focused == (s.active_output() == Some(o as usize))
    &&& is_mask(snap.active_mask, |t: int| t == s.outputs[o].active_tag)
    &&& is_mask(snap.owned_mask, owned_by(s, o))
    &&& is_mask(snap.occupied_mask, occupied_on(s, o))
    &&& snap.urgent_mask == 0
    &&& snap.tags@ == tag_snaps(s)
    &&& snap.windows@ == window_snaps(s, o, s.windows)
    &&& snap.focused_window == s.outputs[o].focused_window
}

/// The name of the focused output, if there is one.
pub open spec fn focused_title(s: StateModel) -> Option<Seq<char>> {
    match s.active_output() {
        Some(o) => if o < s.outputs.len() {
            Some(output_title(s, o as int))
        } else {
            None
        },
        None => None,
    }
}

/// The name of an output.
fn title_output(state: &State, o: usize) -> (r: String)
    requires
        o < state.outputs@.len(),
    ensures
        r@ == output_title(state@, o as int),
{
    match &state.outputs[o].name {
        Some(name) => name.clone(),
        None => {
            let number = text::decimal_text(o);
            let mut r = String::from_str("output-");
            r.append(number.as_str());
            r
        },
    }
}

/// The snapshot of the tags.
fn snap_tags(state: &State) -> (r: Vec<TagSnap>)
    ensures
        r@ == tag_snaps(state@),
{
    let mut out: Vec<TagSnap> = Vec::new();
    let mut t: usize = 0;
    while t < NUM_TAGS
        invariant
            t <= NUM_TAGS,
            out@ =~= tag_snaps(state@).take(t as int),
        decreases NUM_TAGS - t,
    {
        let label: Option<String> = if t < state.tags.len() {
            text::copy_opt(&state.tags[t].label)
        } else {
            None
        };
        out.push(TagSnap { id: t as u32, label });
        t += 1;
    }
    out
}

/// The mask of the tags owned by an output.
fn mask_owned(state: &State, o: usize) -> (r: u32)
    requires
        o < state.outputs@.len(),
        masks_fit(state@),
    ensures
        is_mask(r, owned_by(state@, o as int)),
{
    let mut mask: u32 = no_bits();
    let mut t: usize = 0;
    while t < state.tags.len()
        invariant
            o < state.outputs@.len(),
            masks_fit(state@),
            t <= state.tags@.len(),
            forall|k: u32|
                k < 32 ==> (#[trigger] bit(mask, k) <==> k < t && owned_by(state@, o as int)(
                    k as int,
                )),
        decreases state.tags@.len() - t,
    {
        if state.tags[t].output == Some(o) {
            assert(state@.tags[t as int].output == Some(o));
            mask = set_bit(mask, t);
        }
        t += 1;
    }
    mask
}

/// The windows on tags owned by an output, and the mask of those tags.
fn snap_windows(state: &State, o: usize) -> (r: (u32, Vec<WindowSnap>))
    requires
        o < state.outputs@.len(),
        masks_fit(state@),
    ensures
        is_mask(r.0, occupied_on(state@, o as int)),
        r.1@ == window_snaps(state@, o as int, state.windows@),
{
    let ghost windows = state.windows@;
    let mut mask: u32 = no_bits();
    let mut out: Vec<WindowSnap> = Vec::new();
    let mut i: usize = 0;
    assert(windows.take(0) =~= Seq::empty());
    while i < state.windows.len()
        invariant
            o < state.outputs@.len(),
            masks_fit(state@),
            windows == state.windows@,
            i <= windows.len(),
            forall|k: u32|
                k < 32 ==> (#[trigger] bit(mask, k) <==> owned_by(state@, o as int)(k as int)
                    && exists|j: int| 0 <= j < i && (#[trigger] windows[j]).tag == k),
            out@ == window_snaps(state@, o as int, windows.take(i as int)),
        decreases windows.len() - i,
    {
        assert(windows.take(i + 1).drop_last() =~= windows.take(i as int));
        assert(windows.take(i + 1).last() == windows[i as int]);
        let w = &state.windows[i];
        let ghost before = mask;
        if state.tag_owner(w.tag) == Some(o) {
            assert(state@.tags[w.tag as int].output == Some(o));
            mask = set_bit(mask, w.tag);
            out.push(
                WindowSnap {
                    id: w.id,
                    app_id: text::copy_opt(&w.app_id),
                    title: text::copy_opt(&w.title),
                    tag: w.tag as u32,
                },
            );
        }
        proof {
            assert forall|k: u32| k < 32 implies (#[trigger] bit(mask, k) <==> owned_by(
                state@,
                o as int,
            )(k as int) && exists|j: int| 0 <= j < i + 1 && (#[trigger] windows[j]).tag == k) by {
                let had = exists|j: int| 0 <= j < i && (#[trigger] windows[j]).tag == k;
                let has = exists|j: int| 0 <= j < i + 1 && (#[trigger] windows[j]).tag == k;
                assert(bit(before, k) <==> owned_by(state@, o as int)(k as int) && had);
                if had {
                    let j = choose|j: int| 0 <= j < i && (#[trigger] windows[j]).tag == k;
                    assert(windows[j].tag == k);
                    assert(has);
                }
                if has && !had {
                    let j = choose|j: int| 0 <= j < i + 1 && (#[trigger] windows[j]).tag == k;
                    assert(j == i);
                }
                if windows[i as int].tag == k {
                    assert(has);
                }
            }
        }
        i += 1;
    }
    assert(windows.take(i as int) =~= windows);
    assert forall|k: u32| k < 32 implies (#[trigger] bit(mask, k) <==> occupied_on(
        state@,
        o as int,
    )(k as int)) by {
        let has = exists|j: int| 0 <= j < i && (#[trigger] windows[j]).tag == k;
        assert(has == (state@.occupied())(k as int)) by {
            if has {
                let j = choose|j: int| 0 <= j < i && (#[trigger] windows[j]).tag == k;
                assert(state@.windows[j].tag == k);
            }
            if (state@.occupied())(k as int) {
                let j = choose|j: int|
                    0 <= j < state@.windows.len() && (#[trigger] state@.windows[j]).tag == k as int;
                assert(windows[j].tag == k);
            }
        }
    }
    (mask, out)
}

/// The snapshot of an output.
fn snap_output(state: &State, o: usize) -> (r: OutputSnap)
    requires
        o < state.outputs@.len(),
        masks_fit(state@),
    ensures
        shows_output(state@, o as int, r),
{
    let active: usize = state.outputs[o].active_tag;
    assert(state@.outputs[o as int].active_tag < 32);
    let zero: u32 = no_bits();
    let (occupied_mask, windows) = snap_windows(state, o);
    OutputSnap {
        name: title_output(state, o),
        focused: state.active_output() == Some(o),
        active_mask: set_bit(zero, active),
        owned_mask: mask_owned(state, o),
        occupied_mask,
        urgent_mask: 0,
        tags: snap_tags(state),
        windows,
        focused_window: state.outputs[o].focused_window,
    }
}

/// Build a status snapshot of the current state. Whether clients may spawn
/// commands does not show in it.
pub fn build_snapshot(state: &State, allow_spawn: bool) -> (r: StatusSnapshot)
    requires
        masks_fit(state@),
    ensures
        text::opt_view(r.focused_output) == focused_title(state@),
        r.outputs@.len() == state.outputs@.len(),
        forall|o: int| 0 <= o < r.outputs@.len() ==> shows_output(state@, o, #[trigger] r.outputs@[o]),
{
    let focused_output: Option<String> = match state.active_output() {
        Some(o) => if o < state.outputs.len() {
            Some(title_output(state, o))
        } else {
            None
        },
        None => None,
    };
    let mut outputs: Vec<OutputSnap> = Vec::new();
    let mut o: usize = 0;
    while o < state.outputs.len()
        invariant
            masks_fit(state@),
            o <= state.outputs@.len(),
            outputs@.len() == o,
            forall|k: int|
                0 <= k < o ==> shows_output(state@, k, #[trigger] outputs@[k]),
        decreases state.outputs@.len() - o,
    {
        outputs.push(snap_output(state, o));
        o += 1;
    }
    StatusSnapshot { focused_output, outputs }
}

/// In the snapshots of two outputs no tag is owned by both, and every occupied
/// tag of an output is one that it owns.
pub proof fn owned_tags_are_disjoint(
    s: StateModel,
    a: int,
    b: int,
    one: OutputSnap,
    other: OutputSnap,
    k: u32,
)
    requires
        s.outputs.len() <= usize::MAX,
        0 <= a < s.outputs.len(),
        0 <= b < s.outputs.len(),
        a != b,
        shows_output(s, a, one),
        shows_output(s, b, other),
        k < 32,
    ensures
        !(bit(one.owned_mask, k) && bit(other.owned_mask, k)),
        bit(one.occupied_mask, k) ==> bit(one.owned_mask, k),
{
    assert(bit(one.occupied_mask, k) <==> occupied_on(s, a)(k as int));
    assert(bit(one.owned_mask, k) <==> owned_by(s, a)(k as int));
    assert(bit(other.owned_mask, k) <==> owned_by(s, b)(k as int));
}

/// A snapshot of a well-formed state can be taken, and a window that is visible
/// is listed under the output that shows it, on the tag in its active mask.
pub proof fn visible_windows_are_listed(s: StateModel, i: int, snap: OutputSnap)
    requires
        s.wf(),
        0 <= i < s.windows.len(),
        s.visible(s.windows[i]),
        shows_output(s, s.owner(s.windows[i].tag)->0 as int, snap),
    ensures
        masks_fit(s),
        snap.windows@.contains(window_snap(s.windows[i])),
        bit(snap.active_mask, s.windows[i].tag as u32),
        bit(snap.occupied_mask, s.windows[i].tag as u32),
{
    let o = s.owner(s.windows[i].tag)->0 as int;
    let tag = s.windows[i].tag as u32;
    lemma_listed(s, o, s.windows, i);
    assert(bit(snap.active_mask, tag) <==> tag == s.outputs[o].active_tag);
    assert(bit(snap.occupied_mask, tag) <==> occupied_on(s, o)(tag as int));
    assert((s.occupied())(tag as int)) by {
        assert(s.windows[i].tag == tag);
    }
}

/// A window on a tag of an output is listed for it.
proof fn lemma_listed(s: StateModel, o: int, windows: Seq<Window>, i: int)
    requires
        0 <= i < windows.len(),
        s.owner(windows[i].tag) == Some(o as usize),
    ensures
        window_snaps(s, o, windows).contains(window_snap(windows[i])),
    decreases windows.len(),
{
    let list = window_snaps(s, o, windows);
    if i == windows.len() - 1 {
        assert(list[list.len() - 1] == window_snap(windows[i]));
    } else {
        let before = window_snaps(s, o, windows.drop_last());
        lemma_listed(s, o, windows.drop_last(), i);
        let k = choose|k: int| 0 <= k < before.len() && before[k] == window_snap(windows[i]);
        assert(list[k] == window_snap(windows[i]));
    }
}

/// The windows that are listed for an output are those on the tags that it owns,
/// in order.
proof fn lemma_listed_ids(s: StateModel, o: int, windows: Seq<Window>)
    ensures
        window_snaps(s, o, windows).len() == layout::ids_where(
            windows,
            |w: Window| s.owner(w.tag) == Some(o as usize),
        ).len(),
        forall|k: int|
            0 <= k < window_snaps(s, o, windows).len() ==> (#[trigger] window_snaps(
                s,
                o,
                windows,
            )[k]).id == layout::ids_where(
                windows,
                |w: Window| s.owner(w.tag) == Some(o as usize),
            )[k],
    decreases windows.len(),
{
    if windows.len() > 0 {
        lemma_listed_ids(s, o, windows.drop_last());
    }
}

/// Every window that is listed for an output is one on a tag that it owns.
proof fn lemma_listed_is_owned(s: StateModel, o: int, windows: Seq<Window>, k: int)
    requires
        0 <= k < window_snaps(s, o, windows).len(),
    ensures
        exists|i: int|
            0 <= i < windows.len() && s.owner((#[trigger] windows[i]).tag) == Some(o as usize)
                && window_snaps(s, o, windows)[k] == window_snap(windows[i]),
    decreases windows.len(),
{
    let rest = windows.drop_last();
    let before = window_snaps(s, o, rest);
    if k < before.len() {
        lemma_listed_is_owned(s, o, rest, k);
        let i = choose|i: int|
            0 <= i < rest.len() && s.owner((#[trigger] rest[i]).tag) == Some(o as usize)
                && before[k] == window_snap(rest[i]);
        assert(windows[i] == rest[i]);
    } else {
        assert(windows[windows.len() - 1] == windows.last());
    }
}

/// The snapshot of an output has an entry for every window on a tag that the
/// output owns, with the identifier, application id, title and tag of that
/// window.
pub proof fn owned_windows_are_reported(s: StateModel, o: int, snap: OutputSnap, i: int)
    requires
        s.wf(),
        0 <= o < s.outputs.len(),
        shows_output(s, o, snap),
        0 <= i < s.windows.len(),
        s.tags[s.windows[i].tag as int].output == Some(o as usize),
    ensures
        exists|k: int|
            0 <= k < snap.windows@.len() && (#[trigger] snap.windows@[k]).id == s.windows[i].id
                && snap.windows@[k].app_id == s.windows[i].app_id && snap.windows@[k].title
                == s.windows[i].title && snap.windows@[k].tag == s.windows[i].tag,
{
    lemma_listed(s, o, s.windows, i);
    let k = choose|k: int|
        0 <= k < snap.windows@.len() && snap.windows@[k] == window_snap(s.windows[i]);
    assert(snap.windows@[k].id == s.windows[i].id);
}

/// Every entry in the snapshot of an output comes from a window on a tag that the
/// output owns, with its identifier, application id, title and tag; the entries
/// come in the order of the windows, each window once.
pub proof fn reported_windows_are_owned(s: StateModel, o: int, snap: OutputSnap, k: int)
    requires
        s.wf(),
        0 <= o < s.outputs.len(),
        shows_output(s, o, snap),
        0 <= k < snap.windows@.len(),
    ensures
        exists|i: int|
            0 <= i < s.windows.len() && s.tags[(#[trigger] s.windows[i]).tag as int].output == Some(
                o as usize,
            ) && snap.windows@[k].id == s.windows[i].id && snap.windows@[k].app_id
                == s.windows[i].app_id && snap.windows@[k].title == s.windows[i].title
                && snap.windows@[k].tag == s.windows[i].tag,
        snap.windows@.len() == layout::ids_where(
            s.windows,
            |w: Window| s.owner(w.tag) == Some(o as usize),
        ).len(),
        snap.windows@[k].id == layout::ids_where(
            s.windows,
            |w: Window| s.owner(w.tag) == Some(o as usize),
        )[k],
{
    lemma_listed_ids(s, o, s.windows);
    lemma_listed_is_owned(s, o, s.windows, k);
    let i = choose|i: int|
        0 <= i < s.windows.len() && s.owner((#[trigger] s.windows[i]).tag) == Some(o as usize)
            && snap.windows@[k] == window_snap(s.windows[i]);
    assert(s.tags[s.windows[i].tag as int].output == Some(o as usize));
}

/// The masks in the snapshot of an output have the bit of the tag that it shows,
/// of the tags that it owns, and of those among them that windows are on; no tag
/// is urgent.
pub proof fn masks_say_what_tags_are(s: StateModel, o: int, snap: OutputSnap, t: u32)
    requires
        s.wf(),
        0 <= o < s.outputs.len(),
        shows_output(s, o, snap),
        t < 32,
    ensures
        bit(snap.active_mask, t) <==> s.outputs[o].active_tag == t,
        bit(snap.owned_mask, t) <==> t < 9 && s.tags[t as int].output == Some(o as usize),
        bit(snap.occupied_mask, t) <==> t < 9 && s.tags[t as int].output == Some(o as usize)
            && exists|i: int| 0 <= i < s.windows.len() && (#[trigger] s.windows[i]).tag == t,
        !bit(snap.urgent_mask, t),
{
    lemma_no_bits(t);
    assert(bit(snap.active_mask, t) <==> t == s.outputs[o].active_tag);
    assert(bit(snap.owned_mask, t) <==> owned_by(s, o)(t as int));
    assert(bit(snap.occupied_mask, t) <==> occupied_on(s, o)(t as int));
}

/// The snapshot of an output names it as it is named, or by its number where it
/// has no name; says whether it has the focus, and which window it focuses; and
/// lists all nine tags by number, with their labels.
pub proof fn outputs_say_who_they_are(s: StateModel, o: int, snap: OutputSnap, t: int)
    requires
        s.wf(),
        0 <= o < s.outputs.len(),
        shows_output(s, o, snap),
        0 <= t < 9,
    ensures
        s.outputs[o].name matches Some(name) ==> snap.name@ == name@,
        s.outputs[o].name is None ==> snap.name@ == "output-"@ + text::decimal(o as nat),
        snap.focused <==> s.focused_output == Some(o as usize) || (s.focused_output is None && o
            == 0),
        snap.focused ==> focused_title(s) == Some(snap.name@),
        snap.focused_window == s.outputs[o].focused_window,
        snap.tags@.len() == 9,
        snap.tags@[t].id == t,
        snap.tags@[t].label == s.tags[t].label,
{
}

/// Without outputs a snapshot names none that has the focus.
pub proof fn no_output_no_focus(s: StateModel)
    requires
        s.wf(),
    ensures
        focused_title(s) is None <==> s.outputs.len() == 0,
{
}

} // verus!
