//! What choosing the focus of an output and repairing the outputs achieve, on
//! any state whose windows can be told apart.
use vstd::prelude::*;

use crate::invariants;
use crate::search;
use crate::state;
use crate::state::{StateModel, Window, NUM_TAGS};
use crate::wm::layout;

verus! {

/// Whether no two windows share an identifier.
pub open spec fn ids_unique(s: StateModel) -> bool {
    forall|i: int, j: int|
        0 <= i < j < s.windows.len() ==> (#[trigger] s.windows[i]).id != (
        #[trigger] s.windows[j]).id
}

/// The identifiers of the windows that output `o` shows, in order.
pub open spec fn shown_ids(s: StateModel, o: int) -> Seq<u32> {
    layout::ids_where(s.windows, |w: Window| s.shows(o, w))
}

/// An identifier that no other window has leads back to its window.
proof fn lemma_found(s: StateModel, i: int)
    requires
        ids_unique(s),
        0 <= i < s.windows.len(),
    ensures
        s.window_index(s.windows[i].id) == Some(i),
{
    let id = s.windows[i].id;
    assert(s.has_id(id)(i));
    search::lemma_least_some(s.windows.len() as int, s.has_id(id), i);
    let k = s.window_index(id)->0;
    assert(s.has_id(id)(k));
    assert(s.windows[k].id == s.windows[i].id);
}

/// Where no window has a property, none is listed.
proof fn lemma_none_listed(windows: Seq<Window>, keep: spec_fn(Window) -> bool)
    requires
        forall|j: int| 0 <= j < windows.len() ==> !keep(#[trigger] windows[j]),
    ensures
        layout::ids_where(windows, keep).len() == 0,
    decreases windows.len(),
{
    if windows.len() > 0 {
        let rest = windows.drop_last();
        assert forall|j: int| 0 <= j < rest.len() implies !keep(#[trigger] rest[j]) by {
            assert(rest[j] == windows[j]);
        }
        lemma_none_listed(rest, keep);
        assert(!keep(windows[windows.len() - 1]));
    }
}

/// The first window with a property is listed first.
proof fn lemma_first_listed(windows: Seq<Window>, keep: spec_fn(Window) -> bool, i: int)
    requires
        0 <= i < windows.len(),
        keep(windows[i]),
        forall|j: int| 0 <= j < i ==> !keep(#[trigger] windows[j]),
    ensures
        layout::ids_where(windows, keep).len() > 0,
        layout::ids_where(windows, keep)[0] == windows[i].id,
    decreases windows.len(),
{
    let rest = windows.drop_last();
    assert forall|j: int| 0 <= j < i implies !keep(#[trigger] rest[j]) by {
        assert(rest[j] == windows[j]);
    }
    if i == windows.len() - 1 {
        lemma_none_listed(rest, keep);
    } else {
        assert(rest[i] == windows[i]);
        lemma_first_listed(rest, keep, i);
    }
}

/// Choosing the focus of an output anew keeps the focused window where the
/// output shows it, else takes the first window that it shows, and none only
/// where it shows none. Nothing else changes, and a second time changes nothing.
pub proof fn refocus_keeps_or_takes_the_first(s: StateModel, o: int)
    requires
        0 <= o < s.outputs.len(),
        ids_unique(s),
    ensures
        ({
            let r = s.refocused(o);
            let shown = shown_ids(s, o);
            let before = s.outputs[o].focused_window;
            let focused = r.outputs[o].focused_window;
            &&& r == s.with_focus(o, focused)
            &&& focused == (if before is Some && shown.contains(before->0) {
                before
            } else if shown.len() > 0 {
                Some(shown[0])
            } else {
                None
            })
            &&& focused is None <==> shown.len() == 0
            &&& focused matches Some(id) ==> shown.contains(id)
            &&& r.refocused(o) == r
        }),
{
    let n = s.windows.len() as int;
    let keep = |w: Window| s.shows(o, w);
    let shown = shown_ids(s, o);
    let before = s.outputs[o].focused_window;
    let r = s.refocused(o);
    if before is Some {
        let id = before->0;
        layout::lemma_ids_where(s.windows, keep, id);
        search::lemma_least(n, s.has_id(id));
        if shown.contains(id) {
            let i = choose|i: int|
                0 <= i < s.windows.len() && keep(#[trigger] s.windows[i]) && s.windows[i].id == id;
            lemma_found(s, i);
        } else if let Some(i) = s.window_index(id) {
            assert(s.has_id(id)(i));
            assert(!keep(s.windows[i]));
        }
    }
    search::lemma_least(n, s.shown_on(o));
    match search::least(n, s.shown_on(o)) {
        Some(i) => {
            assert(s.shown_on(o)(i));
            assert forall|j: int| 0 <= j < i implies !keep(#[trigger] s.windows[j]) by {
                assert(!s.shown_on(o)(j));
            }
            lemma_first_listed(s.windows, keep, i);
            assert(shown.contains(shown[0]));
        },
        None => {
            assert forall|j: int| 0 <= j < n implies !keep(#[trigger] s.windows[j]) by {
                assert(!s.shown_on(o)(j));
            }
            lemma_none_listed(s.windows, keep);
        },
    }
    lemma_choice_stays(s, o);
}

/// The focus that was chosen for an output is chosen again.
proof fn lemma_choice_stays(s: StateModel, o: int)
    requires
        0 <= o < s.outputs.len(),
        ids_unique(s),
    ensures
        s.refocused(o).focus_choice(o) == s.focus_choice(o),
        s.refocused(o).refocused(o) == s.refocused(o),
{
    let n = s.windows.len() as int;
    let r = s.refocused(o);
    search::lemma_least(n, s.shown_on(o));
    match s.focus_choice(o) {
        Some(id) => {
            if let Some(before) = s.outputs[o].focused_window {
                search::lemma_least(n, s.has_id(before));
                if let Some(i) = s.window_index(before) {
                    assert(s.has_id(before)(i));
                    lemma_found(r, i);
                }
            }
            if let Some(i) = search::least(n, s.shown_on(o)) {
                assert(s.shown_on(o)(i));
                lemma_found(r, i);
            }
        },
        None => {
            assert forall|j: int| 0 <= j < n implies !(#[trigger] r.shown_on(o)(j)) by {
                assert(!s.shown_on(o)(j));
            }
            search::lemma_least_none(n, r.shown_on(o));
        },
    }
    assert(r.refocused(o).outputs =~= r.outputs);
}

/// What an output should focus depends on which windows it shows alone.
proof fn lemma_same_choice(s: StateModel, t: StateModel, o: int)
    requires
        t.windows.len() == s.windows.len(),
        forall|i: int| 0 <= i < s.windows.len() ==> (#[trigger] t.windows[i]).id == s.windows[i].id,
        forall|i: int|
            0 <= i < s.windows.len() ==> t.shows(o, #[trigger] t.windows[i]) == s.shows(
                o,
                s.windows[i],
            ),
        t.outputs[o].focused_window == s.outputs[o].focused_window,
    ensures
        t.focus_choice(o) == s.focus_choice(o),
{
    let n = s.windows.len() as int;
    assert forall|j: int| 0 <= j < n implies #[trigger] s.shown_on(o)(j) == t.shown_on(o)(j) by {
        assert(t.windows[j].id == s.windows[j].id);
    }
    search::lemma_least_same(n, s.shown_on(o), t.shown_on(o));
    search::lemma_least(n, s.shown_on(o));
    if let Some(i) = search::least(n, s.shown_on(o)) {
        assert(t.windows[i].id == s.windows[i].id);
    }
    if let Some(id) = s.outputs[o].focused_window {
        assert forall|j: int| 0 <= j < n implies #[trigger] s.has_id(id)(j) == t.has_id(id)(j) by {
            assert(t.windows[j].id == s.windows[j].id);
        }
        search::lemma_least_same(n, s.has_id(id), t.has_id(id));
        search::lemma_least(n, s.has_id(id));
        if let Some(i) = s.window_index(id) {
            assert(t.windows[i].id == s.windows[i].id);
        }
    }
}

/// Whether output `o` shows a tag that it owns, or there is none for it: it
/// owns none, and none is unassigned.
pub open spec fn settled(s: StateModel, o: int) -> bool {
    ||| s.owner(s.outputs[o].active_tag) == Some(o as usize)
    ||| forall|t: int|
        0 <= t < s.tags.len() ==> (#[trigger] s.tags[t]).output is Some && s.tags[t].output != Some(
            o as usize,
        )
}

/// Whether there is nothing to repair on output `o`: it shows a tag that it
/// owns, or there is none for it, and it focuses what it should.
pub open spec fn sound(s: StateModel, o: int) -> bool {
    &&& settled(s, o)
    &&& s.focus_choice(o) == s.outputs[o].focused_window
}

/// Whether tags, outputs and windows can be told apart.
pub open spec fn orderly(s: StateModel) -> bool {
    &&& s.tags.len() == NUM_TAGS
    &&& s.outputs.len() <= usize::MAX
    &&& ids_unique(s)
}

/// In a well-formed state tags, outputs and windows can be told apart.
pub proof fn wf_is_orderly(s: StateModel)
    requires
        s.wf(),
    ensures
        orderly(s),
{
}

/// Where there is nothing to repair, repairing changes nothing.
proof fn lemma_sound_stays(s: StateModel, o: int)
    requires
        orderly(s),
        0 <= o < s.outputs.len(),
        sound(s, o),
    ensures
        s.output_repaired(o) == s,
{
    let active = s.outputs[o].active_tag;
    if s.owner(active) != Some(o as usize) {
        invariants::chosen_tag_is_owned(s.owners(), active, o as usize, s.occupied());
        if let Some(t) = s.best_tag(o as usize) {
            assert(s.owners()[t] == s.tags[t].output);
        }
        search::lemma_least(s.tags.len() as int, s.unassigned());
        if let Some(t) = s.free_tag() {
            assert((s.unassigned())(t));
            assert(s.tags[t].output is Some);
        }
    }
    assert(s.refocused(o).outputs =~= s.outputs);
}

/// Whether `t` has the tags of `s`, but for unassigned ones that output `o` got.
spec fn tags_given(s: StateModel, t: StateModel, o: int) -> bool {
    &&& t.tags.len() == s.tags.len()
    &&& forall|k: int|
        0 <= k < s.tags.len() ==> (#[trigger] t.tags[k]) == s.tags[k] || (s.tags[k].output is None
            && t.tags[k].output == Some(o as usize))
}

/// Output `o` with a tag to show, before its focus is chosen.
proof fn lemma_tagged(s: StateModel, o: int) -> (g: StateModel)
    requires
        orderly(s),
        0 <= o < s.outputs.len(),
    ensures
        s.output_repaired(o) == g.refocused(o),
        orderly(g),
        g.windows == s.windows,
        g.outputs.len() == s.outputs.len(),
        g.focused_output == s.focused_output,
        forall|p: int| 0 <= p < s.outputs.len() && p != o ==> g.outputs[p] == s.outputs[p],
        tags_given(s, g, o),
        settled(g, o),
{
    let active = s.outputs[o].active_tag;
    if s.owner(active) == Some(o as usize) {
        s
    } else {
        invariants::chosen_tag_is_owned(s.owners(), active, o as usize, s.occupied());
        match s.best_tag(o as usize) {
            Some(t) => {
                assert(s.owners()[t] == s.tags[t].output);
                s.with_active(o, t as usize)
            },
            None => {
                search::lemma_least(s.tags.len() as int, s.unassigned());
                match s.free_tag() {
                    Some(t) => {
                        assert((s.unassigned())(t));
                        assert(s.tags[t].output is None);
                        s.with_owner(t, Some(o as usize)).with_active(o, t as usize)
                    },
                    None => {
                        assert forall|t: int| 0 <= t < s.tags.len() implies (
                        #[trigger] s.tags[t]).output is Some && s.tags[t].output != Some(
                            o as usize,
                        ) by {
                            assert(!(s.unassigned())(t));
                            assert(s.owners()[t] == s.tags[t].output);
                        }
                        s
                    },
                }
            },
        }
    }
}

/// Repairing an output leaves nothing to repair on it, and nothing on another
/// output where there was nothing.
proof fn lemma_repair_is_sound(s: StateModel, o: int)
    requires
        orderly(s),
        0 <= o < s.outputs.len(),
    ensures
        ({
            let r = s.output_repaired(o);
            &&& orderly(r)
            &&& r.windows == s.windows
            &&& r.outputs.len() == s.outputs.len()
            &&& r.focused_output == s.focused_output
            &&& tags_given(s, r, o)
            &&& sound(r, o)
            &&& forall|p: int|
                0 <= p < s.outputs.len() && p != o && sound(s, p) ==> #[trigger] sound(r, p)
        }),
{
    let r = s.output_repaired(o);
    let g = lemma_tagged(s, o);
    lemma_choice_stays(g, o);
    assert(sound(r, o)) by {
        if g.owner(g.outputs[o].active_tag) != Some(o as usize) {
            assert forall|t: int| 0 <= t < r.tags.len() implies (
            #[trigger] r.tags[t]).output is Some && r.tags[t].output != Some(o as usize) by {
                assert(g.tags[t].output is Some);
            }
        }
    }
    assert forall|p: int|
        0 <= p < s.outputs.len() && p != o && sound(s, p) implies #[trigger] sound(r, p) by {
        assert(r.outputs[p] == s.outputs[p]);
        assert forall|i: int| 0 <= i < s.windows.len() implies r.shows(p, #[trigger] r.windows[i])
            == s.shows(p, s.windows[i]) by {
            let tag = s.windows[i].tag;
            if tag < s.tags.len() {
                let t = tag as int;
                assert(r.tags[t] == s.tags[t] || r.tags[t].output == Some(o as usize));
            }
        }
        lemma_same_choice(s, r, p);
        let active = s.outputs[p].active_tag;
        if s.owner(active) == Some(p as usize) {
            assert(r.tags[active as int] == s.tags[active as int]);
        } else {
            assert forall|t: int| 0 <= t < r.tags.len() implies (
            #[trigger] r.tags[t]).output is Some && r.tags[t].output != Some(p as usize) by {
                assert(s.tags[t].output is Some);
            }
        }
    }
}

/// Whether every tag that had an owner in `s` still has it in `t`.
pub open spec fn owners_kept(s: StateModel, t: StateModel) -> bool {
    &&& t.tags.len() == s.tags.len()
    &&& forall|k: int|
        0 <= k < s.tags.len() && (#[trigger] s.tags[k]).output is Some ==> t.tags[k] == s.tags[k]
}

/// Repairing the outputs before `n` leaves nothing to repair on them.
proof fn lemma_repairs_are_sound(s: StateModel, n: int)
    requires
        orderly(s),
        0 <= n <= s.outputs.len(),
    ensures
        ({
            let r = s.repaired_up_to(n);
            &&& orderly(r)
            &&& r.windows == s.windows
            &&& r.outputs.len() == s.outputs.len()
            &&& r.focused_output == s.focused_output
            &&& owners_kept(s, r)
            &&& forall|p: int| 0 <= p < n ==> #[trigger] sound(r, p)
        }),
    decreases n,
{
    if n > 0 {
        lemma_repairs_are_sound(s, n - 1);
        let q = s.repaired_up_to(n - 1);
        let r = s.repaired_up_to(n);
        lemma_repair_is_sound(q, n - 1);
        assert forall|k: int| 0 <= k < s.tags.len() && (#[trigger] s.tags[k]).output is Some implies
            r.tags[k] == s.tags[k] by {
            assert(q.tags[k] == s.tags[k]);
            assert(r.tags[k] == q.tags[k]);
        }
        assert forall|p: int| 0 <= p < n implies #[trigger] sound(r, p) by {
            if p < n - 1 {
                assert(sound(q, p));
            }
        }
    }
}

/// Where there is nothing to repair on the outputs before `n`, repairing them
/// changes nothing.
proof fn lemma_all_sound_stay(s: StateModel, n: int)
    requires
        orderly(s),
        0 <= n <= s.outputs.len(),
        forall|p: int| 0 <= p < s.outputs.len() ==> #[trigger] sound(s, p),
    ensures
        s.repaired_up_to(n) == s,
    decreases n,
{
    if n > 0 {
        lemma_all_sound_stay(s, n - 1);
        assert(sound(s, n - 1));
        lemma_sound_stays(s, n - 1);
    }
}

/// Whether the focused output exists, and there is one where there are outputs.
pub open spec fn focus_exists(s: StateModel) -> bool {
    match s.focused_output {
        Some(f) => f < s.outputs.len(),
        None => s.outputs.len() == 0,
    }
}

/// What normalizing achieves.
proof fn lemma_normalized(s: StateModel)
    requires
        orderly(s),
    ensures
        ({
            let r = s.normalized();
            &&& orderly(r)
            &&& r.windows == s.windows
            &&& r.outputs.len() == s.outputs.len()
            &&& focus_exists(r)
            &&& owners_kept(s, r)
            &&& forall|p: int| 0 <= p < s.outputs.len() ==> #[trigger] sound(r, p)
        }),
{
    if s.outputs.len() > 0 {
        lemma_repairs_are_sound(s.focus_checked(), s.outputs.len() as int);
    }
}

/// Where there is nothing to repair, normalizing changes nothing.
proof fn lemma_sound_is_normal(s: StateModel)
    requires
        orderly(s),
        focus_exists(s),
        forall|p: int| 0 <= p < s.outputs.len() ==> #[trigger] sound(s, p),
    ensures
        s.normalized() == s,
{
    if s.outputs.len() > 0 {
        lemma_all_sound_stay(s, s.outputs.len() as int);
    }
}

/// Bringing floating windows into their areas leaves nothing to repair where
/// there was nothing, and a second time changes nothing.
proof fn lemma_clamped(s: StateModel)
    requires
        orderly(s),
    ensures
        ({
            let c = s.floats_clamped();
            &&& orderly(c)
            &&& forall|p: int| 0 <= p < s.outputs.len() && sound(s, p) ==> #[trigger] sound(c, p)
            &&& c.floats_clamped() == c
            &&& s.floats_clampable() ==> c.floats_clampable()
        }),
{
    let c = s.floats_clamped();
    invariants::clamped_floats_lie_inside(s);
    assert forall|i: int, j: int| 0 <= i < j < c.windows.len() implies (#[trigger] c.windows[i]).id
        != (#[trigger] c.windows[j]).id by {
        assert(s.windows[i].id != s.windows[j].id);
    }
    assert forall|p: int|
        0 <= p < s.outputs.len() && sound(s, p) implies #[trigger] sound(c, p) by {
        lemma_same_choice(s, c, p);
        if s.owner(s.outputs[p].active_tag) != Some(p as usize) {
            assert(c.tags == s.tags);
        }
    }
    let d = c.floats_clamped();
    assert forall|i: int|
        0 <= i < c.windows.len() implies #[trigger] d.windows[i] == c.windows[i] by {
        let w = c.windows[i];
        assert(d.windows[i] == c.float_clamped(w));
        if let Some(area) = c.float_area(w) {
            if w.floating {
                assert(invariants::lies_inside(w, area));
            }
        }
    }
    assert(d.windows =~= c.windows);
    if s.floats_clampable() {
        assert forall|i: int|
            0 <= i < c.windows.len() && c.windows[i].floating && c.float_area(c.windows[i]) is Some
            implies state::clampable(
            (#[trigger] c.windows[i]).float_w,
            c.windows[i].float_h,
            c.float_area(c.windows[i])->0,
        ) by {
            assert(c.float_area(c.windows[i]) == s.float_area(s.windows[i]));
            assert(s.windows[i].floating);
        }
    }
}

/// After the outputs were repaired, the focused output exists, and there is one
/// where there are outputs; every output shows a tag that it owns, unless it
/// owns none and no tag is unassigned; no tag that had an owner changed it; every
/// output focuses a window that it shows, on its active tag, or none where it
/// shows none; every floating window lies inside its area; and a second repair
/// can be made and changes nothing.
pub proof fn repaired_outputs_are_sound(s: StateModel)
    requires
        orderly(s),
    ensures
        ({
            let n = s.normalized();
            let r = n.floats_clamped();
            &&& r.outputs.len() == s.outputs.len()
            &&& focus_exists(r)
            &&& forall|o: int| 0 <= o < r.outputs.len() ==> #[trigger] settled(r, o)
            &&& owners_kept(s, r)
            &&& forall|o: int|
                0 <= o < r.outputs.len() ==> match (#[trigger] r.outputs[o]).focused_window {
                    Some(id) => exists|i: int|
                        0 <= i < r.windows.len() && (#[trigger] r.windows[i]).id == id && r.shows(
                            o,
                            r.windows[i],
                        ) && r.windows[i].tag == r.outputs[o].active_tag,
                    None => shown_ids(r, o).len() == 0,
                }
            &&& invariants::floats_inside(r)
            &&& n.normalized() == n
            &&& r.normalized() == r
            &&& r.normalized().floats_clamped() == r
            &&& n.floats_clampable() ==> r.normalized().floats_clampable()
        }),
{
    let n = s.normalized();
    let r = n.floats_clamped();
    lemma_normalized(s);
    lemma_sound_is_normal(n);
    invariants::clamped_floats_lie_inside(n);
    lemma_clamped(n);
    assert forall|p: int| 0 <= p < r.outputs.len() implies #[trigger] sound(r, p) by {
        assert(sound(n, p));
    }
    lemma_sound_is_normal(r);
    assert forall|o: int| 0 <= o < r.outputs.len() implies #[trigger] settled(r, o) by {
        assert(sound(r, o));
    }
    assert forall|o: int| 0 <= o < r.outputs.len() implies match (
    #[trigger] r.outputs[o]).focused_window {
        Some(id) => exists|i: int|
            0 <= i < r.windows.len() && (#[trigger] r.windows[i]).id == id && r.shows(
                o,
                r.windows[i],
            ) && r.windows[i].tag == r.outputs[o].active_tag,
        None => shown_ids(r, o).len() == 0,
    } by {
        assert(sound(r, o));
        refocus_keeps_or_takes_the_first(r, o);
        if let Some(id) = r.outputs[o].focused_window {
            let keep = |w: Window| r.shows(o, w);
            layout::lemma_ids_where(r.windows, keep, id);
            let i = choose|i: int|
                0 <= i < r.windows.len() && keep(#[trigger] r.windows[i]) && r.windows[i].id == id;
            assert(r.windows[i].id == id && r.shows(o, r.windows[i]));
        }
    }
}

} // verus!
