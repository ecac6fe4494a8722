//! What the operations on the state keep, and what they achieve together.
use vstd::prelude::*;

use crate::search;
use crate::state::{Output, StateModel, Tag, Window, MAX_FRACTION, MIN_FRACTION, NUM_TAGS};
use crate::state;

verus! {

/// A fresh state with a legal master fraction is well formed.
pub proof fn fresh_state_is_wf(fraction: i64)
    requires
        MIN_FRACTION <= fraction <= MAX_FRACTION,
    ensures
        state::fresh_state(fraction).wf(),
{
}

/// Choosing the focus of an output anew keeps the state well formed.
pub proof fn refocus_keeps_wf(s: StateModel, o: int)
    requires
        s.wf(),
        0 <= o < s.outputs.len(),
    ensures
        s.refocused(o).wf(),
{
}

/// In a well-formed state an identifier leads back to its window.
pub proof fn window_is_found_by_id(s: StateModel, i: int)
    requires
        s.wf(),
        0 <= i < s.windows.len(),
    ensures
        s.window_index(s.windows[i].id) == Some(i),
{
    let id = s.windows[i].id;
    assert(s.has_id(id)(i));
    search::lemma_least_some(s.windows.len() as int, s.has_id(id), i);
    let k = s.window_index(id)->0;
    assert(s.has_id(id)(k));
    assert(s.windows[k].id == s.windows[i].id);
}

/// After its focus was chosen anew, an output focuses a window that it shows,
/// and none only if it shows none.
pub proof fn refocus_focuses_a_shown_window(s: StateModel, o: int)
    requires
        s.wf(),
        0 <= o < s.outputs.len(),
    ensures
        match s.refocused(o).outputs[o].focused_window {
            Some(id) => exists|i: int|
                0 <= i < s.windows.len() && (#[trigger] s.windows[i]).id == id && s.shows(
                    o,
                    s.windows[i],
                ),
            None => forall|i: int|
                0 <= i < s.windows.len() ==> !s.shows(o, #[trigger] s.windows[i]),
        },
{
    let n = s.windows.len() as int;
    search::lemma_least(n, s.shown_on(o));
    match s.outputs[o].focused_window {
        Some(id) => {
            search::lemma_least(n, s.has_id(id));
            if let Some(i) = s.window_index(id) {
                assert(s.has_id(id)(i));
                assert(s.windows[i].id == id);
            }
        },
        None => {},
    }
    match search::least(n, s.shown_on(o)) {
        Some(i) => {
            assert(s.shown_on(o)(i));
            assert(s.shows(o, s.windows[i]));
        },
        None => {
            assert forall|i: int| 0 <= i < s.windows.len() implies !s.shows(
                o,
                #[trigger] s.windows[i],
            ) by {
                assert(!s.shown_on(o)(i));
            }
        },
    }
}

/// Activating a tag on its owner keeps the state well formed.
proof fn activation_keeps_wf(s: StateModel, o: int, tag: usize)
    requires
        s.wf(),
        0 <= o < s.outputs.len(),
        tag < NUM_TAGS,
    ensures
        s.activated(o, tag).wf(),
{
    let left = s.outputs[o].active_tag;
    let shown = s.with_active(o, tag).without_fullscreen(left);
    assert(shown.wf());
    let kept = if left != tag {
        shown.collected(o, left)
    } else {
        shown
    };
    assert(kept.wf());
    refocus_keeps_wf(kept, o);
}

/// Focusing a tag keeps the state well formed.
pub proof fn focus_tag_keeps_wf(s: StateModel, o: usize, tag: usize)
    requires
        s.wf(),
    ensures
        s.tag_focused(o, tag).wf(),
{
    if tag < NUM_TAGS && o < s.outputs.len() {
        match s.owner(tag) {
            None => {
                let held = s.with_owner(tag as int, Some(o));
                assert(held.wf());
                activation_keeps_wf(held, o as int, tag);
            },
            Some(owner) => {
                if owner == o {
                    activation_keeps_wf(s, o as int, tag);
                } else {
                    let moved = StateModel { focused_output: Some(owner), ..s };
                    assert(moved.wf());
                    activation_keeps_wf(moved, owner as int, tag);
                }
            },
        }
    }
}

/// Switching an output to a tag keeps the state well formed.
pub proof fn switch_keeps_wf(s: StateModel, o: usize, tag: usize)
    requires
        s.wf(),
        tag < NUM_TAGS,
    ensures
        s.tag_switched(o, tag).wf(),
{
    if o < s.outputs.len() {
        let left = s.outputs[o as int].active_tag;
        let shown = s.with_active(o as int, tag);
        assert(shown.wf());
        let cleared = if left != tag {
            shown.without_fullscreen(left)
        } else {
            shown
        };
        assert(cleared.wf());
        refocus_keeps_wf(cleared, o as int);
    }
}

/// Sending a window to a tag keeps the state well formed.
pub proof fn send_keeps_wf(s: StateModel, o: usize, tag: usize)
    requires
        s.wf(),
    ensures
        s.focused_sent(o, tag).wf(),
{
    if tag < NUM_TAGS && o < s.outputs.len() {
        let held = if s.owner(tag) is None {
            s.with_owner(tag as int, Some(o))
        } else {
            s
        };
        assert(held.wf());
        let moved = match s.outputs[o as int].focused_window {
            Some(id) => match held.window_index(id) {
                Some(i) => held.with_window(i, Window { tag, ..held.windows[i] }),
                None => held,
            },
            None => held,
        };
        if let Some(id) = s.outputs[o as int].focused_window {
            search::lemma_least(held.windows.len() as int, held.has_id(id));
        }
        assert(moved.wf());
        refocus_keeps_wf(moved, o as int);
    }
}

/// Setting a master fraction keeps the state well formed.
pub proof fn set_fraction_keeps_wf(s: StateModel, tag: usize, fraction: int)
    requires
        s.wf(),
    ensures
        s.fraction_set(tag, fraction).wf(),
{
}

/// Bringing floating windows into their areas keeps the state well formed.
pub proof fn clamping_keeps_wf(s: StateModel)
    requires
        s.wf(),
    ensures
        s.floats_clamped().wf(),
{
    let r = s.floats_clamped();
    assert forall|i: int| 0 <= i < r.windows.len() implies (#[trigger] r.windows[i]).tag
        == s.windows[i].tag && r.windows[i].id == s.windows[i].id by {}
}

/// The tag that an output should show is one that it owns.
pub proof fn chosen_tag_is_owned(
    owners: Seq<Option<usize>>,
    current: usize,
    output: usize,
    occupied: spec_fn(int) -> bool,
)
    ensures
        match state::chosen_tag(owners, current, output, occupied) {
            Some(t) => 0 <= t < owners.len() && owners[t] == Some(output),
            None => forall|t: int| 0 <= t < owners.len() ==> #[trigger] owners[t] != Some(output),
        },
{
    let n = owners.len() as int;
    search::lemma_least(n, state::owned_and(owners, output, occupied));
    search::lemma_least(n, state::owned(owners, output));
    if state::chosen_tag(owners, current, output, occupied) is None {
        assert forall|t: int| 0 <= t < owners.len() implies #[trigger] owners[t] != Some(
            output,
        ) by {
            assert(!state::owned(owners, output)(t));
        }
    }
}

/// What repairing one output keeps.
pub proof fn one_repair(s: StateModel, o: int)
    requires
        s.wf(),
        0 <= o < s.outputs.len(),
    ensures
        ({
            let r = s.output_repaired(o);
            &&& r.wf()
            &&& r.outputs.len() == s.outputs.len()
            &&& r.windows == s.windows
            &&& r.focused_output == s.focused_output
            &&& r.tags.len() == s.tags.len()
            &&& forall|p: int| 0 <= p < s.outputs.len() && p != o ==> r.outputs[p] == s.outputs[p]
            &&& same_geometry(r.outputs[o], s.outputs[o])
            &&& forall|t: int|
                0 <= t < s.tags.len() && (#[trigger] s.tags[t]).output is Some ==> r.tags[t]
                    == s.tags[t]
        }),
{
    let active = s.outputs[o].active_tag;
    if s.owner(active) == Some(o as usize) {
        refocus_keeps_wf(s, o);
    } else {
        chosen_tag_is_owned(s.owners(), active, o as usize, s.occupied());
        match s.best_tag(o as usize) {
            Some(t) => {
                assert(s.owners()[t] == s.tags[t].output);
                let tagged = s.with_active(o, t as usize);
                assert(tagged.wf());
                refocus_keeps_wf(tagged, o);
            },
            None => {
                search::lemma_least(s.tags.len() as int, s.unassigned());
                match s.free_tag() {
                    Some(t) => {
                        assert((s.unassigned())(t));
                        let tagged = s.with_owner(t, Some(o as usize)).with_active(o, t as usize);
                        assert(tagged.wf());
                        refocus_keeps_wf(tagged, o);
                    },
                    None => {
                        refocus_keeps_wf(s, o);
                    },
                }
            },
        }
    }
}

/// Whether two descriptions of an output agree on all but the active tag and
/// the focused window.
pub open spec fn same_geometry(a: Output, b: Output) -> bool {
    a == (Output { active_tag: a.active_tag, focused_window: a.focused_window, ..b })
}

/// What repairing the outputs before `n` keeps.
proof fn repairs(s: StateModel, n: int)
    requires
        s.wf(),
        0 <= n <= s.outputs.len(),
    ensures
        ({
            let r = s.repaired_up_to(n);
            &&& r.wf()
            &&& r.outputs.len() == s.outputs.len()
            &&& r.windows == s.windows
            &&& r.focused_output == s.focused_output
            &&& r.tags.len() == s.tags.len()
            &&& forall|p: int|
                0 <= p < s.outputs.len() ==> same_geometry(#[trigger] r.outputs[p], s.outputs[p])
            &&& forall|t: int|
                0 <= t < s.tags.len() && (#[trigger] s.tags[t]).output is Some ==> r.tags[t]
                    == s.tags[t]
        }),
    decreases n,
{
    if n > 0 {
        repairs(s, n - 1);
        let q = s.repaired_up_to(n - 1);
        let r = s.repaired_up_to(n);
        one_repair(q, n - 1);
        assert forall|t: int| 0 <= t < s.tags.len() && (#[trigger] s.tags[t]).output is Some implies
            r.tags[t] == s.tags[t] by {
            assert(q.tags[t] == s.tags[t]);
        }
        assert forall|p: int| 0 <= p < s.outputs.len() implies same_geometry(
            #[trigger] r.outputs[p],
            s.outputs[p],
        ) by {
            assert(same_geometry(q.outputs[p], s.outputs[p]));
        }
    }
}

/// Normalizing keeps the state well formed, and tags that had an owner keep it.
pub proof fn normalizing_keeps_wf(s: StateModel)
    requires
        s.wf(),
    ensures
        s.normalized().wf(),
        s.normalized().windows == s.windows,
        s.normalized().outputs.len() == s.outputs.len(),
        s.normalized().tags.len() == s.tags.len(),
        forall|t: int|
            0 <= t < s.tags.len() && (#[trigger] s.tags[t]).output is Some ==> s.normalized().tags[t]
                == s.tags[t],
        forall|p: int|
            0 <= p < s.outputs.len() ==> same_geometry(
                #[trigger] s.normalized().outputs[p],
                s.outputs[p],
            ),
{
    if s.outputs.len() > 0 {
        assert(s.focus_checked().wf());
        repairs(s.focus_checked(), s.outputs.len() as int);
    }
}

/// Dropping an output keeps the state well formed.
pub proof fn dropping_keeps_wf(s: StateModel, o: int)
    requires
        s.wf(),
        0 <= o < s.outputs.len(),
    ensures
        s.output_dropped(o).wf(),
{
    let r = s.output_dropped(o);
    assert forall|t: int| 0 <= t < r.tags.len() implies match (#[trigger] r.tags[t]).output {
        Some(p) => p < r.outputs.len(),
        None => true,
    } by {
        assert(match s.tags[t].output {
            Some(p) => p < s.outputs.len(),
            None => true,
        });
    }
    assert forall|p: int| 0 <= p < r.outputs.len() implies (#[trigger] r.outputs[p]).active_tag
        < NUM_TAGS by {
        if p < o {
            assert(r.outputs[p] == s.outputs[p]);
        } else {
            assert(r.outputs[p] == s.outputs[p + 1]);
        }
    }
    assert forall|t: int| 0 <= t < r.tags.len() implies (#[trigger] r.tags[t]).master_fraction
        == s.tags[t].master_fraction by {}
}

/// Removing an output keeps the state well formed.
pub proof fn remove_output_keeps_wf(s: StateModel, o: usize)
    requires
        s.wf(),
    ensures
        s.output_removed(o).wf(),
{
    if o < s.outputs.len() {
        dropping_keeps_wf(s, o as int);
        normalizing_keeps_wf(s.output_dropped(o as int));
        clamping_keeps_wf(s.output_dropped(o as int).normalized());
    }
}

/// Removing an output moves all its tags to the first output that remains;
/// the other owned tags stay with their owners, whose indices move down past
/// the gap. No window changes its tag.
pub proof fn removed_output_tags_migrate(s: StateModel, o: usize, tag: usize)
    requires
        s.wf(),
        o < s.outputs.len(),
        tag < NUM_TAGS,
    ensures
        s.outputs.len() == 1 ==> s.output_removed(o).owner(tag) is None,
        s.outputs.len() > 1 && s.owner(tag) == Some(o) ==> s.output_removed(o).owner(tag) == Some(
            0usize,
        ),
        s.owner(tag) matches Some(p) ==> p != o ==> s.output_removed(o).owner(tag) == Some(
            if p > o {
                (p - 1) as usize
            } else {
                p
            },
        ),
        s.output_removed(o).windows.len() == s.windows.len(),
        forall|i: int|
            0 <= i < s.windows.len() ==> (#[trigger] s.output_removed(o).windows[i]).tag
                == s.windows[i].tag,
{
    let dropped = s.output_dropped(o as int);
    dropping_keeps_wf(s, o as int);
    normalizing_keeps_wf(dropped);
    assert(dropped.tags[tag as int].output == state::remapped_owner(
        s.tags[tag as int].output,
        o,
        dropped.outputs.len() as usize,
    ));
    if s.owner(tag) is Some && s.outputs.len() > 1 {
        assert(dropped.tags[tag as int].output is Some);
    }
    if let Some(p) = s.owner(tag) {
        assert(p < s.outputs.len());
    }
}

/// Giving an output its first tag keeps the state well formed.
pub proof fn assign_initial_tag_keeps_wf(s: StateModel, o: usize)
    requires
        s.wf(),
        o < s.outputs.len(),
    ensures
        s.first_tag_assigned(o).wf(),
{
    search::lemma_least(s.tags.len() as int, s.unassigned());
    match s.free_tag() {
        Some(t) => {
            let given = s.with_owner(t, Some(o)).with_active(o as int, t as usize);
            assert(given.wf());
            normalizing_keeps_wf(given);
        },
        None => {
            normalizing_keeps_wf(s);
        },
    }
}

/// The output on which a tag is shown when it is focused from output `o`.
pub open spec fn focus_target(s: StateModel, o: usize, tag: usize) -> usize {
    match s.owner(tag) {
        Some(owner) => owner,
        None => o,
    }
}

/// What activating a tag does to the owners of tags, to outputs and to windows.
pub proof fn activation_effects(s: StateModel, o: int, tag: usize)
    requires
        s.wf(),
        0 <= o < s.outputs.len(),
        tag < NUM_TAGS,
        s.owner(tag) == Some(o as usize),
    ensures
        ({
            let left = s.outputs[o].active_tag;
            let r = s.activated(o, tag);
            &&& r.outputs.len() == s.outputs.len()
            &&& r.outputs[o].active_tag == tag
            &&& forall|p: int| 0 <= p < s.outputs.len() && p != o ==> r.outputs[p] == s.outputs[p]
            &&& r.focused_output == s.focused_output
            &&& forall|t: usize| t < NUM_TAGS && t != left ==> #[trigger] r.owner(t) == s.owner(t)
            &&& r.owner(left) == (if left != tag && s.owner(left) == Some(o as usize)
                && !(s.occupied())(left as int) {
                None
            } else {
                s.owner(left)
            })
            &&& r.windows == s.without_fullscreen(left).windows
        }),
{
    let left = s.outputs[o].active_tag;
    let shown = s.with_active(o, tag).without_fullscreen(left);
    assert((shown.occupied())(left as int) == (s.occupied())(left as int)) by {
        if (s.occupied())(left as int) {
            let i = choose|i: int|
                0 <= i < s.windows.len() && (#[trigger] s.windows[i]).tag == left;
            assert(shown.windows[i].tag == left);
        }
        if (shown.occupied())(left as int) {
            let i = choose|i: int|
                0 <= i < shown.windows.len() && (#[trigger] shown.windows[i]).tag == left;
            assert(s.windows[i].tag == left);
        }
    }
}

/// A focused tag is owned by an output and shown there: by the output that
/// owned it, which then has the seat focus, or else by the one it was focused
/// from. The other outputs stay as they were.
pub proof fn focused_tag_is_shown_on_its_owner(s: StateModel, o: usize, tag: usize)
    requires
        s.wf(),
        o < s.outputs.len(),
        tag < NUM_TAGS,
    ensures
        ({
            let r = s.tag_focused(o, tag);
            let target = focus_target(s, o, tag);
            &&& target < r.outputs.len()
            &&& r.outputs.len() == s.outputs.len()
            &&& r.owner(tag) == Some(target)
            &&& r.outputs[target as int].active_tag == tag
            &&& r.focused_output == (if target == o {
                s.focused_output
            } else {
                Some(target)
            })
            &&& forall|p: int|
                0 <= p < s.outputs.len() && p != target ==> r.outputs[p] == s.outputs[p]
        }),
{
    match s.owner(tag) {
        None => {
            let held = s.with_owner(tag as int, Some(o));
            assert(held.wf());
            activation_effects(held, o as int, tag);
        },
        Some(owner) => {
            if owner == o {
                activation_effects(s, o as int, tag);
            } else {
                let moved = StateModel { focused_output: Some(owner), ..s };
                assert(moved.wf());
                activation_effects(moved, owner as int, tag);
            }
        },
    }
}

/// Focusing another tag unassigns the tag that is left if it is empty, and
/// leaves it with its owner if a window is on it.
pub proof fn left_tag_is_collected_when_empty(s: StateModel, o: usize, tag: usize)
    requires
        s.wf(),
        o < s.outputs.len(),
        tag < NUM_TAGS,
    ensures
        ({
            let target = focus_target(s, o, tag);
            let left = s.outputs[target as int].active_tag;
            let r = s.tag_focused(o, tag);
            left != tag && s.owner(left) == Some(target) ==> r.owner(left) == (if (s.occupied())(
                left as int,
            ) {
                Some(target)
            } else {
                None
            })
        }),
{
    match s.owner(tag) {
        None => {
            let held = s.with_owner(tag as int, Some(o));
            assert(held.wf());
            activation_effects(held, o as int, tag);
            assert(held.windows == s.windows);
        },
        Some(owner) => {
            if owner == o {
                activation_effects(s, o as int, tag);
            } else {
                let moved = StateModel { focused_output: Some(owner), ..s };
                assert(moved.wf());
                activation_effects(moved, owner as int, tag);
                assert(moved.windows == s.windows);
            }
        },
    }
}

/// Focusing a tag moves no window, and leaves no window fullscreen on the tag
/// that is left.
pub proof fn focus_tag_moves_no_window(s: StateModel, o: usize, tag: usize)
    requires
        s.wf(),
        o < s.outputs.len(),
        tag < NUM_TAGS,
    ensures
        ({
            let left = s.outputs[focus_target(s, o, tag) as int].active_tag;
            let r = s.tag_focused(o, tag);
            &&& r.windows.len() == s.windows.len()
            &&& forall|i: int|
                0 <= i < s.windows.len() ==> (#[trigger] r.windows[i]) == (Window {
                    fullscreen: s.windows[i].fullscreen && s.windows[i].tag != left,
                    ..s.windows[i]
                })
        }),
{
    match s.owner(tag) {
        None => {
            let held = s.with_owner(tag as int, Some(o));
            assert(held.wf());
            activation_effects(held, o as int, tag);
        },
        Some(owner) => {
            if owner == o {
                activation_effects(s, o as int, tag);
            } else {
                let moved = StateModel { focused_output: Some(owner), ..s };
                assert(moved.wf());
                activation_effects(moved, owner as int, tag);
            }
        },
    }
}

/// Switching an output to another tag leaves no window fullscreen on the tag
/// that is left.
pub proof fn switch_leaves_no_fullscreen_behind(s: StateModel, o: usize, tag: usize, i: int)
    requires
        s.wf(),
        o < s.outputs.len(),
        tag != s.outputs[o as int].active_tag,
        0 <= i < s.windows.len(),
        s.windows[i].tag == s.outputs[o as int].active_tag,
    ensures
        !s.tag_switched(o, tag).windows[i].fullscreen,
{
}

/// A window is shown on one output at most.
pub proof fn window_is_shown_on_one_output(s: StateModel, w: Window, a: int, b: int)
    requires
        s.wf(),
        0 <= a < s.outputs.len(),
        0 <= b < s.outputs.len(),
        s.shows(a, w),
        s.shows(b, w),
    ensures
        a == b,
{
}

/// A window is visible exactly if some output shows it.
pub proof fn visible_means_shown(s: StateModel, w: Window)
    requires
        s.wf(),
        w.tag < NUM_TAGS,
    ensures
        s.visible(w) <==> exists|o: int| 0 <= o < s.outputs.len() && #[trigger] s.shows(o, w),
{
    if let Some(o) = s.owner(w.tag) {
        assert(s.tags[w.tag as int].output == Some(o));
        if s.visible(w) {
            assert(s.shows(o as int, w));
        }
    }
}

/// A window that is sent to a tag is on that tag; the others stay where they
/// are; and the tag is owned, by its owner or else by the sending output.
pub proof fn sent_window_is_on_the_tag(s: StateModel, o: usize, tag: usize, i: int)
    requires
        s.wf(),
        o < s.outputs.len(),
        tag < NUM_TAGS,
        0 <= i < s.windows.len(),
    ensures
        s.focused_sent(o, tag).windows[i].tag == (if s.outputs[o as int].focused_window == Some(
            s.windows[i].id,
        ) {
            tag
        } else {
            s.windows[i].tag
        }),
        s.focused_sent(o, tag).owner(tag) == Some(focus_target(s, o, tag)),
{
    let held = if s.owner(tag) is None {
        s.with_owner(tag as int, Some(o))
    } else {
        s
    };
    assert(held.wf());
    window_is_found_by_id(held, i);
    if let Some(id) = s.outputs[o as int].focused_window {
        search::lemma_least(held.windows.len() as int, held.has_id(id));
        if let Some(k) = held.window_index(id) {
            assert(held.has_id(id)(k));
            window_is_found_by_id(held, k);
        }
    }
}

/// Setting the master fraction of one tag changes that of no other, and what
/// was set is read back, brought into the legal range.
pub proof fn fractions_are_per_tag(s: StateModel, tag: usize, fraction: int, other: usize)
    requires
        s.wf(),
        tag < NUM_TAGS,
    ensures
        s.fraction_set(tag, fraction).fraction(tag) == state::clamped(
            fraction,
            MIN_FRACTION as int,
            MAX_FRACTION as int,
        ),
        other != tag ==> s.fraction_set(tag, fraction).fraction(other) == s.fraction(other),
        MIN_FRACTION <= s.fraction(other) <= MAX_FRACTION,
{
}

/// A rectangle that is brought into an area lies inside it along each side that
/// it is not too long for, and starts at the area's origin along the others.
pub proof fn clamped_rect_lies_inside(
    x: i32,
    y: i32,
    width: u32,
    height: u32,
    area: (i32, i32, u32, u32),
)
    requires
        area.2 > 0,
        area.3 > 0,
    ensures
        ({
            let at = state::clamped_rect(x, y, width, height, area);
            &&& area.0 <= at.0
            &&& area.1 <= at.1
            &&& width <= area.2 ==> at.0 + width <= area.0 + area.2
            &&& height <= area.3 ==> at.1 + height <= area.1 + area.3
            &&& width > area.2 ==> at.0 == area.0
            &&& height > area.3 ==> at.1 == area.1
        }),
{
}

/// A rectangle that already lies inside an area stays where it is.
pub proof fn rect_inside_stays(
    x: i32,
    y: i32,
    width: u32,
    height: u32,
    area: (i32, i32, u32, u32),
)
    requires
        area.2 > 0,
        area.3 > 0,
        area.0 <= x,
        area.1 <= y,
        x + width <= area.0 + area.2,
        y + height <= area.1 + area.3,
    ensures
        state::clamped_rect(x, y, width, height, area) == (x as int, y as int),
{
}

/// Whether a floating window lies inside an area along each side that it is not
/// too long for, and starts at the area's origin along the others.
pub open spec fn lies_inside(w: Window, area: (i32, i32, u32, u32)) -> bool {
    &&& area.0 <= w.float_x
    &&& area.1 <= w.float_y
    &&& w.float_w <= area.2 ==> w.float_x + w.float_w <= area.0 + area.2
    &&& w.float_h <= area.3 ==> w.float_y + w.float_h <= area.1 + area.3
    &&& w.float_w > area.2 ==> w.float_x == area.0
    &&& w.float_h > area.3 ==> w.float_y == area.1
}

/// Whether every floating window lies inside the area of its output, where that
/// area is known.
pub open spec fn floats_inside(s: StateModel) -> bool {
    forall|i: int|
        0 <= i < s.windows.len() && s.windows[i].floating ==> match s.float_area(
            #[trigger] s.windows[i],
        ) {
            Some(area) => lies_inside(s.windows[i], area),
            None => true,
        }
}

/// Bringing floating windows into their areas leaves every one of them inside,
/// and changes nothing but where floating windows are.
pub proof fn clamped_floats_lie_inside(s: StateModel)
    ensures
        floats_inside(s.floats_clamped()),
        s.floats_clamped() == (StateModel { windows: s.floats_clamped().windows, ..s }),
        s.floats_clamped().windows.len() == s.windows.len(),
        forall|i: int|
            0 <= i < s.windows.len() ==> (#[trigger] s.floats_clamped().windows[i]) == (Window {
                float_x: s.floats_clamped().windows[i].float_x,
                float_y: s.floats_clamped().windows[i].float_y,
                ..s.windows[i]
            }),
        forall|i: int|
            0 <= i < s.windows.len() && !s.windows[i].floating ==> (
            #[trigger] s.floats_clamped().windows[i]) == s.windows[i],
{
    let t = s.floats_clamped();
    assert forall|i: int|
        0 <= i < t.windows.len() && t.windows[i].floating implies match t.float_area(
        #[trigger] t.windows[i],
    ) {
        Some(area) => lies_inside(t.windows[i], area),
        None => true,
    } by {
        let w = s.windows[i];
        assert(t.windows[i] == s.float_clamped(w));
        assert(t.float_area(t.windows[i]) == s.float_area(w));
        if let Some(area) = s.float_area(w) {
            clamped_rect_lies_inside(w.float_x, w.float_y, w.float_w, w.float_h, area);
        }
    }
}

/// Whether the far edges of every output's usable area are numbers of 32 bits.
pub open spec fn outputs_fit(s: StateModel) -> bool {
    forall|o: int| 0 <= o < s.outputs.len() ==> area_fits(state::usable_area(#[trigger] s.outputs[o]))
}

/// Whether the far edges of an area are numbers of 32 bits.
pub open spec fn area_fits(area: (i32, i32, u32, u32)) -> bool {
    &&& area.2 <= i32::MAX
    &&& area.3 <= i32::MAX
    &&& area.0 + area.2 <= i32::MAX
    &&& area.1 + area.3 <= i32::MAX
}

/// Outputs that fit can have their floating windows brought inside, also after
/// one of them was removed.
pub proof fn fitting_outputs_can_be_removed(s: StateModel, o: usize)
    requires
        s.wf(),
        outputs_fit(s),
    ensures
        s.floats_clampable(),
        s.normalized().floats_clampable(),
        o < s.outputs.len() ==> s.output_dropped(o as int).normalized().floats_clampable(),
{
    normalizing_keeps_wf(s);
    let n = s.normalized();
    assert forall|p: int| 0 <= p < n.outputs.len() implies area_fits(
        state::usable_area(#[trigger] n.outputs[p]),
    ) by {
        assert(same_geometry(n.outputs[p], s.outputs[p]));
        assert(area_fits(state::usable_area(s.outputs[p])));
    }
    if o < s.outputs.len() {
        let d = s.output_dropped(o as int);
        dropping_keeps_wf(s, o as int);
        normalizing_keeps_wf(d);
        let m = d.normalized();
        assert forall|p: int| 0 <= p < m.outputs.len() implies area_fits(
            state::usable_area(#[trigger] m.outputs[p]),
        ) by {
            assert(same_geometry(m.outputs[p], d.outputs[p]));
            let q = if p < o {
                p
            } else {
                p + 1
            };
            assert(d.outputs[p] == s.outputs[q]);
            assert(area_fits(state::usable_area(s.outputs[q])));
        }
    }
}

/// A state with other windows stays well formed if each window keeps its
/// identifier and its tag.
pub proof fn lemma_same_places(s: StateModel, t: StateModel)
    requires
        s.wf(),
        t == (StateModel { windows: t.windows, ..s }),
        t.windows.len() == s.windows.len(),
        forall|i: int|
            0 <= i < s.windows.len() ==> (#[trigger] t.windows[i]).id == s.windows[i].id
                && t.windows[i].tag == s.windows[i].tag,
    ensures
        t.wf(),
{
    assert forall|i: int, j: int| 0 <= i < j < t.windows.len() implies (
    #[trigger] t.windows[i]).id != (#[trigger] t.windows[j]).id by {
        assert(s.windows[i].id != s.windows[j].id);
    }
}

} // verus!
