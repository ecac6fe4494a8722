//! What focusing tags and sending windows to them changes, and what it leaves;
//! and what the words used for outputs, tags and windows mean.
use vstd::prelude::*;

use crate::actions;
use crate::connection::AppModel;
use crate::invariants;
use crate::search;
use crate::state;
use crate::state::{Output, StateModel, Tag, Window};

verus! {

/// A tag is owned by the output that it names; an output shows a window that is
/// on its active tag and whose tag it owns; a window is visible where its owner
/// shows its tag; and the active output is the focused one, or the first.
pub proof fn outputs_own_and_show(s: StateModel, o: int, w: Window, tag: usize)
    requires
        s.wf(),
        0 <= o < s.outputs.len(),
        w.tag < 9,
    ensures
        tag < 9 ==> s.owner(tag) == s.tags[tag as int].output,
        tag >= 9 ==> s.owner(tag) is None,
        s.shows(o, w) <==> s.tags[w.tag as int].output == Some(o as usize)
            && s.outputs[o].active_tag == w.tag,
        s.visible(w) <==> (s.tags[w.tag as int].output matches Some(p)
            && s.outputs[p as int].active_tag == w.tag),
        (s.occupied())(tag as int) <==> exists|i: int|
            0 <= i < s.windows.len() && (#[trigger] s.windows[i]).tag == tag,
        s.focused_output matches Some(f) ==> s.active_output() == Some(f),
        s.focused_output is None ==> s.active_output() == Some(0usize),
{
    if s.tags[w.tag as int].output is Some {
        let p = s.tags[w.tag as int].output->0;
        assert(p < s.outputs.len());
    }
}

/// The area of an output is what panels leave free, where that is known, and all
/// of it elsewhere. A floating window is kept in the area of the output that owns
/// its tag, or of the focused output where none does.
pub proof fn areas_are_those_of_outputs(s: StateModel, o: int, w: Window)
    requires
        s.wf(),
        0 <= o < s.outputs.len(),
        w.tag < 9,
    ensures
        ({
            let a = s.outputs[o];
            let area = state::usable_area(a);
            let known = a.usable_width > 0 || a.usable_height > 0;
            let home = match s.tags[w.tag as int].output {
                Some(p) => p as int,
                None => match s.focused_output {
                    Some(f) => f as int,
                    None => 0,
                },
            };
            &&& known ==> area == (a.usable_x, a.usable_y, a.usable_width, a.usable_height)
            &&& !known ==> area == (a.x, a.y, a.width, a.height)
            &&& home == o && area.2 > 0 && area.3 > 0 ==> s.float_area(w) == Some(area)
            &&& home == o && (area.2 == 0 || area.3 == 0) ==> s.float_area(w) is None
        }),
{
}

/// Focusing a tag from an output shows it on the output that owns it, or else on
/// that output, which owns it from then on. The tag that is left there is given
/// up if no window is on it. No other tag, no other output, seat or window
/// changes, but windows on the tag that is left are no longer fullscreen; and the
/// output focuses a window on the tag, if there is one.
pub proof fn focusing_a_tag_shows_it(s: StateModel, o: usize, tag: usize, t: usize, p: int)
    requires
        s.wf(),
        o < s.outputs.len(),
        tag < 9,
        t < 9,
        0 <= p < s.outputs.len(),
    ensures
        ({
            let r = s.tag_focused(o, tag);
            let q = match s.tags[tag as int].output {
                Some(owner) => owner,
                None => o,
            };
            let left = s.outputs[q as int].active_tag;
            let a = s.outputs[q as int];
            let b = r.outputs[q as int];
            &&& r == (StateModel {
                tags: r.tags,
                outputs: r.outputs,
                windows: r.windows,
                focused_output: r.focused_output,
                ..s
            })
            &&& r.outputs.len() == s.outputs.len()
            &&& r.tags.len() == s.tags.len()
            &&& b == (Output { active_tag: b.active_tag, focused_window: b.focused_window, ..a })
            &&& b.active_tag == tag
            &&& p != q ==> r.outputs[p] == s.outputs[p]
            &&& r.focused_output == (if q == o {
                s.focused_output
            } else {
                Some(q)
            })
            &&& r.tags[tag as int] == (Tag { output: Some(q), ..s.tags[tag as int] })
            &&& t != tag && t != left ==> r.tags[t as int] == s.tags[t as int]
            &&& left != tag && s.tags[left as int].output == Some(q) && (forall|i: int|
                0 <= i < s.windows.len() ==> (#[trigger] s.windows[i]).tag != left)
                ==> r.tags[left as int] == (Tag { output: None, ..s.tags[left as int] })
            &&& left != tag && (s.tags[left as int].output != Some(q) || exists|i: int|
                0 <= i < s.windows.len() && (#[trigger] s.windows[i]).tag == left)
                ==> r.tags[left as int] == s.tags[left as int]
            &&& (exists|i: int| 0 <= i < s.windows.len() && (#[trigger] s.windows[i]).tag == tag)
                <==> b.focused_window is Some
            &&& b.focused_window matches Some(id) ==> exists|i: int|
                0 <= i < s.windows.len() && (#[trigger] s.windows[i]).tag == tag
                    && s.windows[i].id == id
        }),
{
    let q = match s.tags[tag as int].output {
        Some(owner) => owner,
        None => o,
    };
    assert(q < s.outputs.len());
    let held = match s.owner(tag) {
        None => s.with_owner(tag as int, Some(o)),
        Some(owner) => if owner == o {
            s
        } else {
            StateModel { focused_output: Some(owner), ..s }
        },
    };
    assert(held.wf());
    invariants::activation_effects(held, q as int, tag);
    let r = s.tag_focused(o, tag);
    assert(r == held.activated(q as int, tag));
    let left = s.outputs[q as int].active_tag;
    assert((held.occupied())(left as int) <==> (s.occupied())(left as int));
    assert(r.owner(left) == held.owner(left) || r.owner(left) is None);
    assert(r.owner(t) == held.owner(t) || t == left);
    let shown = held.with_active(q as int, tag).without_fullscreen(left);
    let kept = if left != tag {
        shown.collected(q as int, left)
    } else {
        shown
    };
    assert(r == kept.refocused(q as int));
    invariants::lemma_same_places(held.with_active(q as int, tag), shown);
    assert(kept.wf());
    assert(kept.owner(tag) == Some(q));
    invariants::refocus_focuses_a_shown_window(kept, q as int);
    assert forall|i: int| 0 <= i < s.windows.len() implies (#[trigger] s.windows[i]).tag
        == kept.windows[i].tag && s.windows[i].id == kept.windows[i].id && kept.shows(
        q as int,
        kept.windows[i],
    ) == (s.windows[i].tag == tag) by {}
    if let Some(id) = r.outputs[q as int].focused_window {
        let i = choose|i: int|
            0 <= i < kept.windows.len() && (#[trigger] kept.windows[i]).id == id && kept.shows(
                q as int,
                kept.windows[i],
            );
        assert(s.windows[i].tag == tag);
    } else {
        assert forall|i: int| 0 <= i < s.windows.len() implies (#[trigger] s.windows[i]).tag
            != tag by {
            assert(!kept.shows(q as int, kept.windows[i]));
        }
    }
}

/// Sending the focused window of an output to a tag changes the tag of that
/// window alone; an unassigned tag is then owned by the output. The output keeps
/// showing what it showed, and focuses another window there, if there is one. No
/// other window, tag or output changes.
pub proof fn sending_a_window_moves_it_alone(s: StateModel, o: usize, tag: usize, i: int, p: int)
    requires
        s.wf(),
        o < s.outputs.len(),
        tag < 9,
        0 <= i < s.windows.len(),
        0 <= p < s.outputs.len(),
    ensures
        ({
            let r = s.focused_sent(o, tag);
            let a = s.outputs[o as int];
            let b = r.outputs[o as int];
            let w = s.windows[i];
            &&& r == (StateModel { tags: r.tags, outputs: r.outputs, windows: r.windows, ..s })
            &&& r.windows.len() == s.windows.len()
            &&& a.focused_window == Some(w.id) ==> r.windows[i] == (Window { tag, ..w })
            &&& a.focused_window != Some(w.id) ==> r.windows[i] == w
            &&& r.outputs.len() == s.outputs.len()
            &&& p != o ==> r.outputs[p] == s.outputs[p]
            &&& b == (Output { focused_window: b.focused_window, ..a })
            &&& r.tags == (if s.tags[tag as int].output is Some {
                s.tags
            } else {
                s.tags.update(tag as int, Tag { output: Some(o), ..s.tags[tag as int] })
            })
        }),
{
    let held = if s.owner(tag) is None {
        s.with_owner(tag as int, Some(o))
    } else {
        s
    };
    assert(held.wf());
    invariants::window_is_found_by_id(held, i);
    if let Some(id) = s.outputs[o as int].focused_window {
        search::lemma_least(held.windows.len() as int, held.has_id(id));
        if let Some(k) = held.window_index(id) {
            assert(held.has_id(id)(k));
            invariants::window_is_found_by_id(held, k);
        }
    }
}

/// Tag actions and the digits of tags are about the active output: focusing a tag
/// that another output owns sends the pointer there, and sending leaves the
/// pointer. Both take a manage sequence.
pub proof fn tag_actions_are_about_the_active_output(d: AppModel, tag: usize, o: usize)
    requires
        d.state.wf(),
        o < d.state.outputs.len(),
        d.state.focused_output == Some(o) || (d.state.focused_output is None && o == 0),
        tag < 9,
    ensures
        ({
            let chosen = actions::tag_chosen(d, tag);
            let sent = actions::tag_sent(d, tag);
            &&& chosen.manage && sent.manage
            &&& chosen.spawn is None && sent.spawn is None
            &&& chosen.data == (AppModel {
                state: d.state.tag_focused(o, tag),
                pending_pointer_warp: match d.state.tags[tag as int].output {
                    Some(p) => if p == o {
                        None
                    } else {
                        Some(p)
                    },
                    None => None,
                },
                ..d
            })
            &&& sent.data == d.with_state(d.state.focused_sent(o, tag))
        }),
{
}

/// Switching an output to a tag shows it there, without any change of owner; the
/// windows on the tag that is left are no longer fullscreen, and the focus is
/// chosen anew. No other output or window changes.
pub proof fn switching_shows_the_tag(s: StateModel, o: usize, tag: usize, i: int, p: int)
    requires
        s.wf(),
        o < s.outputs.len(),
        tag < 9,
        0 <= i < s.windows.len(),
        0 <= p < s.outputs.len(),
    ensures
        ({
            let r = s.tag_switched(o, tag);
            let a = s.outputs[o as int];
            let b = r.outputs[o as int];
            let w = s.windows[i];
            &&& r == (StateModel { outputs: r.outputs, windows: r.windows, ..s })
            &&& r.windows.len() == s.windows.len()
            &&& r.windows[i] == (Window {
                fullscreen: w.fullscreen && (w.tag != a.active_tag || tag == a.active_tag),
                ..w
            })
            &&& r.outputs.len() == s.outputs.len()
            &&& p != o ==> r.outputs[p] == s.outputs[p]
            &&& b == (Output { active_tag: tag, focused_window: b.focused_window, ..a })
            &&& b.focused_window matches Some(id) ==> exists|k: int|
                0 <= k < s.windows.len() && (#[trigger] s.windows[k]).id == id && s.windows[k].tag
                    == tag && s.tags[tag as int].output == Some(o)
        }),
{
    let left = s.outputs[o as int].active_tag;
    let shown = s.with_active(o as int, tag);
    let cleared = if left != tag {
        shown.without_fullscreen(left)
    } else {
        shown
    };
    assert(shown.wf());
    invariants::lemma_same_places(shown, cleared);
    invariants::refocus_focuses_a_shown_window(cleared, o as int);
    let r = s.tag_switched(o, tag);
    if let Some(id) = r.outputs[o as int].focused_window {
        let k = choose|k: int|
            0 <= k < cleared.windows.len() && (#[trigger] cleared.windows[k]).id == id
                && cleared.shows(o as int, cleared.windows[k]);
        assert(s.windows[k].id == id);
        assert(s.windows[k].tag == tag);
    }
}

} // verus!
