//! How things start: a state without outputs, a context with nothing queued,
//! windows and outputs as they are announced; and which actions have an effect.
use vstd::prelude::*;

use crate::actions;
use crate::config::Config;
use crate::connection;
use crate::connection::AppModel;
use crate::events;
use crate::events::WmEvent;
use crate::state;
use crate::state::StateModel;

verus! {

/// A fresh state has nine tags that nobody owns, without labels and all with
/// the given master fraction, which is also that of tags beyond them. It has no
/// output, seat or window, is not in resize mode, and numbers windows from one.
pub proof fn fresh_state_is_empty(fraction: i64, t: int)
    requires
        0 <= t < 9,
    ensures
        ({
            let s = state::fresh_state(fraction);
            &&& s.outputs.len() == 0
            &&& s.seats.len() == 0
            &&& s.windows.len() == 0
            &&& s.tags.len() == 9
            &&& s.tags[t].output is None
            &&& s.tags[t].label is None
            &&& s.tags[t].master_fraction == fraction
            &&& s.default_master_fraction == fraction
            &&& s.focused_output is None
            &&& !s.resize_mode
            &&& s.next_window_id == 1
        }),
{
}

/// A fresh context has the state and the configuration that it is made of, and
/// nothing else: no bindings, nothing to close, no pointer operation, no warp.
pub proof fn fresh_context_is_idle(s: StateModel, config: Config)
    ensures
        ({
            let d = connection::fresh_context(s, config);
            &&& d.state == s
            &&& d.config == config
            &&& !d.quit
            &&& d.bindings.len() == 0
            &&& d.pointer_bindings.len() == 0
            &&& !d.layer_default_set
            &&& d.pending_close.len() == 0
            &&& d.pointer_op is None
            &&& d.pending_op is None
            &&& !d.op_end_requested
            &&& d.pending_pointer_warp is None
        }),
{
}

/// A new window gets the number that was next, and the one after it is next. It
/// has no size yet, and nothing but the windows and the focus of the output that
/// it appears on changes.
pub proof fn new_windows_are_numbered(d: AppModel, proxy: u64, o: int)
    requires
        d.state.wf(),
        d.state.next_window_id < u32::MAX,
        0 <= o < d.state.outputs.len(),
    ensures
        ({
            let s = d.state;
            let e = events::wm_event(d, WmEvent::Window { proxy });
            let t = e.state;
            let w = t.windows.last();
            let here = s.focused_output == Some(o as usize) || (s.focused_output is None && o
                == 0);
            &&& w.id == s.next_window_id
            &&& t.next_window_id == s.next_window_id + 1
            &&& (w.width, w.height) == (0u32, 0u32)
            &&& (w.min_width, w.min_height) == (0u32, 0u32)
            &&& (w.max_width, w.max_height) == (0u32, 0u32)
            &&& t.tags == s.tags
            &&& t.seats == s.seats
            &&& t.focused_output == s.focused_output
            &&& t.resize_mode == s.resize_mode
            &&& t.outputs.len() == s.outputs.len()
            &&& t.outputs[o].active_tag == s.outputs[o].active_tag
            &&& here ==> t.outputs[o].focused_window == Some(w.id)
            &&& !here ==> t.outputs[o] == s.outputs[o]
            &&& e == d.with_state(t)
        }),
{
}

/// A new output has the handle that it was announced with and nothing else.
pub proof fn new_outputs_are_blank(proxy: u64)
    ensures
        ({
            let o = state::new_output(proxy);
            &&& o.proxy == proxy
            &&& o.name is None && o.wl_global is None && o.wl_output is None
            &&& (o.x, o.y, o.width, o.height) == (0i32, 0i32, 0u32, 0u32)
            &&& (o.usable_x, o.usable_y) == (0i32, 0i32)
            &&& (o.usable_width, o.usable_height) == (0u32, 0u32)
            &&& o.active_tag == 0
            &&& o.focused_window is None
            &&& o.layer is None
        }),
{
}

/// Without outputs there is nothing to act on: no action about windows, tags or
/// outputs changes anything but that a warp of the pointer is forgotten, and
/// none asks for a manage sequence.
pub proof fn nothing_happens_without_outputs(d: AppModel, tag: usize, forward: bool)
    requires
        d.state.focused_output is None,
        d.state.outputs.len() == 0,
    ensures
        actions::focus_cycled(d, forward) == (actions::Outcome {
            data: d,
            manage: false,
            spawn: None,
        }),
        actions::output_cycled(d, forward) == (actions::Outcome {
            data: d,
            manage: false,
            spawn: None,
        }),
        actions::tag_sent(d, tag) == (actions::Outcome { data: d, manage: false, spawn: None }),
        actions::fullscreen_toggled(d) == (actions::Outcome {
            data: d,
            manage: false,
            spawn: None,
        }),
        actions::float_toggled(d) == (actions::Outcome { data: d, manage: false, spawn: None }),
        actions::close_queued(d) == (actions::Outcome { data: d, manage: false, spawn: None }),
        actions::tag_chosen(d, tag) == (actions::Outcome {
            data: AppModel { pending_pointer_warp: None, ..d },
            manage: false,
            spawn: None,
        }),
{
}

/// Actions about tags ask for a manage sequence where there is an output, moving
/// between outputs where there are several, the resize mode always, and moving
/// the split only inside it. None of them spawns anything; and what spawns a
/// command changes nothing and asks for no manage sequence.
pub proof fn changes_ask_for_a_manage_sequence(
    d: AppModel,
    tag: usize,
    forward: bool,
    on: bool,
    delta: int,
    command: Seq<char>,
)
    requires
        d.state.wf(),
    ensures
        actions::tag_chosen(d, tag).manage <==> d.state.outputs.len() > 0,
        actions::tag_sent(d, tag).manage <==> d.state.outputs.len() > 0,
        actions::output_cycled(d, forward).manage <==> d.state.outputs.len() > 1,
        actions::resize_mode_set(d, on).manage,
        actions::split_moved(d, delta).manage <==> d.state.resize_mode,
        actions::tag_chosen(d, tag).spawn is None,
        actions::tag_sent(d, tag).spawn is None,
        actions::output_cycled(d, forward).spawn is None,
        actions::resize_mode_set(d, on).spawn is None,
        actions::split_moved(d, delta).spawn is None,
        actions::spawning(d, command).spawn == Some(command),
        actions::spawning(d, command).data == d,
        !actions::spawning(d, command).manage,
{
}

} // verus!
