//! The actions that keybindings run.
use vstd::prelude::*;
use vstd::string::*;

use crate::connection::{AppData, AppModel};
use crate::laws;
use crate::search;
use crate::state::{State, StateModel, Window, MAX_FRACTION, MIN_FRACTION};
use crate::text;
use crate::wm::layout;
use crate::wm::layout::Geometry;

verus! {

/// What is left to the event loop after a change of the context.
pub struct Effect {
    /// Whether a manage sequence is needed for the change to take effect.
    pub manage: bool,
    /// A command to be spawned.
    pub spawn: Option<String>,
}

/// A changed context together with what is left to the event loop.
#[verifier::ext_equal]
pub struct Outcome {
    pub data: AppModel,
    pub manage: bool,
    pub spawn: Option<Seq<char>>,
}

/// The outcome made of a context and an effect.
pub open spec fn outcome(data: AppModel, effect: Effect) -> Outcome {
    Outcome { data, manage: effect.manage, spawn: text::opt_view(effect.spawn) }
}

/// Nothing changed.
pub open spec fn unchanged(d: AppModel) -> Outcome {
    Outcome { data: d, manage: false, spawn: None }
}

/// The context changed, which takes a manage sequence.
pub open spec fn managed(d: AppModel) -> Outcome {
    Outcome { data: d, manage: true, spawn: None }
}

/// Nothing changed, but a command is to be spawned.
pub open spec fn spawning(d: AppModel, command: Seq<char>) -> Outcome {
    Outcome { data: d, manage: false, spawn: Some(command) }
}

/// The effect that asks for nothing.
fn no_effect() -> (r: Effect)
    ensures
        !r.manage,
        r.spawn is None,
{
    Effect { manage: false, spawn: None }
}

/// The effect that asks for a manage sequence.
fn manage_effect() -> (r: Effect)
    ensures
        r.manage,
        r.spawn is None,
{
    Effect { manage: true, spawn: None }
}

/// The effect that asks for a command to be spawned.
fn spawn_effect(command: &str) -> (r: Effect)
    ensures
        !r.manage,
        r.spawn is Some,
        r.spawn->0@ == command@,
{
    Effect { manage: false, spawn: Some(String::from_str(command)) }
}

/// The index after or before `i` in a ring of `n`.
pub open spec fn neighbour(i: int, n: int, forward: bool) -> int {
    if forward {
        (i + 1) % n
    } else {
        (i + n - 1) % n
    }
}

/// The index after or before `i` in a ring of `n`.
fn next_index(i: usize, n: usize, forward: bool) -> (r: usize)
    requires
        i < n,
    ensures
        r == neighbour(i as int, n as int, forward),
        r < n,
{
    if forward {
        if i + 1 == n {
            assert(n as int % n as int == 0) by (nonlinear_arith)
                requires
                    n > 0,
            ;
            0
        } else {
            assert((i + 1) % n as int == i + 1) by (nonlinear_arith)
                requires
                    0 <= i,
                    i + 1 < n,
            ;
            i + 1
        }
    } else if i == 0 {
        assert((n - 1) % n as int == n - 1) by (nonlinear_arith)
            requires
                n > 0,
        ;
        n - 1
    } else {
        assert((i + n - 1) % n as int == i - 1) by (nonlinear_arith)
            requires
                0 < i < n,
        ;
        i - 1
    }
}

/// The window that follows or precedes the focused one among `ids`; counted
/// from the first of them if the focused window is not among them.
pub open spec fn next_id(ids: Seq<u32>, focused: Option<u32>, forward: bool) -> u32 {
    let at = match focused {
        Some(id) => match search::least(ids.len() as int, layout::stands_at(ids, id)) {
            Some(i) => i,
            None => 0,
        },
        None => 0,
    };
    ids[neighbour(at, ids.len() as int, forward)]
}

/// Focus moved along the windows tiled on the active output.
pub open spec fn focus_cycled(d: AppModel, forward: bool) -> Outcome {
    match d.state.active_output() {
        Some(o) => {
            let ids = layout::ids_where(d.state.windows, layout::tiled_on(d.state, o as int));
            if ids.len() == 0 {
                unchanged(d)
            } else {
                let id = next_id(ids, d.state.outputs[o as int].focused_window, forward);
                managed(d.with_state(d.state.with_focus(o as int, Some(id))))
            }
        },
        None => unchanged(d),
    }
}

/// Move focus along the windows tiled on the active output.
fn cycle_focus(data: &mut AppData, forward: bool) -> (r: Effect)
    requires
        old(data).state@.wf(),
    ensures
        outcome(final(data)@, r) == focus_cycled(old(data)@, forward),
{
    match data.state.active_output() {
        Some(o) => {
            let ids: Vec<u32> = layout::tiled_windows(&data.state, o);
            if ids.len() == 0 {
                return no_effect();
            }
            let at: usize = match data.state.outputs[o].focused_window {
                Some(id) => match layout::find_id(&ids, id) {
                    Some(i) => i,
                    None => 0,
                },
                None => 0,
            };
            let next: usize = next_index(at, ids.len(), forward);
            data.state.outputs[o].focused_window = Some(ids[next]);
            manage_effect()
        },
        None => no_effect(),
    }
}

/// Tag `tag` focused from the active output. The pointer follows to another
/// output that owns the tag.
pub open spec fn tag_chosen(d: AppModel, tag: usize) -> Outcome {
    match d.state.active_output() {
        Some(o) => {
            let warp = match d.state.owner(tag) {
                Some(owner) => if owner != o {
                    Some(owner)
                } else {
                    None
                },
                None => None,
            };
            managed(
                AppModel { state: d.state.tag_focused(o, tag), pending_pointer_warp: warp, ..d },
            )
        },
        None => unchanged(AppModel { pending_pointer_warp: None, ..d }),
    }
}

/// Focus `tag` from the active output.
fn choose_tag(data: &mut AppData, tag: usize) -> (r: Effect)
    requires
        old(data).state@.wf(),
    ensures
        outcome(final(data)@, r) == tag_chosen(old(data)@, tag),
{
    match data.state.active_output() {
        Some(o) => {
            let warp: Option<usize> = match data.state.tag_owner(tag) {
                Some(owner) => if owner != o {
                    Some(owner)
                } else {
                    None
                },
                None => None,
            };
            data.state.focus_tag(o, tag);
            data.pending_pointer_warp = warp;
            manage_effect()
        },
        None => {
            data.pending_pointer_warp = None;
            no_effect()
        },
    }
}

/// The focused window sent to `tag` from the active output.
pub open spec fn tag_sent(d: AppModel, tag: usize) -> Outcome {
    match d.state.active_output() {
        Some(o) => managed(d.with_state(d.state.focused_sent(o, tag))),
        None => unchanged(d),
    }
}

/// Send the focused window of the active output to `tag`.
fn send_to_tag(data: &mut AppData, tag: usize) -> (r: Effect)
    requires
        old(data).state@.wf(),
    ensures
        outcome(final(data)@, r) == tag_sent(old(data)@, tag),
{
    match data.state.active_output() {
        Some(o) => {
            data.state.send_focused_to_tag(o, tag);
            manage_effect()
        },
        None => no_effect(),
    }
}

/// The index of the focused window of the active output.
pub open spec fn focused_index(s: StateModel) -> Option<int> {
    match s.active_output() {
        Some(o) => match s.outputs[o as int].focused_window {
            Some(id) => s.window_index(id),
            None => None,
        },
        None => None,
    }
}

/// Find the index of the focused window of the active output.
fn find_focused(state: &State) -> (r: Option<usize>)
    requires
        state@.wf(),
    ensures
        match focused_index(state@) {
            Some(i) => r matches Some(found) && found == i && found < state.windows@.len(),
            None => r is None,
        },
{
    match state.active_output() {
        Some(o) => match state.outputs[o].focused_window {
            Some(id) => state.find_window_index(id),
            None => None,
        },
        None => None,
    }
}

/// The focused window's fullscreen state toggled.
pub open spec fn fullscreen_toggled(d: AppModel) -> Outcome {
    match focused_index(d.state) {
        Some(i) => {
            let w = d.state.windows[i];
            managed(
                d.with_state(
                    d.state.with_window(i, Window { fullscreen: !w.fullscreen, ..w }),
                ),
            )
        },
        None => unchanged(d),
    }
}

/// Toggle the fullscreen state of the focused window.
fn toggle_fullscreen(data: &mut AppData) -> (r: Effect)
    requires
        old(data).state@.wf(),
    ensures
        outcome(final(data)@, r) == fullscreen_toggled(old(data)@),
{
    match find_focused(&data.state) {
        Some(i) => {
            data.state.windows[i].fullscreen = !data.state.windows[i].fullscreen;
            manage_effect()
        },
        None => no_effect(),
    }
}

/// Whether the layout entry at an index is for window `id`.
pub open spec fn placed(list: Seq<(u32, Geometry)>, id: u32) -> spec_fn(int) -> bool {
    |i: int| list[i].0 == id
}

/// The geometry of window `id` in a layout.
pub open spec fn cell_of(list: Seq<(u32, Geometry)>, id: u32) -> Option<Geometry> {
    match search::least(list.len() as int, placed(list, id)) {
        Some(i) => Some(list[i].1),
        None => None,
    }
}

/// The geometry of window `id` in a layout.
pub fn find_cell(list: &Vec<(u32, Geometry)>, id: u32) -> (r: Option<Geometry>)
    ensures
        r == cell_of(list@, id),
{
    let mut i: usize = 0;
    while i < list.len()
        invariant
            i <= list@.len(),
            forall|k: int| 0 <= k < i ==> !(#[trigger] placed(list@, id)(k)),
        decreases list@.len() - i,
    {
        if list[i].0 == id {
            proof {
                assert(search::is_least(list@.len() as int, placed(list@, id), i as int));
                search::lemma_least_is(list@.len() as int, placed(list@, id), i as int);
            }
            return Some(list[i].1);
        }
        i += 1;
    }
    proof {
        search::lemma_least_none(list@.len() as int, placed(list@, id));
    }
    None
}

/// The tiling cell that window `id` has on output `o`, if it has one there and
/// the output can be laid out.
pub open spec fn tiling_cell(s: StateModel, o: int, gap: u32, id: u32) -> Option<Geometry> {
    if layout::output_fits(s, o, gap) {
        cell_of(layout::output_layout(s, o, gap), id)
    } else {
        None
    }
}

/// The tiling cell of a window: the one on the output that owns its tag, if
/// that output shows it there.
pub open spec fn own_cell(s: StateModel, gap: u32, w: Window) -> Option<Geometry> {
    match s.owner(w.tag) {
        Some(o) => tiling_cell(s, o as int, gap, w.id),
        None => None,
    }
}

/// The tiling cell of the window at index `i`.
fn find_own_cell(data: &AppData, i: usize) -> (r: Option<Geometry>)
    requires
        data.state@.wf(),
        i < data.state.windows@.len(),
    ensures
        r == own_cell(data.state@, data.config.gap, data.state@.windows[i as int]),
{
    match data.state.tag_owner(data.state.windows[i].tag) {
        Some(o) => {
            if layout::output_can_be_tiled(&data.state, o, &data.config) {
                let list = layout::compute_output(&data.state, o, &data.config);
                find_cell(&list, data.state.windows[i].id)
            } else {
                None
            }
        },
        None => None,
    }
}

/// A window that floats where its tiling cell was.
pub open spec fn floated(w: Window, cell: Option<Geometry>) -> Window {
    match cell {
        Some(g) => Window {
            floating: true,
            float_x: g.x,
            float_y: g.y,
            float_w: g.width,
            float_h: g.height,
            ..w
        },
        None => Window { floating: true, ..w },
    }
}

/// The focused window switched between tiled and floating. A window that
/// starts to float takes the place of its tiling cell.
pub open spec fn float_toggled(d: AppModel) -> Outcome {
    match focused_index(d.state) {
        Some(i) => {
            let w = d.state.windows[i];
            let toggled = if w.floating {
                Window { floating: false, ..w }
            } else {
                floated(w, own_cell(d.state, d.config.gap, w))
            };
            managed(d.with_state(d.state.with_window(i, toggled)))
        },
        None => unchanged(d),
    }
}

/// Switch the focused window between tiled and floating.
fn toggle_float(data: &mut AppData) -> (r: Effect)
    requires
        old(data).state@.wf(),
    ensures
        outcome(final(data)@, r) == float_toggled(old(data)@),
{
    match find_focused(&data.state) {
        Some(i) => {
            if data.state.windows[i].floating {
                data.state.windows[i].floating = false;
            } else {
                let cell: Option<Geometry> = find_own_cell(data, i);
                data.state.windows[i].floating = true;
                if let Some(g) = cell {
                    data.state.windows[i].float_x = g.x;
                    data.state.windows[i].float_y = g.y;
                    data.state.windows[i].float_w = g.width;
                    data.state.windows[i].float_h = g.height;
                }
            }
            manage_effect()
        },
        None => no_effect(),
    }
}

/// Focus moved to the next or previous output, with the pointer.
pub open spec fn output_cycled(d: AppModel, forward: bool) -> Outcome {
    let n = d.state.outputs.len();
    if n > 1 {
        let at = match d.state.focused_output {
            Some(f) => f as int,
            None => 0,
        };
        let next = neighbour(at, n as int, forward) as usize;
        managed(
            AppModel {
                state: StateModel { focused_output: Some(next), ..d.state },
                pending_pointer_warp: Some(next),
                ..d
            },
        )
    } else {
        unchanged(d)
    }
}

/// Move focus to the next or previous output, including empty ones.
fn cycle_output(data: &mut AppData, forward: bool) -> (r: Effect)
    requires
        old(data).state@.wf(),
    ensures
        outcome(final(data)@, r) == output_cycled(old(data)@, forward),
{
    let n: usize = data.state.outputs.len();
    if n > 1 {
        let at: usize = match data.state.focused_output {
            Some(f) => f,
            None => 0,
        };
        let next: usize = next_index(at, n, forward);
        data.state.focused_output = Some(next);
        data.pending_pointer_warp = Some(next);
        manage_effect()
    } else {
        no_effect()
    }
}

/// The focused window queued for closing.
pub open spec fn close_queued(d: AppModel) -> Outcome {
    match d.focused_window() {
        Some(id) => managed(AppModel { pending_close: d.pending_close.push(id), ..d }),
        None => unchanged(d),
    }
}

/// Queue the focused window for closing.
fn queue_close(data: &mut AppData) -> (r: Effect)
    requires
        old(data).state@.wf(),
    ensures
        outcome(final(data)@, r) == close_queued(old(data)@),
{
    match data.focused_window() {
        Some(id) => {
            data.pending_close.push(id);
            manage_effect()
        },
        None => no_effect(),
    }
}

/// Resize mode switched on or off.
pub open spec fn resize_mode_set(d: AppModel, on: bool) -> Outcome {
    managed(d.with_state(StateModel { resize_mode: on, ..d.state }))
}

/// In resize mode, the master fraction of the tag shown on the active output
/// changed by `delta`; nothing outside of it.
pub open spec fn split_moved(d: AppModel, delta: int) -> Outcome {
    if d.state.resize_mode {
        match d.state.active_output() {
            Some(o) => {
                let tag = d.state.outputs[o as int].active_tag;
                managed(
                    d.with_state(d.state.fraction_set(tag, d.state.fraction(tag) + delta)),
                )
            },
            None => managed(d),
        }
    } else {
        unchanged(d)
    }
}

/// In resize mode, move the split of the tag shown on the active output by one
/// step to the right or left.
fn move_split(data: &mut AppData, right: bool) -> (r: Effect)
    requires
        old(data).state@.wf(),
    ensures
        outcome(final(data)@, r) == split_moved(
            old(data)@,
            if right {
                old(data).config.resize_step as int
            } else {
                -old(data).config.resize_step
            },
        ),
{
    if !data.state.resize_mode {
        return no_effect();
    }
    if let Some(o) = data.state.active_output() {
        let tag: usize = data.state.outputs[o].active_tag;
        let step: i128 = data.config.resize_step as i128;
        let now: i128 = data.state.master_fraction(tag) as i128;
        let moved: i128 = if right {
            now + step
        } else {
            now - step
        };
        let legal: i64 = if moved < MIN_FRACTION as i128 {
            MIN_FRACTION
        } else if moved > MAX_FRACTION as i128 {
            MAX_FRACTION
        } else {
            moved as i64
        };
        data.state.set_master_fraction(tag, legal);
    }
    manage_effect()
}

/// The name of an action: what stands before its first colon.
pub open spec fn action_name(action: Seq<char>) -> Seq<char> {
    if text::position_of(action, ':') < action.len() {
        action.take(text::position_of(action, ':'))
    } else {
        action
    }
}

/// The argument of an action: what stands behind its first colon.
pub open spec fn action_arg(action: Seq<char>) -> Option<Seq<char>> {
    if text::position_of(action, ':') < action.len() {
        Some(action.skip(text::position_of(action, ':') + 1))
    } else {
        None
    }
}

/// The tag that an argument names.
pub open spec fn tag_arg(arg: Option<Seq<char>>) -> Option<int> {
    match arg {
        Some(t) => text::parsed_number(t, 10, usize::MAX as int),
        None => None,
    }
}

/// The tag that an argument names.
fn parse_tag(arg: Option<&str>) -> (r: Option<usize>)
    ensures
        match arg {
            Some(t) => {
                &&& r is Some <==> tag_arg(Some(t@)) is Some
                &&& r is Some ==> r->0 == tag_arg(Some(t@))->0
            },
            None => r is None,
        },
{
    match arg {
        Some(t) => match text::parse_number(t, 10, usize::MAX as u64) {
            Some(v) => Some(v as usize),
            None => None,
        },
        None => None,
    }
}

/// What action `name` with argument `arg` does.
pub open spec fn acted(d: AppModel, name: Seq<char>, arg: Option<Seq<char>>) -> Outcome {
    if name == "spawn_terminal"@ {
        spawning(d, d.config.terminal@)
    } else if name == "spawn_launcher"@ {
        spawning(d, d.config.launcher@)
    } else if name == "spawn"@ {
        match arg {
            Some(command) => spawning(d, command),
            None => unchanged(d),
        }
    } else if name == "close"@ {
        close_queued(d)
    } else if name == "focus_next"@ {
        focus_cycled(d, true)
    } else if name == "focus_prev"@ {
        focus_cycled(d, false)
    } else if name == "focus_tag"@ {
        match tag_arg(arg) {
            Some(tag) => tag_chosen(d, tag as usize),
            None => unchanged(d),
        }
    } else if name == "send_to_tag"@ {
        match tag_arg(arg) {
            Some(tag) => tag_sent(d, tag as usize),
            None => unchanged(d),
        }
    } else if name == "fullscreen"@ {
        fullscreen_toggled(d)
    } else if name == "float"@ {
        float_toggled(d)
    } else if name == "focus_next_output"@ {
        output_cycled(d, true)
    } else if name == "focus_prev_output"@ {
        output_cycled(d, false)
    } else if name == "enter_resize_mode"@ {
        resize_mode_set(d, true)
    } else if name == "exit_resize_mode"@ {
        resize_mode_set(d, false)
    } else if name == "resize_step_left"@ {
        split_moved(d, -d.config.resize_step)
    } else if name == "resize_step_right"@ {
        split_moved(d, d.config.resize_step as int)
    } else if name == "quit"@ {
        unchanged(AppModel { quit: true, ..d })
    } else {
        unchanged(d)
    }
}

/// What an action does.
pub open spec fn action_run(d: AppModel, action: Seq<char>) -> Outcome {
    acted(d, action_name(action), action_arg(action))
}

/// Run an action. Requests that are only legal inside a manage sequence are
/// left to the next one, which the effect asks for.
pub fn run_action(data: &mut AppData, action: &str) -> (r: Effect)
    requires
        old(data).state@.wf(),
    ensures
        outcome(final(data)@, r) == action_run(old(data)@, action@),
        final(data).state@.wf(),
{
    proof {
        laws::actions_keep_wf(data@, action@);
    }
    let (name, arg): (&str, Option<&str>) = match text::split_once(action, ':') {
        Some((name, arg)) => (name, Some(arg)),
        None => (action, None),
    };
    if text::same(name, "spawn_terminal") {
        spawn_effect(data.config.terminal.as_str())
    } else if text::same(name, "spawn_launcher") {
        spawn_effect(data.config.launcher.as_str())
    } else if text::same(name, "spawn") {
        match arg {
            Some(command) => spawn_effect(command),
            None => no_effect(),
        }
    } else if text::same(name, "close") {
        queue_close(data)
    } else if text::same(name, "focus_next") {
        cycle_focus(data, true)
    } else if text::same(name, "focus_prev") {
        cycle_focus(data, false)
    } else if text::same(name, "focus_tag") {
        match parse_tag(arg) {
            Some(tag) => choose_tag(data, tag),
            None => no_effect(),
        }
    } else if text::same(name, "send_to_tag") {
        match parse_tag(arg) {
            Some(tag) => send_to_tag(data, tag),
            None => no_effect(),
        }
    } else if text::same(name, "fullscreen") {
        toggle_fullscreen(data)
    } else if text::same(name, "float") {
        toggle_float(data)
    } else if text::same(name, "focus_next_output") {
        cycle_output(data, true)
    } else if text::same(name, "focus_prev_output") {
        cycle_output(data, false)
    } else if text::same(name, "enter_resize_mode") {
        data.state.resize_mode = true;
        manage_effect()
    } else if text::same(name, "exit_resize_mode") {
        data.state.resize_mode = false;
        manage_effect()
    } else if text::same(name, "resize_step_left") {
        move_split(data, false)
    } else if text::same(name, "resize_step_right") {
        move_split(data, true)
    } else if text::same(name, "quit") {
        data.quit = true;
        no_effect()
    } else {
        no_effect()
    }
}

/// Whether the binding at an index has handle `handle`.
pub open spec fn has_handle(list: Seq<(u64, String)>, handle: u64) -> spec_fn(int) -> bool {
    |i: int| list[i].0 == handle
}

/// The action bound to a handle.
pub open spec fn bound_action(list: Seq<(u64, String)>, handle: u64) -> Option<String> {
    match search::least(list.len() as int, has_handle(list, handle)) {
        Some(i) => Some(list[i].1),
        None => None,
    }
}

/// The action bound to a handle.
pub fn find_bound(list: &Vec<(u64, String)>, handle: u64) -> (r: Option<String>)
    ensures
        r == bound_action(list@, handle),
{
    let mut i: usize = 0;
    while i < list.len()
        invariant
            i <= list@.len(),
            forall|k: int| 0 <= k < i ==> !(#[trigger] has_handle(list@, handle)(k)),
        decreases list@.len() - i,
    {
        if list[i].0 == handle {
            proof {
                let n = list@.len() as int;
                assert(search::is_least(n, has_handle(list@, handle), i as int));
                search::lemma_least_is(n, has_handle(list@, handle), i as int);
            }
            return Some(list[i].1.clone());
        }
        i += 1;
    }
    proof {
        search::lemma_least_none(list@.len() as int, has_handle(list@, handle));
    }
    None
}

/// Run the action of the keybinding that was triggered; nothing happens for a
/// binding that is not known.
pub fn dispatch_action(data: &mut AppData, triggered: u64) -> (r: Effect)
    requires
        old(data).state@.wf(),
    ensures
        outcome(final(data)@, r) == match bound_action(old(data).bindings@, triggered) {
            Some(action) => action_run(old(data)@, action@),
            None => unchanged(old(data)@),
        },
        final(data).state@.wf(),
{
    match find_bound(&data.bindings, triggered) {
        Some(action) => run_action(data, action.as_str()),
        None => no_effect(),
    }
}

} // verus!
