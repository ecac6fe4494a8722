//! What can happen to the window manager, one thing after another, and what
//! holds all along.
use vstd::prelude::*;

use crate::actions;
use crate::connection::AppModel;
use crate::control;
use crate::control::CommandModel;
use crate::events;
use crate::events::{OutputEvent, WindowEvent, WmEvent};
use crate::laws;
use crate::pointer;
use crate::seats;
use crate::seats::SeatEvent;
use crate::state;
use crate::state::StateModel;
use crate::wm::layout;
use crate::wm::manage;
use crate::wm::render;

verus! {

/// Something that happens to the window manager.
pub enum Step {
    /// An event of the window manager object.
    Wm(WmEvent),
    /// An event of the window with a protocol handle.
    Window(u64, WindowEvent),
    /// An event of the output with a protocol handle.
    Output(u64, OutputEvent),
    /// The area that panels leave free on an output.
    Area { layer: u64, x: i32, y: i32, width: i32, height: i32 },
    /// The connector name of the output with a registry id.
    OutputName(u32, String),
    /// An event of the seat with a protocol handle.
    Seat(u64, SeatEvent),
    /// A pointer binding that was pressed.
    Button(u64),
    /// An action that a keybinding asked for.
    Action(Seq<char>),
    /// A command from the control socket.
    Command(CommandModel),
    /// A manage sequence.
    Manage,
    /// A render sequence.
    Render,
}

/// The context after something happened.
#[verifier::opaque]
pub open spec fn stepped(d: AppModel, step: Step) -> AppModel {
    match step {
        Step::Wm(event) => events::wm_event(d, event),
        Step::Window(proxy, event) => events::window_event(d, proxy, event),
        Step::Output(proxy, event) => d.with_state(events::output_event(d.state, proxy, event)),
        Step::Area { layer, x, y, width, height } => d.with_state(
            events::area_known(d.state, layer, x, y, width, height),
        ),
        Step::OutputName(global, name) => d.with_state(
            events::output_named(d.state, global, name),
        ),
        Step::Seat(proxy, event) => seats::seat_event(d, proxy, event),
        Step::Button(binding) => match pointer::started_op(d, binding) {
            Some(op) => AppModel { pending_op: Some(op), ..d },
            None => d,
        },
        Step::Action(action) => actions::action_run(d, action).data,
        Step::Command(command) => control::command_applied(d, command).data,
        Step::Manage => manage::manage_plan(d).data,
        Step::Render => render::render_plan(d).data,
    }
}

/// Whether a step adds a window.
pub open spec fn adds_window(step: Step) -> bool {
    step matches Step::Wm(event) && event is Window
}

/// Whether there is an identifier left for a window that a step adds, and room
/// for an output.
pub open spec fn has_room(d: AppModel, step: Step) -> bool {
    match step {
        Step::Wm(WmEvent::Window { .. }) => d.state.next_window_id < u32::MAX,
        Step::Wm(WmEvent::Output { .. }) => d.state.outputs.len() < usize::MAX,
        _ => true,
    }
}

/// The context after a history.
pub open spec fn after(d: AppModel, steps: Seq<Step>) -> AppModel
    decreases steps.len(),
{
    if steps.len() == 0 {
        d
    } else {
        stepped(after(d, steps.drop_last()), steps.last())
    }
}

/// Whether there is room for every step of a history.
pub open spec fn has_room_for_all(d: AppModel, steps: Seq<Step>) -> bool {
    forall|i: int|
        0 <= i < steps.len() ==> has_room(#[trigger] after(d, steps.take(i)), steps[i])
}

/// Every step keeps the state well formed.
pub proof fn steps_keep_wf(d: AppModel, step: Step)
    requires
        d.state.wf(),
        has_room(d, step),
    ensures
        stepped(d, step).state.wf(),
{
    reveal(stepped);
    match step {
        Step::Wm(event) => laws::wm_events_keep_wf(d, event),
        Step::Window(proxy, event) => laws::window_events_keep_wf(d, proxy, event),
        Step::Output(proxy, event) => laws::output_events_keep_wf(d.state, proxy, event),
        Step::Area { layer, x, y, width, height } => laws::area_events_keep_wf(
            d.state,
            layer,
            x,
            y,
            width,
            height,
        ),
        Step::OutputName(global, name) => laws::output_names_keep_wf(d.state, global, name),
        Step::Seat(proxy, event) => laws::seat_events_keep_wf(d, proxy, event),
        Step::Button(_) => {},
        Step::Action(action) => laws::actions_keep_wf(d, action),
        Step::Command(command) => laws::commands_keep_wf(d, command),
        Step::Manage => laws::manage_keeps_wf(d),
        Step::Render => laws::render_keeps_wf(d),
    }
}

/// Whatever happens, the state stays well formed.
pub proof fn histories_keep_wf(d: AppModel, steps: Seq<Step>)
    requires
        d.state.wf(),
        has_room_for_all(d, steps),
    ensures
        after(d, steps).state.wf(),
    decreases steps.len(),
{
    if steps.len() > 0 {
        lemma_room_before(d, steps);
        histories_keep_wf(d, steps.drop_last());
        steps_keep_wf(after(d, steps.drop_last()), steps.last());
    }
}

/// With room for every step of a history there is room for the last one, and
/// for those before it.
proof fn lemma_room_before(d: AppModel, steps: Seq<Step>)
    requires
        has_room_for_all(d, steps),
        steps.len() > 0,
    ensures
        has_room_for_all(d, steps.drop_last()),
        has_room(after(d, steps.drop_last()), steps.last()),
{
    let before = steps.drop_last();
    assert(steps.take(steps.len() - 1) =~= before);
    assert(has_room(after(d, steps.take(steps.len() - 1)), steps[steps.len() - 1]));
    assert forall|i: int| 0 <= i < before.len() implies has_room(
        #[trigger] after(d, before.take(i)),
        before[i],
    ) by {
        assert(before.take(i) =~= steps.take(i));
        assert(has_room(after(d, steps.take(i)), steps[i]));
    }
}

/// Repairing outputs leaves the identifier of the next window.
proof fn lemma_repairs_keep_counter(s: StateModel, n: int)
    ensures
        s.repaired_up_to(n).next_window_id == s.next_window_id,
    decreases n,
{
    if n > 0 {
        lemma_repairs_keep_counter(s, n - 1);
    }
}

/// Normalizing leaves the identifier of the next window.
proof fn lemma_normalizing_keeps_counter(s: StateModel)
    ensures
        s.normalized().next_window_id == s.next_window_id,
{
    lemma_repairs_keep_counter(s.focus_checked(), s.outputs.len() as int);
}

/// An output that appears leaves the identifier of the next window.
proof fn lemma_output_keeps_counter(s: StateModel, proxy: u64, layer: Option<u64>)
    ensures
        events::output_added(s, proxy, layer).next_window_id == s.next_window_id,
{
    let o = s.outputs.len() as usize;
    let pushed = StateModel { outputs: s.outputs.push(state::new_output(proxy)), ..s };
    let given = match pushed.free_tag() {
        Some(t) => pushed.with_owner(t, Some(o)).with_active(o as int, t as usize),
        None => pushed,
    };
    lemma_normalizing_keeps_counter(given);
    lemma_normalizing_keeps_counter(pushed);
}

/// Actions leave the identifier of the next window.
proof fn lemma_actions_keep_counter(d: AppModel, action: Seq<char>)
    ensures
        actions::action_run(d, action).data.state.next_window_id == d.state.next_window_id,
{
    let holds = |t: StateModel| t.next_window_id == d.state.next_window_id;
    laws::lemma_acted(d, actions::action_name(action), actions::action_arg(action), holds);
    assert(holds(actions::action_run(d, action).data.state));
}

/// Events of outputs leave the identifier of the next window.
proof fn lemma_outputs_keep_counter(s: StateModel, proxy: u64, event: OutputEvent)
    ensures
        events::output_event(s, proxy, event).next_window_id == s.next_window_id,
{
    if let Some(o) = events::output_by_proxy(s, proxy) {
        lemma_normalizing_keeps_counter(events::output_changed(s, o, event));
    }
}

/// Areas that panels leave free leave the identifier of the next window.
proof fn lemma_areas_keep_counter(
    s: StateModel,
    layer: u64,
    x: i32,
    y: i32,
    width: i32,
    height: i32,
)
    ensures
        events::area_known(s, layer, x, y, width, height).next_window_id == s.next_window_id,
{
    if let Some(o) = events::output_by_layer(s, layer) {
        lemma_normalizing_keeps_counter(events::area_changed(s, o, x, y, width, height));
    }
}

/// A manage sequence leaves the identifier of the next window.
proof fn lemma_manage_keeps_counter(d: AppModel)
    ensures
        manage::manage_plan(d).data.state.next_window_id == d.state.next_window_id,
{
    let before = manage::settled(d);
    let list = layout::layout(manage::all_refocused(d.state), d.config.gap);
    manage::lemma_cells_proposed(before.data.state, list);
}

/// Events of windows leave the identifier of the next window.
proof fn lemma_windows_keep_counter(d: AppModel, proxy: u64, event: WindowEvent)
    ensures
        events::window_event(d, proxy, event).state.next_window_id == d.state.next_window_id,
{
}

/// Events of seats leave the identifier of the next window.
proof fn lemma_seats_keep_counter(d: AppModel, proxy: u64, event: SeatEvent)
    ensures
        seats::seat_event(d, proxy, event).state.next_window_id == d.state.next_window_id,
{
}

/// Commands leave the identifier of the next window.
proof fn lemma_commands_keep_counter(d: AppModel, command: CommandModel)
    ensures
        control::command_applied(d, command).data.state.next_window_id == d.state.next_window_id,
{
}

/// A step that adds a window hands out the next identifier; no other step does,
/// and none takes one back, not even when a window closes.
pub proof fn steps_hand_out_identifiers(d: AppModel, step: Step)
    requires
        has_room(d, step),
    ensures
        stepped(d, step).state.next_window_id == d.state.next_window_id + (if adds_window(step) {
            1int
        } else {
            0
        }),
        adds_window(step) ==> stepped(d, step).state.windows.last().id == d.state.next_window_id,
{
    reveal(stepped);
    match step {
        Step::Wm(event) => {
            if let WmEvent::Output { proxy, layer } = event {
                lemma_output_keeps_counter(d.state, proxy, layer);
            }
        },
        Step::Window(proxy, event) => lemma_windows_keep_counter(d, proxy, event),
        Step::Output(proxy, event) => lemma_outputs_keep_counter(d.state, proxy, event),
        Step::Area { layer, x, y, width, height } => lemma_areas_keep_counter(
            d.state,
            layer,
            x,
            y,
            width,
            height,
        ),
        Step::Seat(proxy, event) => lemma_seats_keep_counter(d, proxy, event),
        Step::Action(action) => lemma_actions_keep_counter(d, action),
        Step::Command(command) => lemma_commands_keep_counter(d, command),
        Step::Manage => lemma_manage_keeps_counter(d),
        _ => {},
    }
}

/// A longer history has handed out no fewer identifiers.
pub proof fn identifiers_only_grow(d: AppModel, steps: Seq<Step>, i: int, j: int)
    requires
        has_room_for_all(d, steps),
        0 <= i <= j <= steps.len(),
    ensures
        after(d, steps.take(i)).state.next_window_id <= after(
            d,
            steps.take(j),
        ).state.next_window_id,
    decreases j - i,
{
    if i < j {
        let step = steps[j - 1];
        let before = after(d, steps.take(j - 1));
        identifiers_only_grow(d, steps, i, j - 1);
        assert(steps.take(j).drop_last() =~= steps.take(j - 1));
        assert(steps.take(j).last() == step);
        assert(has_room(before, step));
        steps_hand_out_identifiers(before, step);
    }
}

/// No identifier is handed out twice: a window that is added later has a larger
/// one than every window that was added before, whether or not that one is
/// still open. The first is at least 1.
pub proof fn identifiers_are_never_reused(d: AppModel, steps: Seq<Step>, i: int, j: int)
    requires
        d.state.wf(),
        has_room_for_all(d, steps),
        0 <= i < j < steps.len(),
        adds_window(steps[i]),
        adds_window(steps[j]),
    ensures
        1 <= after(d, steps.take(i + 1)).state.windows.last().id < after(
            d,
            steps.take(j + 1),
        ).state.windows.last().id,
{
    let first = after(d, steps.take(i));
    let second = after(d, steps.take(j));
    assert(steps.take(i + 1).drop_last() =~= steps.take(i));
    assert(steps.take(j + 1).drop_last() =~= steps.take(j));
    assert(has_room(first, steps[i]));
    assert(has_room(second, steps[j]));
    steps_hand_out_identifiers(first, steps[i]);
    steps_hand_out_identifiers(second, steps[j]);
    identifiers_only_grow(d, steps, 0, i);
    identifiers_only_grow(d, steps, i + 1, j);
    assert(steps.take(0) =~= Seq::empty());
}

} // verus!
