//! The dispatch context: the state and configuration, and what is queued for
//! the next manage sequence.
use vstd::prelude::*;

use crate::config::Config;
use crate::invariants;
use crate::state;
use crate::state::{State, StateModel, MAX_FRACTION, MIN_FRACTION};

verus! {

/// The dispatch context of the event loop.
pub struct AppData {
    /// The window manager state.
    pub state: State,
    /// The configuration.
    pub config: Config,
    /// Whether the event loop should end.
    pub quit: bool,
    /// Handles of the registered keybindings and their actions.
    pub bindings: Vec<(u64, String)>,
    /// Whether a default layer-shell output has been set.
    pub layer_default_set: bool,
    /// Windows to be closed in the next manage sequence.
    pub pending_close: Vec<u32>,
    /// Handles of the registered pointer bindings, each for `"move"` or `"resize"`.
    pub pointer_bindings: Vec<(u64, String)>,
    /// The pointer operation under way.
    pub pointer_op: Option<PointerOp>,
    /// The pointer operation to start in the next manage sequence.
    pub pending_op: Option<PointerOp>,
    /// Whether the pointer operation should end in the next manage sequence.
    pub op_end_requested: bool,
    /// The output that the pointer should be warped to.
    pub pending_pointer_warp: Option<usize>,
}

/// An interactive pointer operation on a floating window.
#[derive(Clone, Copy)]
pub struct PointerOp {
    /// The window being moved or resized.
    pub window: u32,
    /// Whether it is moved or resized.
    pub kind: OpKind,
    /// Pointer X position at the start.
    pub start_x: i32,
    /// Pointer Y position at the start.
    pub start_y: i32,
    /// Window X coordinate at the start.
    pub start_float_x: i32,
    /// Window Y coordinate at the start.
    pub start_float_y: i32,
    /// Window width at the start.
    pub start_w: u32,
    /// Window height at the start.
    pub start_h: u32,
    /// The edges being resized; none for a move.
    pub edges: Edges,
    /// Handle of the seat that drives the operation.
    pub seat: u64,
}

/// Kind of interactive pointer manipulation.
#[derive(Clone, Copy, PartialEq, Eq, Debug, Structural)]
pub enum OpKind {
    /// The window is moved.
    Move,
    /// The window is resized.
    Resize,
}

/// A set of window edges.
#[derive(Clone, Copy, PartialEq, Eq, Debug, Structural)]
pub struct Edges {
    pub top: bool,
    pub bottom: bool,
    pub left: bool,
    pub right: bool,
}

/// The mathematical model of an [`AppData`].
#[verifier::ext_equal]
pub struct AppModel {
    pub state: StateModel,
    pub config: Config,
    pub quit: bool,
    pub bindings: Seq<(u64, String)>,
    pub layer_default_set: bool,
    pub pending_close: Seq<u32>,
    pub pointer_bindings: Seq<(u64, String)>,
    pub pointer_op: Option<PointerOp>,
    pub pending_op: Option<PointerOp>,
    pub op_end_requested: bool,
    pub pending_pointer_warp: Option<usize>,
}

impl View for AppData {
    type V = AppModel;

    open spec fn view(&self) -> AppModel {
        AppModel {
            state: self.state@,
            config: self.config,
            quit: self.quit,
            bindings: self.bindings@,
            layer_default_set: self.layer_default_set,
            pending_close: self.pending_close@,
            pointer_bindings: self.pointer_bindings@,
            pointer_op: self.pointer_op,
            pending_op: self.pending_op,
            op_end_requested: self.op_end_requested,
            pending_pointer_warp: self.pending_pointer_warp,
        }
    }
}

impl AppModel {
    /// The context with another state.
    pub open spec fn with_state(self, state: StateModel) -> AppModel {
        AppModel { state, ..self }
    }

    /// The window focused on the active output, if any.
    pub open spec fn focused_window(self) -> Option<u32> {
        match self.state.active_output() {
            Some(o) => self.state.outputs[o as int].focused_window,
            None => None,
        }
    }
}

/// A context with nothing registered and nothing queued.
pub open spec fn fresh_context(state: StateModel, config: Config) -> AppModel {
    AppModel {
        state,
        config,
        quit: false,
        bindings: Seq::empty(),
        layer_default_set: false,
        pending_close: Seq::empty(),
        pointer_bindings: Seq::empty(),
        pointer_op: None,
        pending_op: None,
        op_end_requested: false,
        pending_pointer_warp: None,
    }
}

impl AppData {
    /// A context with nothing registered and nothing queued.
    pub fn new(state: State, config: Config) -> (r: AppData)
        ensures
            r@ == fresh_context(state@, config),
    {
        AppData {
            state,
            config,
            quit: false,
            bindings: Vec::new(),
            layer_default_set: false,
            pending_close: Vec::new(),
            pointer_bindings: Vec::new(),
            pointer_op: None,
            pending_op: None,
            op_end_requested: false,
            pending_pointer_warp: None,
        }
    }

    /// A context at the start: no outputs, seats or windows, and the configured
    /// master fraction on every tag, brought into the legal range.
    pub fn start(config: Config) -> (r: AppData)
        ensures
            r@ == fresh_context(
                state::fresh_state(
                    state::clamped(
                        config.master_fraction as int,
                        MIN_FRACTION as int,
                        MAX_FRACTION as int,
                    ) as i64,
                ),
                config,
            ),
            r.state@.wf(),
    {
        let fraction: i64 = if config.master_fraction < MIN_FRACTION {
            MIN_FRACTION
        } else if config.master_fraction > MAX_FRACTION {
            MAX_FRACTION
        } else {
            config.master_fraction
        };
        let state = State::new(fraction);
        proof {
            invariants::fresh_state_is_wf(fraction);
        }
        AppData::new(state, config)
    }

    /// The window focused on the active output, if any.
    pub fn focused_window(&self) -> (r: Option<u32>)
        requires
            self.state@.focused_output matches Some(f) ==> f < self.state.outputs@.len(),
        ensures
            r == self@.focused_window(),
    {
        match self.state.active_output() {
            Some(o) => self.state.outputs[o].focused_window,
            None => None,
        }
    }
}

} // verus!
