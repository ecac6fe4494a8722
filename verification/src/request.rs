//! The requests that are sent to the compositor.
use vstd::prelude::*;

use crate::connection::{AppModel, Edges};

verus! {

/// What a window manager can do for a window.
#[derive(Clone, Copy, PartialEq, Eq, Debug, Structural)]
pub struct Capabilities {
    pub window_menu: bool,
    pub maximize: bool,
    pub fullscreen: bool,
    pub minimize: bool,
}

/// A request to the compositor. Windows, outputs, seats, layer-shell outputs
/// and bindings are named by the handles of their protocol objects.
#[derive(Clone, Copy, PartialEq, Eq, Debug, Structural)]
pub enum Request {
    /// Start an interactive pointer operation.
    OpStartPointer { seat: u64 },
    /// End the interactive pointer operation.
    OpEnd { seat: u64 },
    /// Ask a window to close.
    Close { window: u64 },
    /// Tell a window what is supported.
    SetCapabilities { window: u64, capabilities: Capabilities },
    /// Decorate a window on the server side.
    UseSsd { window: u64 },
    /// Let a window decorate itself.
    UseCsd { window: u64 },
    /// Make a window fullscreen on an output.
    Fullscreen { window: u64, output: u64 },
    /// Tell a window that it is maximized.
    InformMaximized { window: u64 },
    /// Tell a window that it is fullscreen.
    InformFullscreen { window: u64 },
    /// Take a window out of fullscreen.
    ExitFullscreen { window: u64 },
    /// Tell a window that it is no longer maximized.
    InformUnmaximized { window: u64 },
    /// Tell a window that it is no longer fullscreen.
    InformNotFullscreen { window: u64 },
    /// Make an output the default one for layer-shell surfaces.
    SetDefaultLayer { layer: u64 },
    /// Give a window the keyboard focus of a seat.
    FocusWindow { seat: u64, window: u64 },
    /// Take the keyboard focus of a seat away.
    ClearFocus { seat: u64 },
    /// Propose content dimensions to a window.
    ProposeDimensions { window: u64, width: i32, height: i32 },
    /// Enable a keybinding.
    EnableBinding { binding: u64 },
    /// Disable a keybinding.
    DisableBinding { binding: u64 },
    /// Enable a pointer binding.
    EnablePointerBinding { binding: u64 },
    /// Move the pointer of a seat.
    WarpPointer { seat: u64, x: i32, y: i32 },
    /// End a manage sequence.
    ManageFinish,
    /// Hide a window.
    Hide { window: u64 },
    /// Show a window.
    Show { window: u64 },
    /// Create the render node of a window.
    GetNode { window: u64 },
    /// Position the render node of a window.
    SetPosition { window: u64, x: i32, y: i32 },
    /// Put the render node of a window above all others.
    PlaceTop { window: u64 },
    /// Draw the borders of a window.
    SetBorders {
        window: u64,
        edges: Edges,
        width: i32,
        red: u32,
        green: u32,
        blue: u32,
        alpha: u32,
    },
    /// End a render sequence.
    RenderFinish,
}

impl Request {
    /// Whether the request changes render state, which is legal in manage and
    /// in render sequences alike. All others but the one that ends a render
    /// sequence are legal in manage sequences only.
    pub open spec fn renders(self) -> bool {
        self is Hide || self is Show || self is GetNode || self is SetPosition || self is PlaceTop
            || self is SetBorders
    }
}

/// A context, and the requests sent on the way to it.
#[verifier::ext_equal]
pub struct Plan {
    pub data: AppModel,
    pub requests: Seq<Request>,
}

impl Plan {
    /// The plan with more requests sent.
    pub open spec fn sending(self, requests: Seq<Request>) -> Plan {
        Plan { requests: self.requests + requests, ..self }
    }

    /// The plan with another context.
    pub open spec fn with_data(self, data: AppModel) -> Plan {
        Plan { data, ..self }
    }
}

/// The plan made of a context and a list of requests.
pub open spec fn plan(data: AppModel, requests: Seq<Request>) -> Plan {
    Plan { data, requests }
}

} // verus!
