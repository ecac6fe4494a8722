# streamwm

The window management policy of a tiling window manager for the
[river](https://isaacfreund.com/software/river) Wayland compositor, as a library
whose behaviour is stated in contracts and proved with Verus.

- `src/state.rs` holds the data model: outputs, seats, windows and the nine
  global tags; `src/invariants.rs` and `src/repair.rs` state what its operations
  keep and achieve.
- `src/actions.rs`, `src/bindings.rs` and `src/pointer.rs` hold keybindings, the
  actions that they run, and interactive moving and resizing.
- `src/events.rs` and `src/seats.rs` say what the compositor's events do;
  `src/wm/` holds the tiling layout, the manage and render sequences (as lists of
  the requests in `src/request.rs`), and how commands are run.
- `src/status.rs`, `src/control.rs`, `src/json.rs` and `src/subscribers.rs` hold
  the status socket: snapshots, commands, and the clients that are kept up to
  date.
- `src/lid.rs` and `src/monitor.rs` decide which output profile to switch to;
  `src/supervisor.rs` decides when a failed worker is restarted.
- `src/laws.rs`, `src/keys.rs`, `src/modifiers.rs` and `src/wm/sequences.rs` state
  what holds across these parts, and `src/history.rs` what holds whatever happens
  and in whatever order.
- `app/` is the program around the library: the Wayland connection, the socket,
  the configuration file and the supervised worker process.

Fractions are held in billionths, times in milliseconds, and protocol objects are
named by handles that the program hands out. Functions that would leave the range
of 32-bit coordinates require that they do not. Each such condition has a function
that tests it, or that tests it on the way and says whether it held.
