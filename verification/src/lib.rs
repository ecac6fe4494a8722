//! Window management policy for the river compositor: tags, focus, tiling,
//! floating windows, keybindings, the control socket, lid switching and worker
//! supervision, each a function on plain values with a proved contract.
pub mod actions;
pub mod bindings;
pub mod bounds;
pub mod changes;
pub mod config;
pub mod connection;
pub mod control;
pub mod deeds;
pub mod events;
pub mod fresh;
pub mod history;
pub mod invariants;
pub mod json;
pub mod keymap;
pub mod keys;
pub mod laws;
pub mod lid;
pub mod modifiers;
pub mod monitor;
pub mod pointer;
pub mod repair;
pub mod request;
pub mod search;
pub mod seats;
pub mod state;
pub mod status;
pub mod subscribers;
pub mod supervisor;
pub mod tags;
pub mod text;
pub mod wm;
