//! Window management: layout, spawning, and the manage and render sequences.
pub mod drawn;
pub mod effects;
pub mod layout;
pub mod manage;
pub mod render;
pub mod sequences;
pub mod spawn;
pub mod tiles;
