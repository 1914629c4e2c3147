//! The factory simulator: what it plays, and when.

pub mod catalog;
pub mod control;
pub mod frames;
pub mod laws;
pub mod play;
pub mod stamp;
pub mod tick;
