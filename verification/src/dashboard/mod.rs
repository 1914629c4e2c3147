//! The line dashboard: what is folded into its model, and what it serves.

pub mod counts;
pub mod details;
pub mod faults;
pub mod fold;
pub mod handle;
pub mod laws;
pub mod model;
pub mod ring;
pub mod serve;
pub mod shown;
