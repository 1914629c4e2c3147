//! The Fab 3 assembly line.

pub mod clock;
pub mod dashboard;
pub mod json;
pub mod kafka;
pub mod measure;
pub mod ordered_map;
pub mod random;
pub mod simulator;
pub mod stations;
pub mod stats;
pub mod text;
