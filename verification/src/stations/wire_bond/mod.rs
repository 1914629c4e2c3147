//! Wire bond: windows of bonds per bonder, and a replay when the power of
//! one sags.

pub mod laws;
pub mod session;
pub mod window;
