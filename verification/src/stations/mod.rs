//! The stations of the line.

pub mod die_attach;
pub mod final_test;
pub mod inspection;
pub mod instance;
pub mod laws;
pub mod mold_cure;
pub mod probe_intake;
pub mod twin;
pub mod wire_bond;
