//! What holds of the stations, in terms of what they are given and what they
//! put out.

pub mod die_attach;
pub mod final_test;
pub mod inspection;
pub mod instance;
pub mod mold_cure;
pub mod probe_intake;
pub mod wire_bond;
