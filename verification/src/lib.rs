//! Layout engine for arithmetic circuits.
//!
//! Arithmetic requests are recorded in a ledger ([`records::Records`]) that
//! assigns every witness value and coefficient to a lane and a step of one of
//! two functional units and remembers which cells must later be constrained
//! equal. When the circuit is complete the ledger is turned into the ordered
//! list of placements that the proof system has to carry out.

pub mod assign;
pub mod cells;
pub mod context;
pub mod decomposition;
pub mod error;
pub mod field;
pub mod laws;
pub mod layout;
pub mod ledger;
pub mod materialize;
pub mod plan_laws;
pub mod range;
pub mod records;
pub mod soundness;
