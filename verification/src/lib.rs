//! Verified core of a retrospective-board backend.
//!
//! Accounts own boards, and boards hold categorized tickets
//! ("Keep" / "Problem" / "Try").  The modules here carry the decision
//! logic of the service: entities and their invariants, the ownership
//! and visibility policy, the reconciliation engine that aligns a
//! board's persisted tickets with a submitted snapshot, and the query
//! assembler that reshapes tickets into the categorized client view.
//! Storage and transport stay outside; they hand these functions plain
//! values and execute the operation plans they return.

pub mod assemble;
pub mod auth;
pub mod entities;
pub mod errors;
pub mod model;
pub mod parse;
pub mod payload;
pub mod reconcile;
pub mod request;
pub mod services;

mod clock;
