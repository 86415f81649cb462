//! The detector: pairs the atomic operations on the same memory, finds the
//! ordering that each of them requires, and reports the operations whose
//! ordering is weaker or stronger than that.

pub mod atomptr;
pub mod cluster;
pub mod collect;
pub mod detect;
pub mod factors;
pub mod gather;
pub mod guarantees;
pub mod rules;
