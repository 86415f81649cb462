//! Points-to analysis of one function body.
//!
//! The analysis is inclusion-based and field-sensitive. It collects
//! constraints from the assignments and calls of a body into a constraint
//! graph, and then propagates points-to sets along the graph until nothing
//! changes.

pub mod alias;
pub mod andersen;
pub mod bits;
pub mod collector;
pub mod graph;
pub mod node;
pub mod solution;
