//! Static detection of atomic operations whose memory ordering is weaker
//! or stronger than necessary.
//!
//! The checker reads a program as function bodies made of basic blocks
//! ([`ir`]) and as a call graph ([`callgraph`]). It finds the calls of atomic
//! operations ([`atomic`]), computes what the locals of each calling
//! function may point to ([`pointsto`]) and which blocks decide whether
//! others run ([`controldep`]), gathers the calls that work on the same
//! memory ([`atompart`], [`correlation`]), and holds the ordering that each
//! call names against the least ordering that the calls on the same memory
//! require of it ([`ordering`], [`detector`], [`report`]).

pub mod atomic;
pub mod atompart;
pub mod callbacks;
pub mod callgraph;
pub mod controldep;
pub mod correlation;
pub mod detector;
pub mod fx;
pub mod ir;
pub mod ordering;
pub mod ownership;
pub mod pointsto;
pub mod report;
pub mod text;
