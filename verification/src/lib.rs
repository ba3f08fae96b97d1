//! Propagation of key-value context through a call graph, so that log events
//! carry the fields that their ancestors supplied.

pub mod order;
pub mod fields;
pub mod text;
pub mod context;
pub mod stack;
pub mod global;
pub mod render;
pub mod guard;
pub mod engine;
pub mod laws;
pub mod naming;
