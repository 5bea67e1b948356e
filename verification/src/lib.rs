//! A verified scene-graph patch engine.
//!
//! The library keeps an in-memory tree of typed, named instances and applies
//! structured patches to it: slash-delimited paths are resolved by name, a
//! fixed roster of well-known container nodes is provisioned idempotently,
//! property descriptions are decoded from an untyped JSON shape into typed
//! values, and whole subtrees are added or destroyed in one pass.

pub mod text;
pub mod json;
pub mod props;
pub mod graph;
pub mod resolve;
pub mod provision;
pub mod apply;
pub mod gemini;
