//! A lightweight service registry and liveness monitor for a fleet of
//! model-serving backends.
//!
//! The library holds the registry state machine: registration
//! (last-write-wins upsert keyed by a percent-decoded identifier),
//! membership listing serialized as JSON, request routing, and the
//! threshold-based eviction rule applied by a recurring health sweep.
//! Network plumbing (HTTP server, probe requests, timers) lives outside
//! the library and hands it plain values.

pub mod api;
pub mod json;
pub mod laws;
pub mod monitor;
pub mod parse;
pub mod record;
pub mod registry;
pub mod text;
