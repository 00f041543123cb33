//! Translation of untrusted logger-configuration payloads into trusted
//! commands: strict schema validation of a raw byte payload, a tagged
//! command value on success, a classified error on failure, and request
//! counters that fire exactly once per request.
//!
//! The wire grammar and the meaning of every payload are stated
//! mathematically in [`grammar`]; the executable decoder in [`decode`]
//! is proved to return exactly that meaning, and [`laws`] proves the
//! round-trip and rejection guarantees on top of it.

pub mod config;
pub mod decode;
pub mod grammar;
pub mod laws;
pub mod metrics;
pub mod translate;
