//! Policy checks for exported data-pipeline definitions.
//!
//! An artifact is one JSON document. A rule names the artifacts it applies to
//! by their containing folder, may gate on a precondition, selects locations
//! in the document with a JSONPath expression and checks each located value
//! with a guard. Every located value that fails the guard yields a violation.
//!
//! The engine is verified: each public function states in its contract what it
//! returns. Calls into `serde_json`, `serde_json_path` and `regex` go through
//! the trusted items of the `outside` module.

pub mod config;
pub mod engine;
pub mod guards;
pub mod json;
pub mod laws;
pub mod location;
pub mod orchestrator;
pub mod outside;
pub mod report;
pub mod text;
