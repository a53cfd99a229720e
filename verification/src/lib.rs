//! Evaluation core for context-aware experimentation: targeting-context
//! dimension extraction, context-overlap detection, experiment conflict
//! validation, variant composition and override-coverage checks, and
//! configuration prefix filtering.

pub mod config;
pub mod context;
pub mod experiment;
pub mod json;
pub mod json_map;
pub mod validate;
