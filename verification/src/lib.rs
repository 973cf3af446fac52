//! Chariot's configuration and source-fetching rules, verified.
pub mod config;
pub mod eval;
pub mod local;
pub mod source;
pub mod report;
