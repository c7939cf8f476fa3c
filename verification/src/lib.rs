//! Unified service management: canonical service specifications, their
//! layering, dependency ordering, and translation into the native
//! configuration formats of systemd, launchd and supervisord.

pub mod text;
pub mod error;
pub mod strmap;
pub mod types;
pub mod json;
pub mod graph;
pub mod merge;
pub mod diff;
pub mod render;
pub mod engine;
pub mod cli;
