//! A verified core for a file-based plugin marketplace.
//!
//! The library models the marketplace state — the manifest file and the
//! plugin directories — as an explicit in-memory filesystem value ([`fsm::Fs`]),
//! so that the transactional mutation pipelines (add, remove, update) and the
//! backup guard protecting them can be specified and verified end to end.
//! Callers that work against a real disk load the relevant files into an
//! [`fsm::Fs`], run a pipeline, and write the result back.

pub mod add;
pub mod ci;
pub mod config;
pub mod errors;
pub mod fsm;
pub mod json;
pub mod guard;
pub mod hooks;
pub mod init;
pub mod paths;
pub mod prune;
pub mod remove;
pub mod resolution;
pub mod review;
pub mod skills;
pub mod strnum;
pub mod types;
pub mod update;
pub mod validation;
pub mod workflows;
pub mod version;
pub mod version_constraint;
