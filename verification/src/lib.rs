//! Core of a desktop control panel that runs external maintenance scripts.
//!
//! The crate verifies the orchestration logic around those scripts: a
//! persisted store of named boolean switches, a pure resolver from switch
//! names to script paths, a job runner that tracks one in-flight background
//! job, and a dispatcher that hands the job's outcome back to a
//! single-threaded presentation loop.

pub mod config;
pub mod dispatch;
pub mod errors;
pub mod jobs;
pub mod panel;
pub mod resolver;
pub mod store;
pub mod text;
