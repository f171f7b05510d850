//! Verified core of a `.env` buildpack: it resolves the name of the
//! environment file from configuration, parses the file's `KEY=VALUE` lines,
//! and assembles the environment patch that a build orchestrator records
//! into an image layer. File access and the orchestrator's lifecycle wiring
//! live outside this library; its functions work on plain values.

pub mod filename;
pub mod parse;
pub mod plan;
