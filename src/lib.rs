//! Invariant enforcement for a transactional directory entry store: entries
//! with a typed lifecycle, the SPN plugin that derives principal names, a
//! write-transaction orchestrator and a read-only consistency verifier.

pub mod config;
pub mod entry;
pub mod error;
pub mod lemmas;
pub mod login;
pub mod server;
pub mod spn;
