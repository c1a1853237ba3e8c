//! Agentless fleet monitoring: a pooled SSH connection registry, command
//! failure classification, the composite probe parsers and the job ledger
//! and scheduling rules built on them.

pub mod config;
pub mod executor;
pub mod history;
pub mod jobs;
pub mod models;
pub mod parse;
pub mod pool;
pub mod probe;
pub mod schedule;
pub mod text;
