//! Verified core of a proxy-subscription aggregator: it merges cached
//! subscription dumps with a base configuration, derives per-region routing
//! groups, keeps a sequence-numbered snapshot history of the configuration
//! text with diff and rollback, and models the live serving state.
//!
//! All I/O (files, network, timers) lives outside this crate; every function
//! here is a total computation over plain values, specified and verified.

pub mod config;
pub mod notifications;
pub mod proxy;
pub mod rules;
pub mod server;
pub mod storage;
pub mod subscription;
pub mod text;
pub mod types;
pub mod version;
