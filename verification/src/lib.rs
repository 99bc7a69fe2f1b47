//! Core logic of a resilient fetch client and a download task manager.
//!
//! The library models the persistent store (download records, cookies,
//! settings) as verified in-memory state, and states the task lifecycle,
//! cookie handling, fingerprint-consistent header synthesis and challenge
//! detection as contracts that are proved. All network and disk I/O lives
//! outside the library and hands plain values in and out.

pub mod cookies;
pub mod domain;
pub mod errors;
pub mod fetch;
pub mod fingerprint;
pub mod manager;
pub mod store;
pub mod task;
pub mod text;
pub mod topic;
