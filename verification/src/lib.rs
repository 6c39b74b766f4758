//! A crash-safe file deduplication engine.
//!
//! Content-identical files under a target directory are replaced with
//! symlinks to one canonical copy kept in a private side-store
//! (`.mirage/`).  Every filesystem mutation is first planned as an
//! `Action` in a write-ahead journal, so an interrupted run can resume
//! and a completed run can be reverted losslessly.
//!
//! This crate holds the verified core: the action algebra and its
//! inversion, the journal and redirection model, the planner, and the
//! executor and reverter, proved against an in-memory filesystem model.
//! Real filesystem traffic (directory walking, copying, symlinking,
//! journal persistence) is driven by a thin unverified shell that feeds
//! plain values to this core.

pub mod action;
pub mod assoc;
pub mod compare;
pub mod engine;
pub mod executor;
pub mod laws;
pub mod memfs;
pub mod planner;
pub mod wal;
