//! Persistence and integrity core of a local-first markdown editor.
//!
//! The library holds the logic that must be correct under partial failure:
//! optimistic-concurrency conflict detection on save, a content-addressed
//! snapshot history with dedup, autosave coalescing and bounded retention,
//! workspace listing and multi-token search, and a markdown link/anchor
//! validator. All filesystem, clock and network access stays with the
//! caller, which hands the results in as plain values.

pub mod assets;
pub mod errors;
pub mod hashing;
pub mod history;
pub mod links;
pub mod listing;
pub mod paths;
pub mod saving;
pub mod search;
pub mod text;
