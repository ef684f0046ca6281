//! The native core of an algorithmic-trading engine: the authoritative
//! trading state (account ledger, per-symbol positions, order books), a
//! namespaced persistent store for price bars and replay cursors, and the
//! lifecycle clock that lays out strategy callbacks in dispatch order.
//!
//! Every operation takes an explicit handle — an engine slot, an engine, a
//! store — so several engines can coexist under test while each slot still
//! enforces at most one engine for its lifetime. The embedding shell is
//! expected to keep one slot behind one process-wide exclusive lock, to do
//! all I/O and logging, and to run the dispatch plans this crate computes.
pub mod api;
pub mod clock;
pub mod codec;
pub mod date;
pub mod decimal;
pub mod engine;
pub mod env;
pub mod errors;
pub mod id;
pub mod models;
pub mod paths;
pub mod storage;
pub mod types;
