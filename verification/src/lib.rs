//! A small in-memory key/value store that answers one-line requests
//! (`PING`, `SET`, `GET`, `DEL`, `KEYS`, `EXPIRE`, `TTL`, `INCR`, `DECR`, `SAVE`).
//!
//! The store keeps its entries ordered by key, entries may carry an expiry
//! deadline, and every command is specified over an abstract map from keys to
//! entries.

pub mod command;
pub mod keyorder;
pub mod number;
pub mod store;
pub mod listing;
pub mod json;
pub mod handler;
pub mod error;
pub mod expiry;
pub mod laws;
