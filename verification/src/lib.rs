//! A verified account directory and directed follow graph.
//!
//! The crate models the persistence core of a social service: user accounts
//! keyed by username, a role registry resolving role names to privilege
//! levels, a read-through cache of account snapshots, and a directed
//! follow-edge graph stored as append-only log entries. Every operation is
//! specified by a contract over the mathematical view of the state, and the
//! structural invariants (unique usernames, at most one edge per ordered
//! pair, cache coherence) are proved to be preserved.

pub mod database;
pub mod errors;
pub mod follows;
pub mod ids;
pub mod pages;
pub mod username;
pub mod users;
