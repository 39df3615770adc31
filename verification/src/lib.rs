//! Core of a primary-secondary replicated append-only message log.
//!
//! The master accepts client writes, assigns each a fresh identifier and a
//! monotone order, and fans replicas out to a dynamically changing set of
//! secondary nodes.  Secondaries validate inbound replicas for duplication
//! and ordering, tolerate out-of-order and lost messages, and rejoin the
//! cluster after transient failures with an automatic catch-up procedure.
//!
//! This crate holds the replication and membership engine itself: the data
//! and every decision the system takes, stated in contracts and verified.
//! Transport, timers and the HTTP surface drive these state machines from
//! outside.

pub mod breaker;
pub mod health;
pub mod master;
pub mod message;
pub mod replica;
pub mod retry;
pub mod secondary;
