//! Verified core of a set of nodes for a simulated distributed system.
//!
//! Nodes exchange newline-delimited JSON envelopes over stdio. This crate
//! holds the verified logic: the protocol envelope and its correlation
//! rules, the output-identifier counter, the outbound-RPC correlation
//! table, and the node state machines (gossip broadcast, commit log,
//! grow-only counter, echo, unique ids). The surrounding I/O loop lives
//! outside the library and hands envelopes in and out as plain values.

pub mod broadcast;
pub mod convergence;
pub mod counter;
pub mod decimal;
pub mod echo;
pub mod fault_tolerant;
pub mod kafka;
pub mod protocol;
pub mod sender;
pub mod seq_kv;
pub mod service;
pub mod single_node;
pub mod unique;
pub mod vset;
