//! Finality-tracking and crash-recovery support for a BFT consensus node.
//!
//! The crate answers three questions asked continuously around a node's block
//! store: what is the justified/finalized/best status of a block
//! ([`chain_status`]); how often and how deep do competing-chain
//! reorganizations occur, and which self-authored blocks lost the race
//! ([`chain_state`], [`metrics`]); and how does a consensus session survive a
//! process crash without losing or duplicating committed progress
//! ([`backup`]).
//!
//! The block store itself is an external collaborator, reached only through
//! the [`backend::ChainBackend`] capability interface; [`memory`] provides a
//! verified in-memory implementation of it.

pub mod ancestry;
pub mod backend;
pub mod backup;
pub mod block;
pub mod chain_state;
pub mod chain_status;
pub mod client;
pub mod memory;
pub mod metrics;
