//! Threshold-key ceremony coordination for a validator set.
//!
//! The library drives a multi-round distributed key generation ceremony,
//! collects and combines partial threshold signatures over a prime scalar
//! field, and maintains a hybrid logical clock whose agreed value advances
//! by quorum vote.  All state transitions are deterministic: the host is
//! expected to serialize calls (for example through a replicated log) and
//! to hand in every externally observed value, such as physical time, as a
//! plain argument.

pub mod ceremony;
pub mod codec;
pub mod engine;
pub mod errors;
pub mod events;
pub mod field;
pub mod hlc;
pub mod signing;
pub mod weights;
