//! Benchmark weights of the protocol operations.
//!
//! Hosts that meter execution charge each call a fixed weight; the values
//! here are the reference weights for the operations this library
//! exposes, measured on recommended hardware.

use vstd::prelude::*;

verus! {

/// Reference weights for the protocol operations.
pub struct SubstrateWeight;

impl SubstrateWeight {
    /// Weight of starting a ceremony.
    pub fn start_ceremony() -> (w: u64)
        ensures
            w == 100_000u64,
    {
        100_000
    }

    /// Weight of submitting a round contribution.
    pub fn submit_share() -> (w: u64)
        ensures
            w == 200_000u64,
    {
        200_000
    }

    /// Weight of completing a ceremony.
    pub fn complete_ceremony() -> (w: u64)
        ensures
            w == 150_000u64,
    {
        150_000
    }

    /// Weight of announcing a ceremony.
    pub fn initiate_ceremony() -> (w: u64)
        ensures
            w == 100_000u64,
    {
        100_000
    }

    /// Weight of installing a key by override.
    pub fn set_public_key() -> (w: u64)
        ensures
            w == 100_000u64,
    {
        100_000
    }

    /// Weight of submitting a partial signature.
    pub fn submit_partial_signature() -> (w: u64)
        ensures
            w == 100_000u64,
    {
        100_000
    }

    /// Weight of combining a threshold signature.
    pub fn produce_threshold_signature() -> (w: u64)
        ensures
            w == 200_000u64,
    {
        200_000
    }

    /// Weight of merging a remote clock value.
    pub fn update_hlc() -> (w: u64)
        ensures
            w == 50_000u64,
    {
        50_000
    }

    /// Weight of submitting a timestamp vote.
    pub fn submit_timestamp_vote() -> (w: u64)
        ensures
            w == 50_000u64,
    {
        50_000
    }
}

} // verus!
