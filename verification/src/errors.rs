//! Protocol errors.
//!
//! Sequence errors (`CeremonyInProgress`, `CeremonyNotInProgress`,
//! `InvalidRound`) mean the caller acted at the wrong time and may retry
//! later.  Integrity errors (`DuplicateShare`, `InvalidContribution`,
//! `KeyEpochMismatch`, `InvalidSignatureShare`) reject the offending input
//! and leave all state unchanged.  `InsufficientShares` is recoverable by
//! waiting for more participants.  Timestamp errors reject a single vote
//! without ending the voting round.  No error is fatal to the system.

use vstd::prelude::*;

verus! {

/// Every way a protocol call can be refused.
#[derive(Clone, Copy, Debug, PartialEq, Eq, Structural)]
pub enum Error {
    /// The caller lacks the capability the operation demands.
    BadOrigin,
    /// A ceremony is already running for the current epoch.
    CeremonyInProgress,
    /// No ceremony is in a state that allows the operation.
    CeremonyNotInProgress,
    /// The contribution is tagged for a round other than the current one.
    InvalidRound,
    /// The validator already contributed for this round or digest.
    DuplicateShare,
    /// The contribution payload is malformed for its round.
    InvalidContribution,
    /// The validator is not active for the epoch, or the epoch is stale.
    KeyEpochMismatch,
    /// No threshold key exists for the current epoch.
    PublicKeyNotInitialized,
    /// A signature share does not verify against its public share, or the
    /// combined signature failed the final check.
    InvalidSignatureShare,
    /// Fewer than `threshold` valid shares are available.
    InsufficientShares,
    /// A proposed timestamp lies too far in the past.
    InvalidTimestamp,
    /// A proposed timestamp deviates too much from local physical time.
    DeviationTooLarge,
}

} // verus!
