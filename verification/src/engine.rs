//! The coordination core: one object per node tying the ceremony, the
//! signing state and the clock together behind capability-checked calls.
//!
//! The surrounding consensus layer authenticates callers and hands in a
//! `Caller` capability; operations reserved for the epoch authority check
//! `is_authority` themselves and refuse other callers with `BadOrigin`.
//! Every accepted state change appends its events to the in-memory ledger
//! adapter, whose entries the host publishes.

use vstd::prelude::*;

verus! {

use crate::ceremony::{
    Ceremony, CeremonyState, ThresholdKey, ValidatorShare, submit_post, complete_post,
    round_index, in_progress, is_terminal, distinct_u32, round_tag, agg_at, lemma_agg_at_bound,
};
use crate::errors::Error;
use crate::events::{Event, EventLog};
use crate::field::FIELD_MODULUS;
use crate::hlc::{HLC, HlcClock, HlcConfig, hlc_advance_spec, hlc_lt, vote_post};
use crate::signing::{SigningState, partial_post, shares_wf};

/// The capability under which an operation is invoked: whether the caller
/// holds epoch authority, and as which validator it is authenticated.
#[derive(Clone, Copy, Debug, PartialEq, Eq, Structural)]
pub struct Caller {
    /// Whether the caller may perform epoch lifecycle operations.
    pub is_authority: bool,
    /// Authenticated validator identity.
    pub identity: u32,
}

/// Per-epoch coordination state: ceremony, signing, clock and ledger.
pub struct CeremonyCore {
    /// Key generation ceremony of the current epoch.
    pub ceremony: Ceremony,
    /// Signing state of the current epoch.
    pub signing: SigningState,
    /// Timestamp consensus state.
    pub clock: HlcClock,
    /// Event log and epoch-keyed store, published by the host.
    pub ledger: EventLog,
}

impl CeremonyCore {
    /// Structural invariant: every component is well formed.
    pub open spec fn wf(&self) -> bool {
        &&& self.ceremony.wf()
        &&& self.signing.wf()
        &&& self.clock.wf()
    }

    /// A fresh core with no ceremony, no key and a zero clock.
    pub fn new(config: HlcConfig) -> (r: CeremonyCore)
        ensures
            r.wf(),
            r.ceremony.state == CeremonyState::Idle,
            r.ceremony.epoch == 0u64,
            r.signing.key is None,
            r.clock.last == (HLC { physical: 0u64, logical: 0u16, validator_id: 0u32 }),
            r.clock.config == config,
            r.ledger.entries@ =~= Seq::<Event>::empty(),
    {
        CeremonyCore {
            ceremony: Ceremony::new(),
            signing: SigningState::new(),
            clock: HlcClock::new(config),
            ledger: EventLog::new(),
        }
    }

    /// Phase of the current epoch's ceremony.
    pub fn ceremony_status(&self) -> (r: CeremonyState)
        ensures
            r == self.ceremony.state,
    {
        self.ceremony.status()
    }

    /// The group public key active for an epoch, if any.
    pub fn current_public_key(&self, epoch: u64) -> (r: Option<u64>)
        ensures
            match self.signing.key {
                Some(k) => r == (if k.epoch == epoch {
                    Some(k.public_key)
                } else {
                    None::<u64>
                }),
                None => r is None,
            },
    {
        self.signing.current_public_key(epoch)
    }

    /// Last agreed clock value.
    pub fn current_hlc(&self) -> (r: HLC)
        ensures
            r == self.clock.last,
    {
        self.clock.current_hlc()
    }

    /// Current epoch number.
    pub fn current_epoch(&self) -> (r: u64)
        ensures
            r == self.ceremony.epoch,
    {
        self.ceremony.epoch
    }

    /// Starts a key generation ceremony (authority only).
    ///
    /// Refuses callers without authority with `BadOrigin` and an open
    /// round with `CeremonyInProgress`; otherwise begins the first round
    /// for the given validator set and threshold and emits `DKGInitiated`.
    pub fn start_ceremony(
        &mut self,
        caller: Caller,
        validators: Vec<u32>,
        threshold: usize,
    ) -> (r: Result<(), Error>)
        requires
            old(self).wf(),
            distinct_u32(validators@),
            1 <= threshold <= validators@.len(),
            validators@.len() < FIELD_MODULUS,
            is_terminal(old(self).ceremony.state) ==> old(self).ceremony.epoch < u64::MAX,
            old(self).ledger.entries@.len() + 1 < u64::MAX,
        ensures
            final(self).wf(),
            final(self).signing == old(self).signing,
            final(self).clock == old(self).clock,
            final(self).ledger.epoch_state@ == old(self).ledger.epoch_state@,
            !caller.is_authority ==> r == Err::<(), Error>(Error::BadOrigin) && *final(self)
                == *old(self),
            caller.is_authority && in_progress(old(self).ceremony.state) ==> (r == Err::<
                (),
                Error,
            >(Error::CeremonyInProgress) && *final(self) == *old(self)),
            caller.is_authority && !in_progress(old(self).ceremony.state) ==> ({
                &&& r == Ok::<(), Error>(())
                &&& final(self).ceremony.state == CeremonyState::Round1
                &&& final(self).ceremony.validators@ == validators@
                &&& final(self).ceremony.threshold == threshold
                &&& final(self).ceremony.epoch == (if old(self).ceremony.state
                    is Completed || old(self).ceremony.state is Aborted {
                    (old(self).ceremony.epoch + 1) as u64
                } else {
                    old(self).ceremony.epoch
                })
                &&& final(self).ceremony.contributors@ =~= Seq::<u32>::empty()
                &&& final(self).ceremony.participants@ =~= Seq::<u32>::empty()
                &&& final(self).ledger.entries@ == old(self).ledger.entries@.push(
                    Event::DKGInitiated { epoch: final(self).ceremony.epoch },
                )
            }),
    {
        if !caller.is_authority {
            return Err(Error::BadOrigin);
        }
        match self.ceremony.start_ceremony(validators, threshold) {
            Ok(()) => {
                let epoch = self.ceremony.epoch;
                self.ledger.append(Event::DKGInitiated { epoch });
                Ok(())
            },
            Err(e) => Err(e),
        }
    }

    /// Announces a forthcoming ceremony on the signing side (authority
    /// only): refused while a round is open, otherwise records a
    /// `DKGInitiated` event and changes nothing else.
    pub fn initiate_ceremony(&mut self, caller: Caller) -> (r: Result<(), Error>)
        requires
            old(self).wf(),
            old(self).ledger.entries@.len() + 1 < u64::MAX,
        ensures
            final(self).wf(),
            final(self).ceremony == old(self).ceremony,
            final(self).signing == old(self).signing,
            final(self).clock == old(self).clock,
            final(self).ledger.epoch_state@ == old(self).ledger.epoch_state@,
            !caller.is_authority ==> r == Err::<(), Error>(Error::BadOrigin) && *final(self)
                == *old(self),
            caller.is_authority && in_progress(old(self).ceremony.state) ==> (r == Err::<
                (),
                Error,
            >(Error::CeremonyInProgress) && *final(self) == *old(self)),
            caller.is_authority && !in_progress(old(self).ceremony.state) ==> (r == Ok::<
                (),
                Error,
            >(()) && final(self).ledger.entries@ == old(self).ledger.entries@.push(
                Event::DKGInitiated { epoch: old(self).ceremony.epoch },
            )),
    {
        if !caller.is_authority {
            return Err(Error::BadOrigin);
        }
        match self.ceremony.status() {
            CeremonyState::Round1 | CeremonyState::Round2 | CeremonyState::Round3
                | CeremonyState::Round4 => Err(Error::CeremonyInProgress),
            _ => {
                let epoch = self.ceremony.epoch;
                self.ledger.append(Event::DKGInitiated { epoch });
                Ok(())
            },
        }
    }

    /// Installs a threshold key directly (authority only): an
    /// administrative override that replaces the active key, discards all
    /// public shares and signature shares, and emits `PublicKeyUpdated`.
    pub fn set_public_key(&mut self, caller: Caller, key: ThresholdKey) -> (r: Result<(), Error>)
        requires
            old(self).wf(),
            key.public_key < FIELD_MODULUS,
            old(self).ledger.entries@.len() + 1 < u64::MAX,
        ensures
            final(self).wf(),
            final(self).ceremony == old(self).ceremony,
            final(self).clock == old(self).clock,
            final(self).ledger.epoch_state@ == old(self).ledger.epoch_state@,
            !caller.is_authority ==> r == Err::<(), Error>(Error::BadOrigin) && *final(self)
                == *old(self),
            caller.is_authority ==> ({
                &&& r == Ok::<(), Error>(())
                &&& final(self).signing.key == Some(key)
                &&& final(self).signing.shares@ =~= Seq::<ValidatorShare>::empty()
                &&& final(self).signing.partials@.len() == 0
                &&& final(self).ledger.entries@ == old(self).ledger.entries@.push(
                    Event::PublicKeyUpdated { epoch: key.epoch, public_key: key.public_key },
                )
            }),
    {
        if !caller.is_authority {
            return Err(Error::BadOrigin);
        }
        self.signing.install_key(key, Vec::new());
        self.ledger.append(
            Event::PublicKeyUpdated { epoch: key.epoch, public_key: key.public_key },
        );
        Ok(())
    }

    /// Records a round contribution from the authenticated validator and
    /// emits `ShareReceived`, plus `RoundAdvanced` or `CeremonyAborted`
    /// when the contribution closes its round.
    pub fn submit_round_contribution(
        &mut self,
        caller: Caller,
        round: u8,
        payload: Vec<u64>,
    ) -> (r: Result<(), Error>)
        requires
            old(self).wf(),
            old(self).ledger.entries@.len() + 2 < u64::MAX,
        ensures
            final(self).wf(),
            final(self).signing == old(self).signing,
            final(self).clock == old(self).clock,
            final(self).ledger.epoch_state@ == old(self).ledger.epoch_state@,
            round_index(final(self).ceremony.state) >= round_index(old(self).ceremony.state),
            submit_post(old(self).ceremony, final(self).ceremony, caller.identity, round,
                payload@, r),
            r is Err ==> final(self).ledger.entries@ == old(self).ledger.entries@,
            r is Ok ==> ({
                let base = old(self).ledger.entries@.push(
                    Event::ShareReceived { validator: caller.identity, round },
                );
                if final(self).ceremony.state == old(self).ceremony.state {
                    final(self).ledger.entries@ == base
                } else if final(self).ceremony.state is Aborted {
                    final(self).ledger.entries@ == base.push(
                        Event::CeremonyAborted {
                            epoch: old(self).ceremony.epoch,
                            reason: Error::InsufficientShares,
                        },
                    )
                } else {
                    final(self).ledger.entries@ == base.push(
                        Event::RoundAdvanced {
                            epoch: old(self).ceremony.epoch,
                            round: round_tag(final(self).ceremony.state),
                        },
                    )
                }
            }),
    {
        let before = self.ceremony.status();
        match self.ceremony.submit_round_contribution(caller.identity, round, payload) {
            Err(e) => Err(e),
            Ok(()) => {
                self.ledger.append(
                    Event::ShareReceived { validator: caller.identity, round },
                );
                let after = self.ceremony.status();
                if after != before {
                    match after {
                        CeremonyState::Aborted => {
                            self.ledger.append(
                                Event::CeremonyAborted {
                                    epoch: self.ceremony.epoch,
                                    reason: Error::InsufficientShares,
                                },
                            );
                        },
                        _ => {
                            let tag: u8 = match after {
                                CeremonyState::Round1 => 1,
                                CeremonyState::Round2 => 2,
                                CeremonyState::Round3 => 3,
                                CeremonyState::Round4 => 4,
                                _ => 0,
                            };
                            self.ledger.append(
                                Event::RoundAdvanced { epoch: self.ceremony.epoch, round: tag },
                            );
                        },
                    }
                }
                Ok(())
            },
        }
    }

    /// Records a share-distribution or other round contribution: the
    /// ceremony operation under its host-facing name.
    pub fn submit_share(&mut self, caller: Caller, round: u8, payload: Vec<u64>) -> (r: Result<
        (),
        Error,
    >)
        requires
            old(self).wf(),
            old(self).ledger.entries@.len() + 2 < u64::MAX,
        ensures
            final(self).wf(),
            final(self).signing == old(self).signing,
            final(self).clock == old(self).clock,
            final(self).ledger.epoch_state@ == old(self).ledger.epoch_state@,
            round_index(final(self).ceremony.state) >= round_index(old(self).ceremony.state),
            submit_post(old(self).ceremony, final(self).ceremony, caller.identity, round,
                payload@, r),
    {
        self.submit_round_contribution(caller, round, payload)
    }

    /// Finalizes the ceremony (authority only): installs the resulting
    /// threshold key and one public share per announced validator for
    /// signing, emits `CeremonyCompleted` and `PublicKeyUpdated`, and
    /// returns the key with the shares.  Once completed, repeat calls
    /// return the same key and shares and change nothing.
    #[verifier::loop_isolation(false)]
    pub fn complete_ceremony(&mut self, caller: Caller) -> (r: Result<
        (ThresholdKey, Vec<ValidatorShare>),
        Error,
    >)
        requires
            old(self).wf(),
            old(self).ledger.entries@.len() + 2 < u64::MAX,
        ensures
            final(self).wf(),
            final(self).clock == old(self).clock,
            final(self).ledger.epoch_state@ == old(self).ledger.epoch_state@,
            !caller.is_authority ==> r == Err::<(ThresholdKey, Vec<ValidatorShare>), Error>(
                Error::BadOrigin,
            ) && *final(self) == *old(self),
            caller.is_authority ==> complete_post(old(self).ceremony, final(self).ceremony, r),
            caller.is_authority && r is Err ==> *final(self) == *old(self),
            caller.is_authority && old(self).ceremony.state is Completed ==> (r is Ok
                && *final(self) == *old(self)),
            caller.is_authority && r is Ok && !(old(self).ceremony.state is Completed) ==> ({
                let (key, shares) = r->Ok_0;
                &&& final(self).signing.key == Some(key)
                &&& final(self).signing.shares@ == shares@
                &&& final(self).signing.partials@.len() == 0
                &&& final(self).ledger.entries@ == old(self).ledger.entries@.push(
                    Event::CeremonyCompleted { epoch: key.epoch },
                ).push(Event::PublicKeyUpdated { epoch: key.epoch, public_key: key.public_key })
            }),
    {
        if !caller.is_authority {
            return Err(Error::BadOrigin);
        }
        let already_completed = match self.ceremony.status() {
            CeremonyState::Completed => true,
            _ => false,
        };
        match self.ceremony.complete_ceremony() {
            Err(e) => Err(e),
            Ok((key, shares)) => {
                if already_completed {
                    // the ceremony state is unchanged; repeat completion
                    // reinstalls nothing and emits nothing
                    return Ok((key, shares));
                }
                proof {
                    lemma_agg_at_bound(old(self).ceremony.commitment_views(), 0);
                    assert(shares_wf(shares@)) by {
                        assert(distinct_u32(self.ceremony.validators@));
                        assert forall|i: int, j: int| 0 <= i < j < shares@.len() implies shares@[
                            i
                        ].id != shares@[j].id by {
                            assert(shares@[i].id == self.ceremony.validators@[i]);
                            assert(shares@[j].id == self.ceremony.validators@[j]);
                        }
                        assert forall|i: int| 0 <= i < shares@.len() implies 1 <= (
                        #[trigger] shares@[i]).x < FIELD_MODULUS && shares@[i].public_share
                            < FIELD_MODULUS by {
                            assert(shares@[i].x == i + 1);
                            assert(shares@.len() == self.ceremony.validators@.len());
                        }
                    }
                }
                let mut stored: Vec<ValidatorShare> = Vec::new();
                let mut i: usize = 0;
                let n = shares.len();
                while i < n
                    invariant
                        i <= n,
                        n == shares@.len(),
                        stored@ =~= shares@.take(i as int),
                    decreases n - i,
                {
                    stored.push(shares[i]);
                    i = i + 1;
                }
                proof {
                    assert(shares@.take(n as int) =~= shares@);
                }
                self.signing.install_key(key, stored);
                self.ledger.append(Event::CeremonyCompleted { epoch: key.epoch });
                self.ledger.append(
                    Event::PublicKeyUpdated { epoch: key.epoch, public_key: key.public_key },
                );
                Ok((key, shares))
            },
        }
    }

    /// Accepts a partial signature from the authenticated validator and
    /// emits `PartialSignatureReceived`.
    pub fn submit_partial_signature(
        &mut self,
        caller: Caller,
        epoch: u64,
        message_digest: u64,
        signature_share: u64,
    ) -> (r: Result<(), Error>)
        requires
            old(self).wf(),
            message_digest < FIELD_MODULUS,
            old(self).ledger.entries@.len() + 1 < u64::MAX,
        ensures
            final(self).wf(),
            final(self).ceremony == old(self).ceremony,
            final(self).clock == old(self).clock,
            final(self).ledger.epoch_state@ == old(self).ledger.epoch_state@,
            final(self).signing.key == old(self).signing.key,
            final(self).signing.shares@ == old(self).signing.shares@,
            partial_post(old(self).signing, final(self).signing, caller.identity, epoch,
                message_digest, signature_share, r),
            r is Err ==> final(self).ledger.entries@ == old(self).ledger.entries@,
            r is Ok ==> final(self).ledger.entries@ == old(self).ledger.entries@.push(
                Event::PartialSignatureReceived { validator: caller.identity },
            ),
    {
        match self.signing.submit_partial_signature(
            caller.identity,
            epoch,
            message_digest,
            signature_share,
        ) {
            Err(e) => Err(e),
            Ok(()) => {
                self.ledger.append(
                    Event::PartialSignatureReceived { validator: caller.identity },
                );
                Ok(())
            },
        }
    }

    /// Combines the accepted shares over a digest into the group
    /// signature and emits `ThresholdSignatureProduced` on success.  The
    /// signing state itself is never changed, so repeated calls return
    /// the same signature.
    pub fn produce_threshold_signature(&mut self, message_digest: u64) -> (r: Result<u64, Error>)
        requires
            old(self).wf(),
            message_digest < FIELD_MODULUS,
            old(self).ledger.entries@.len() + 1 < u64::MAX,
        ensures
            final(self).wf(),
            final(self).ceremony == old(self).ceremony,
            final(self).signing == old(self).signing,
            final(self).clock == old(self).clock,
            final(self).ledger.epoch_state@ == old(self).ledger.epoch_state@,
            r == old(self).signing.produce_spec(message_digest),
            r is Ok ==> final(self).ledger.entries@ == old(self).ledger.entries@.push(
                Event::ThresholdSignatureProduced {
                    epoch: old(self).signing.key->Some_0.epoch,
                },
            ),
            r is Err ==> final(self).ledger.entries@ == old(self).ledger.entries@,
    {
        let k_epoch = match &self.signing.key {
            Some(k) => k.epoch,
            None => 0,
        };
        match self.signing.produce_threshold_signature(message_digest) {
            Err(e) => Err(e),
            Ok(sig) => {
                self.ledger.append(Event::ThresholdSignatureProduced { epoch: k_epoch });
                Ok(sig)
            },
        }
    }

    /// Produces the next clock value for an observed physical time and
    /// makes it current.  The result is strictly greater than the
    /// previous clock value.
    pub fn now(&mut self, caller: Caller, observed_physical: u64) -> (r: HLC)
        requires
            old(self).wf(),
            old(self).clock.last.physical < u64::MAX,
        ensures
            final(self).wf(),
            final(self).ceremony == old(self).ceremony,
            final(self).signing == old(self).signing,
            final(self).ledger == old(self).ledger,
            r == hlc_advance_spec(old(self).clock.last, observed_physical, caller.identity),
            final(self).clock.last == r,
            hlc_lt(old(self).clock.last, r),
            r.physical >= observed_physical,
            final(self).clock.votes == old(self).clock.votes,
            final(self).clock.config == old(self).clock.config,
    {
        self.clock.now(observed_physical, caller.identity)
    }

    /// Merges a remote clock value from the authenticated validator and
    /// emits `HLCUpdated` when it advances the clock.
    pub fn update_hlc(&mut self, caller: Caller, physical: u64, logical: u16) -> (r: Result<
        HLC,
        Error,
    >)
        requires
            old(self).wf(),
            old(self).ledger.entries@.len() + 1 < u64::MAX,
        ensures
            final(self).wf(),
            final(self).ceremony == old(self).ceremony,
            final(self).signing == old(self).signing,
            final(self).clock.votes == old(self).clock.votes,
            final(self).clock.config == old(self).clock.config,
            final(self).ledger.epoch_state@ == old(self).ledger.epoch_state@,
            hlc_lt(old(self).clock.last, (HLC { physical, logical, validator_id: caller.identity }))
                ==> ({
                &&& r == Ok::<HLC, Error>(HLC { physical, logical, validator_id: caller.identity })
                &&& final(self).clock.last == (HLC {
                    physical,
                    logical,
                    validator_id: caller.identity,
                })
                &&& final(self).ledger.entries@ == old(self).ledger.entries@.push(
                    Event::HLCUpdated { physical, logical },
                )
            }),
            !hlc_lt(old(self).clock.last, (HLC { physical, logical, validator_id: caller.identity }))
                ==> (r == Err::<HLC, Error>(Error::InvalidTimestamp) && *final(self) == *old(
            self,
            )),
    {
        match self.clock.update_hlc(caller.identity, physical, logical) {
            Err(e) => Err(e),
            Ok(h) => {
                self.ledger.append(Event::HLCUpdated { physical, logical });
                Ok(h)
            },
        }
    }

    /// Accepts a timestamp vote from the authenticated validator, emits
    /// `TimestampVote`, and, when the vote closes a round, advances the
    /// agreed clock and emits `HLCUpdated`.
    pub fn submit_timestamp_vote(
        &mut self,
        caller: Caller,
        proposed_physical: u64,
        local_physical: u64,
    ) -> (r: Result<Option<HLC>, Error>)
        requires
            old(self).wf(),
            old(self).clock.last.physical < u64::MAX,
            proposed_physical < u64::MAX,
            old(self).ledger.entries@.len() + 2 < u64::MAX,
        ensures
            final(self).wf(),
            final(self).ceremony == old(self).ceremony,
            final(self).signing == old(self).signing,
            final(self).clock.config == old(self).clock.config,
            final(self).ledger.epoch_state@ == old(self).ledger.epoch_state@,
            vote_post(old(self).clock, final(self).clock, caller.identity, proposed_physical,
                local_physical, r),
            r is Err ==> final(self).ledger.entries@ == old(self).ledger.entries@,
            r == Ok::<Option<HLC>, Error>(None) ==> final(self).ledger.entries@ == old(
                self,
            ).ledger.entries@.push(
                Event::TimestampVote { validator: caller.identity, timestamp: proposed_physical },
            ),
            (r is Ok && r->Ok_0 is Some) ==> ({
                let h = r->Ok_0->Some_0;
                final(self).ledger.entries@ == old(self).ledger.entries@.push(
                    Event::TimestampVote {
                        validator: caller.identity,
                        timestamp: proposed_physical,
                    },
                ).push(Event::HLCUpdated { physical: h.physical, logical: h.logical })
            }),
    {
        match self.clock.submit_timestamp_vote(
            caller.identity,
            proposed_physical,
            local_physical,
        ) {
            Err(e) => Err(e),
            Ok(None) => {
                self.ledger.append(
                    Event::TimestampVote {
                        validator: caller.identity,
                        timestamp: proposed_physical,
                    },
                );
                Ok(None)
            },
            Ok(Some(h)) => {
                self.ledger.append(
                    Event::TimestampVote {
                        validator: caller.identity,
                        timestamp: proposed_physical,
                    },
                );
                self.ledger.append(
                    Event::HLCUpdated { physical: h.physical, logical: h.logical },
                );
                Ok(Some(h))
            },
        }
    }
}

} // verus!
