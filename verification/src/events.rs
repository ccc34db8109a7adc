//! Emitted events and the append-only ledger adapter.
//!
//! The surrounding consensus layer persists and distributes what the core
//! appends here; the core itself never does I/O.  Sequence numbers are
//! assigned monotonically and never reused.

use vstd::prelude::*;

verus! {

use crate::errors::Error;

/// One observable protocol event.
#[derive(Clone, Copy, Debug, PartialEq, Eq, Structural)]
pub enum Event {
    /// A key generation ceremony began.
    DKGInitiated { epoch: u64 },
    /// A round contribution was accepted.
    ShareReceived { validator: u32, round: u8 },
    /// The ceremony advanced to the given round.
    RoundAdvanced { epoch: u64, round: u8 },
    /// The ceremony finished and a threshold key is active.
    CeremonyCompleted { epoch: u64 },
    /// The ceremony ended without producing a key, for the given reason.
    CeremonyAborted { epoch: u64, reason: Error },
    /// The active group public key changed.
    PublicKeyUpdated { epoch: u64, public_key: u64 },
    /// A partial signature was accepted.
    PartialSignatureReceived { validator: u32 },
    /// A full threshold signature was produced.
    ThresholdSignatureProduced { epoch: u64 },
    /// The agreed hybrid logical clock advanced.
    HLCUpdated { physical: u64, logical: u16 },
    /// A timestamp vote was accepted.
    TimestampVote { validator: u32, timestamp: u64 },
}

/// Append-only event log with an epoch-keyed byte store: the interface the
/// core expects from its host ledger, realised in memory.
pub struct EventLog {
    /// Events in append order; the sequence number of an event is its index.
    pub entries: Vec<Event>,
    /// Small shared state, keyed by epoch.
    pub epoch_state: Vec<(u64, Vec<u8>)>,
}

/// First index holding state for an epoch, if any.
pub open spec fn first_slot(s: Seq<(u64, Vec<u8>)>, epoch: u64) -> Option<int>
    decreases s.len(),
{
    if s.len() == 0 {
        None
    } else if s[0].0 == epoch {
        Some(0)
    } else {
        match first_slot(s.drop_first(), epoch) {
            Some(j) => Some(j + 1),
            None => None,
        }
    }
}

/// When no entry before index `i` holds the epoch, `first_slot` is `i`
/// where the entry at `i` holds it, and `None` where `i` is the end.
proof fn lemma_first_slot(s: Seq<(u64, Vec<u8>)>, epoch: u64, i: int)
    requires
        0 <= i <= s.len(),
        forall|k: int| 0 <= k < i ==> s[k].0 != epoch,
        i < s.len() ==> s[i].0 == epoch,
    ensures
        i < s.len() ==> first_slot(s, epoch) == Some(i),
        i == s.len() ==> first_slot(s, epoch) is None,
    decreases s.len(),
{
    if s.len() > 0 && s[0].0 != epoch {
        let rest = s.drop_first();
        assert(forall|k: int| 0 <= k < rest.len() ==> rest[k] == s[k + 1]);
        lemma_first_slot(rest, epoch, i - 1);
    }
}

impl EventLog {
    /// Creates an empty log.
    pub fn new() -> (r: EventLog)
        ensures
            r.entries@ =~= Seq::<Event>::empty(),
            r.epoch_state@ =~= Seq::<(u64, Vec<u8>)>::empty(),
    {
        EventLog { entries: Vec::new(), epoch_state: Vec::new() }
    }

    /// Appends an event and returns its sequence number.  Numbers grow by
    /// one per append, so they are monotonic and never reused.
    pub fn append(&mut self, event: Event) -> (seq_no: u64)
        requires
            old(self).entries@.len() < u64::MAX,
        ensures
            final(self).entries@ == old(self).entries@.push(event),
            seq_no == old(self).entries@.len(),
            final(self).epoch_state@ == old(self).epoch_state@,
    {
        let seq_no = self.entries.len() as u64;
        self.entries.push(event);
        seq_no
    }

    /// Reads the state stored for an epoch.
    pub fn read_epoch_state(&self, epoch: u64) -> (r: Option<&Vec<u8>>)
        ensures
            match r {
                Some(bytes) => exists|k: int|
                    0 <= k < self.epoch_state@.len() && self.epoch_state@[k].0 == epoch
                        && self.epoch_state@[k].1@ == bytes@,
                None => forall|k: int|
                    0 <= k < self.epoch_state@.len() ==> self.epoch_state@[k].0 != epoch,
            },
    {
        let n = self.epoch_state.len();
        let mut i: usize = 0;
        while i < n
            invariant
                n == self.epoch_state@.len(),
                i <= n,
                forall|k: int| 0 <= k < i ==> self.epoch_state@[k].0 != epoch,
            decreases n - i,
        {
            if self.epoch_state[i].0 == epoch {
                return Some(&self.epoch_state[i].1);
            }
            i = i + 1;
        }
        None
    }

    /// Writes (or replaces) the state stored for an epoch: the first entry
    /// for the epoch is overwritten, or a new entry appended when none
    /// exists; every other entry stays as it was.
    #[verifier::loop_isolation(false)]
    pub fn write_epoch_state(&mut self, epoch: u64, bytes: Vec<u8>)
        ensures
            final(self).entries@ == old(self).entries@,
            match first_slot(old(self).epoch_state@, epoch) {
                Some(j) => final(self).epoch_state@ == old(self).epoch_state@.update(
                    j,
                    (epoch, bytes),
                ),
                None => final(self).epoch_state@ == old(self).epoch_state@.push((epoch, bytes)),
            },
    {
        let n = self.epoch_state.len();
        let mut i: usize = 0;
        while i < n
            invariant
                n == self.epoch_state@.len(),
                i <= n,
                self == old(self),
                forall|k: int| 0 <= k < i ==> self.epoch_state@[k].0 != epoch,
            decreases n - i,
        {
            if self.epoch_state[i].0 == epoch {
                proof {
                    lemma_first_slot(self.epoch_state@, epoch, i as int);
                }
                self.epoch_state.set(i, (epoch, bytes));
                return;
            }
            i = i + 1;
        }
        proof {
            lemma_first_slot(self.epoch_state@, epoch, n as int);
        }
        self.epoch_state.push((epoch, bytes));
    }
}

} // verus!
