//! Distributed key generation ceremony.
//!
//! A ceremony walks a fixed validator set through four ordered rounds:
//! commitment broadcast, share distribution, verification, and key
//! aggregation.  Each validator contributes at most once per round; once
//! `threshold` contributions are in, the round advances.  A validator
//! flagged during verification is excluded, and the ceremony aborts when
//! the remaining participants no longer reach the threshold.  Completing a
//! ceremony aggregates the participants' commitments into the group public
//! key and derives every announced validator's public share from them, so
//! any `threshold` of the `n` validators can later sign.  Contribution
//! records are kept in validator-id order: submissions within a round
//! reach the same state in whatever order they arrive.
//!
//! Round payloads carry field scalars.  A commitment payload (first round)
//! must hold exactly `threshold` scalars: the public image of the
//! contributor's secret polynomial.  A verification payload (third round)
//! lists the validator ids the contributor accuses; other rounds' payloads
//! are recorded but not interpreted, since share distribution is encrypted
//! peer-to-peer traffic the coordinator cannot read.

use vstd::prelude::*;

verus! {

use crate::errors::Error;
use crate::field::{
    FIELD_MODULUS, add_mod, eval_poly, eval_poly_spec, fadd,
};

/// Phase of a key generation ceremony.  Transitions only move forward;
/// `Aborted` is terminal and reachable from any non-terminal phase.
#[derive(Clone, Copy, Debug, PartialEq, Eq, Structural)]
pub enum CeremonyState {
    /// No ceremony has started for the epoch.
    Idle,
    /// Commitment broadcast.
    Round1,
    /// Share distribution.
    Round2,
    /// Share verification.
    Round3,
    /// Public key aggregation.
    Round4,
    /// The ceremony produced a key.
    Completed,
    /// The ceremony ended without a key.
    Aborted,
}

/// Position of a phase in the forward order of the state machine.
pub open spec fn round_index(s: CeremonyState) -> int {
    match s {
        CeremonyState::Idle => 0,
        CeremonyState::Round1 => 1,
        CeremonyState::Round2 => 2,
        CeremonyState::Round3 => 3,
        CeremonyState::Round4 => 4,
        CeremonyState::Completed => 5,
        CeremonyState::Aborted => 5,
    }
}

/// Whether a round is currently accepting contributions.
pub open spec fn in_progress(s: CeremonyState) -> bool {
    s is Round1 || s is Round2 || s is Round3 || s is Round4
}

/// Whether the ceremony has ended, with or without a key.
pub open spec fn is_terminal(s: CeremonyState) -> bool {
    s is Completed || s is Aborted
}

/// Round tag (1 to 4) of an in-progress phase; 0 otherwise.
pub open spec fn round_tag(s: CeremonyState) -> u8 {
    match s {
        CeremonyState::Round1 => 1,
        CeremonyState::Round2 => 2,
        CeremonyState::Round3 => 3,
        CeremonyState::Round4 => 4,
        _ => 0,
    }
}

/// The active threshold key of an epoch.
#[derive(Clone, Copy, Debug, PartialEq, Eq, Structural)]
pub struct ThresholdKey {
    /// Epoch the key belongs to.
    pub epoch: u64,
    /// Group public key scalar.
    pub public_key: u64,
    /// Number of partial signatures needed to sign.
    pub threshold: usize,
    /// Number of validators holding a share of the secret.
    pub total: usize,
}

/// One validator's public share of the group key.
#[derive(Clone, Copy, Debug, PartialEq, Eq, Structural)]
pub struct ValidatorShare {
    /// Validator id.
    pub id: u32,
    /// Interpolation point of the validator (its position in the announced
    /// validator list, one-based).
    pub x: u64,
    /// Public image of the validator's secret share.
    pub public_share: u64,
}

/// No element occurs twice.
pub open spec fn distinct_u32(s: Seq<u32>) -> bool {
    forall|i: int, j: int| 0 <= i < j < s.len() ==> s[i] != s[j]
}

/// Strictly ascending: sorted by validator id with no repeats.
pub open spec fn sorted_u32(s: Seq<u32>) -> bool {
    forall|i: int, j: int| 0 <= i < j < s.len() ==> s[i] < s[j]
}

/// The sorted list that results from inserting `v` into `s`.
pub open spec fn insert_sorted_u32(s: Seq<u32>, v: u32) -> Seq<u32>
    decreases s.len(),
{
    if s.len() == 0 {
        seq![v]
    } else if v < s[0] {
        seq![v] + s
    } else {
        seq![s[0]] + insert_sorted_u32(s.drop_first(), v)
    }
}

/// Inserting at the first index whose element is not below `v` is what
/// `insert_sorted_u32` describes.
proof fn lemma_insert_sorted_at_index(s: Seq<u32>, v: u32, idx: int)
    requires
        0 <= idx <= s.len(),
        forall|k: int| 0 <= k < idx ==> s[k] < v,
        idx < s.len() ==> !(s[idx] < v),
        !s.contains(v),
        sorted_u32(s),
    ensures
        insert_sorted_u32(s, v) == s.insert(idx, v),
    decreases s.len(),
{
    if s.len() == 0 {
        assert(insert_sorted_u32(s, v) =~= s.insert(0, v));
    } else if v < s[0] {
        assert(idx == 0) by {
            if idx > 0 {
                assert(s[0] < v);
            }
        }
        assert(insert_sorted_u32(s, v) =~= s.insert(0, v));
    } else {
        assert(s[0] != v) by {
            if s[0] == v {
                assert(s.contains(v)) by {
                    assert(s[0] == v);
                }
            }
        }
        assert(s[0] < v);
        assert(idx > 0);
        let rest = s.drop_first();
        assert(sorted_u32(rest) && forall|k: int| 0 <= k < rest.len() ==> rest[k] == s[k + 1]) by {
            assert(forall|k: int| 0 <= k < rest.len() ==> rest[k] == s[k + 1]);
        }
        assert(!rest.contains(v)) by {
            if rest.contains(v) {
                let m = choose|m: int| 0 <= m < rest.len() && rest[m] == v;
                assert(s[m + 1] == v);
            }
        }
        assert(idx - 1 < rest.len() ==> !(rest[idx - 1] < v)) by {
            if idx - 1 < rest.len() {
                assert(rest[idx - 1] == s[idx]);
            }
        }
        lemma_insert_sorted_at_index(rest, v, idx - 1);
        assert(insert_sorted_u32(s, v) =~= s.insert(idx, v)) by {
            assert(insert_sorted_u32(s, v) == seq![s[0]] + insert_sorted_u32(rest, v));
            assert(insert_sorted_u32(rest, v) == rest.insert(idx - 1, v));
            assert(seq![s[0]] + rest.insert(idx - 1, v) =~= s.insert(idx, v));
        }
    }
}

/// Inserting into a sorted list keeps it sorted, grows it by one, adds the
/// new id and keeps exactly the old ones.
proof fn lemma_insert_sorted_wf(s: Seq<u32>, v: u32)
    requires
        sorted_u32(s),
        !s.contains(v),
    ensures
        sorted_u32(insert_sorted_u32(s, v)),
        insert_sorted_u32(s, v).len() == s.len() + 1,
        insert_sorted_u32(s, v).contains(v),
        forall|k: int|
            0 <= k < insert_sorted_u32(s, v).len() ==> (#[trigger] insert_sorted_u32(s, v)[k] == v
                || s.contains(insert_sorted_u32(s, v)[k])),
    decreases s.len(),
{
    if s.len() == 0 {
        assert(insert_sorted_u32(s, v)[0] == v);
    } else if v < s[0] {
        let r = seq![v] + s;
        assert(r[0] == v);
        assert forall|i: int, j: int| 0 <= i < j < r.len() implies r[i] < r[j] by {
            if i == 0 {
                assert(r[j] == s[j - 1]);
                if j > 1 {
                    assert(s[0] < s[j - 1]);
                }
            } else {
                assert(r[i] == s[i - 1] && r[j] == s[j - 1]);
            }
        }
        assert forall|k: int| 0 <= k < r.len() implies (#[trigger] r[k] == v || s.contains(
            r[k],
        )) by {
            if k > 0 {
                assert(r[k] == s[k - 1]);
            }
        }
    } else {
        let rest = s.drop_first();
        assert(s[0] != v) by {
            if s[0] == v {
                assert(s.contains(v)) by {
                    assert(s[0] == v);
                }
            }
        }
        assert(sorted_u32(rest) && forall|k: int| 0 <= k < rest.len() ==> rest[k] == s[k + 1]) by {
            assert(forall|k: int| 0 <= k < rest.len() ==> rest[k] == s[k + 1]);
        }
        assert(!rest.contains(v)) by {
            if rest.contains(v) {
                let m = choose|m: int| 0 <= m < rest.len() && rest[m] == v;
                assert(s[m + 1] == v);
            }
        }
        lemma_insert_sorted_wf(rest, v);
        let ri = insert_sorted_u32(rest, v);
        let r = seq![s[0]] + ri;
        assert forall|k: int| 0 <= k < ri.len() implies s[0] < #[trigger] ri[k] by {
            if ri[k] == v {
            } else {
                assert(rest.contains(ri[k]));
                let m = choose|m: int| 0 <= m < rest.len() && rest[m] == ri[k];
                assert(s[m + 1] == ri[k]);
            }
        }
        assert forall|i: int, j: int| 0 <= i < j < r.len() implies r[i] < r[j] by {
            if i == 0 {
                assert(r[j] == ri[j - 1]);
            } else {
                assert(r[i] == ri[i - 1] && r[j] == ri[j - 1]);
            }
        }
        assert(ri.contains(v));
        assert(r.contains(v)) by {
            let m = choose|m: int| 0 <= m < ri.len() && ri[m] == v;
            assert(r[m + 1] == v);
        }
        assert forall|k: int| 0 <= k < r.len() implies (#[trigger] r[k] == v || s.contains(
            r[k],
        )) by {
            if k == 0 {
                assert(s.contains(s[0])) by {
                    assert(s[0] == s[0]);
                }
            } else {
                assert(r[k] == ri[k - 1]);
                if ri[k - 1] != v {
                    assert(rest.contains(ri[k - 1]));
                    let m = choose|m: int| 0 <= m < rest.len() && rest[m] == ri[k - 1];
                    assert(s[m + 1] == ri[k - 1]);
                }
            }
        }
    }
}

/// Participants and their commitments with one new pair inserted at the
/// new participant's place in id order.
pub open spec fn insert_pair(parts: Seq<u32>, cs: Seq<Seq<u64>>, v: u32, c: Seq<u64>) -> (
    Seq<u32>,
    Seq<Seq<u64>>,
)
    decreases parts.len(),
{
    if parts.len() == 0 {
        (seq![v], seq![c])
    } else if v < parts[0] {
        (seq![v] + parts, seq![c] + cs)
    } else {
        let (rp, rc) = insert_pair(parts.drop_first(), cs.drop_first(), v, c);
        (seq![parts[0]] + rp, seq![cs[0]] + rc)
    }
}

/// The pair insertion inserts the id exactly as `insert_sorted_u32` does,
/// keeps the lists in lockstep, and every resulting pair is the new one or
/// an old one.
proof fn lemma_insert_pair_props(parts: Seq<u32>, cs: Seq<Seq<u64>>, v: u32, c: Seq<u64>)
    requires
        parts.len() == cs.len(),
    ensures
        ({
            let (rp, rc) = insert_pair(parts, cs, v, c);
            &&& rp == insert_sorted_u32(parts, v)
            &&& rc.len() == rp.len()
            &&& forall|k: int|
                0 <= k < rp.len() ==> ((#[trigger] rp[k] == v && rc[k] == c) || exists|j: int|
                    0 <= j < parts.len() && parts[j] == rp[k] && cs[j] == rc[k])
        }),
    decreases parts.len(),
{
    if parts.len() == 0 {
        let (rp, rc) = insert_pair(parts, cs, v, c);
        assert(rp == insert_sorted_u32(parts, v));
        assert(rp[0] == v && rc[0] == c);
    } else if v < parts[0] {
        let (rp, rc) = insert_pair(parts, cs, v, c);
        assert(rp == insert_sorted_u32(parts, v));
        assert forall|k: int| 0 <= k < rp.len() implies ((#[trigger] rp[k] == v && rc[k] == c)
            || exists|j: int| 0 <= j < parts.len() && parts[j] == rp[k] && cs[j] == rc[k]) by {
            if k > 0 {
                assert(parts[k - 1] == rp[k] && cs[k - 1] == rc[k]);
            } else {
                assert(rp[0] == v && rc[0] == c);
            }
        }
    } else {
        let pd = parts.drop_first();
        let cd = cs.drop_first();
        lemma_insert_pair_props(pd, cd, v, c);
        let (rp0, rc0) = insert_pair(pd, cd, v, c);
        let (rp, rc) = insert_pair(parts, cs, v, c);
        assert(rp == seq![parts[0]] + rp0 && rc == seq![cs[0]] + rc0);
        assert(rp == insert_sorted_u32(parts, v)) by {
            assert(rp0 == insert_sorted_u32(pd, v));
        }
        assert forall|k: int| 0 <= k < rp.len() implies ((#[trigger] rp[k] == v && rc[k] == c)
            || exists|j: int| 0 <= j < parts.len() && parts[j] == rp[k] && cs[j] == rc[k]) by {
            if k == 0 {
                assert(parts[0] == rp[0] && cs[0] == rc[0]);
            } else {
                assert(rp[k] == rp0[k - 1] && rc[k] == rc0[k - 1]);
                if !(rp0[k - 1] == v && rc0[k - 1] == c) {
                    let j = choose|j: int| 0 <= j < pd.len() && pd[j] == rp0[k - 1] && cd[j]
                        == rc0[k - 1];
                    assert(parts[j + 1] == rp[k] && cs[j + 1] == rc[k]);
                }
            }
        }
    }
}

/// Inserting a pair at the first index whose id is not below `v` is what
/// `insert_pair` describes.
proof fn lemma_insert_pair_at_index(
    parts: Seq<u32>,
    cs: Seq<Seq<u64>>,
    v: u32,
    c: Seq<u64>,
    idx: int,
)
    requires
        parts.len() == cs.len(),
        0 <= idx <= parts.len(),
        forall|k: int| 0 <= k < idx ==> parts[k] < v,
        idx < parts.len() ==> !(parts[idx] < v),
        !parts.contains(v),
        sorted_u32(parts),
    ensures
        insert_pair(parts, cs, v, c) == (parts.insert(idx, v), cs.insert(idx, c)),
    decreases parts.len(),
{
    lemma_insert_sorted_at_index(parts, v, idx);
    lemma_insert_pair_props(parts, cs, v, c);
    if parts.len() == 0 {
        assert(insert_pair(parts, cs, v, c).1 =~= cs.insert(0, c));
    } else if v < parts[0] {
        assert(idx == 0) by {
            if idx > 0 {
                assert(parts[0] < v);
            }
        }
        assert(insert_pair(parts, cs, v, c).1 =~= cs.insert(0, c));
    } else {
        let pd = parts.drop_first();
        let cd = cs.drop_first();
        assert(sorted_u32(pd) && forall|k: int| 0 <= k < pd.len() ==> pd[k] == parts[k + 1]) by {
            assert(forall|k: int| 0 <= k < pd.len() ==> pd[k] == parts[k + 1]);
        }
        assert(!pd.contains(v)) by {
            if pd.contains(v) {
                let m = choose|m: int| 0 <= m < pd.len() && pd[m] == v;
                assert(parts[m + 1] == v);
            }
        }
        assert(parts[0] != v) by {
            if parts[0] == v {
                assert(parts.contains(v)) by {
                    assert(parts[0] == v);
                }
            }
        }
        assert(idx > 0);
        assert(idx - 1 < pd.len() ==> !(pd[idx - 1] < v)) by {
            if idx - 1 < pd.len() {
                assert(pd[idx - 1] == parts[idx]);
            }
        }
        lemma_insert_pair_at_index(pd, cd, v, c, idx - 1);
        assert(insert_pair(parts, cs, v, c).1 =~= cs.insert(idx, c)) by {
            assert(insert_pair(parts, cs, v, c).1 == seq![cs[0]] + insert_pair(pd, cd, v, c).1);
            assert(insert_pair(pd, cd, v, c).1 == cd.insert(idx - 1, c));
            assert(seq![cs[0]] + cd.insert(idx - 1, c) =~= cs.insert(idx, c));
        }
    }
}

/// A commitment payload is exactly one scalar per threshold coefficient.
pub open spec fn round1_payload_ok(payload: Seq<u64>, threshold: usize) -> bool {
    payload.len() == threshold && forall|k: int|
        0 <= k < payload.len() ==> payload[k] < FIELD_MODULUS
}

/// Complaint list after folding in one verification payload: every entry
/// that names a participant and is not yet listed is inserted at its place
/// in id order, so the list does not depend on arrival order.
pub open spec fn complaints_after(cur: Seq<u32>, payload: Seq<u64>, participants: Seq<u32>) -> Seq<
    u32,
>
    decreases payload.len(),
{
    if payload.len() == 0 {
        cur
    } else {
        let rest = complaints_after(cur, payload.drop_last(), participants);
        let e = payload.last();
        if e <= u32::MAX && participants.contains(e as u32) && !rest.contains(e as u32) {
            insert_sorted_u32(rest, e as u32)
        } else {
            rest
        }
    }
}

/// Folding complaints keeps the list sorted.
proof fn lemma_complaints_after_sorted(cur: Seq<u32>, payload: Seq<u64>, participants: Seq<u32>)
    requires
        sorted_u32(cur),
    ensures
        sorted_u32(complaints_after(cur, payload, participants)),
    decreases payload.len(),
{
    if payload.len() > 0 {
        lemma_complaints_after_sorted(cur, payload.drop_last(), participants);
        let rest = complaints_after(cur, payload.drop_last(), participants);
        let e = payload.last();
        if e <= u32::MAX && participants.contains(e as u32) && !rest.contains(e as u32) {
            lemma_insert_sorted_wf(rest, e as u32);
        }
    }
}

/// Participants and their commitments, with the accused removed, order
/// kept.
pub open spec fn retain_pair(parts: Seq<u32>, cs: Seq<Seq<u64>>, bad: Seq<u32>) -> (Seq<u32>, Seq<
    Seq<u64>,
>)
    decreases parts.len(),
{
    if parts.len() == 0 {
        (Seq::empty(), Seq::empty())
    } else {
        let (rp, rc) = retain_pair(parts.drop_last(), cs.drop_last(), bad);
        if bad.contains(parts.last()) {
            (rp, rc)
        } else {
            (rp.push(parts.last()), rc.push(cs.last()))
        }
    }
}

/// Retention keeps the lockstep between participants and commitments,
/// keeps every kept pair an original pair, and keeps the id order.
pub proof fn lemma_retain_pair_props(parts: Seq<u32>, cs: Seq<Seq<u64>>, bad: Seq<u32>)
    requires
        parts.len() == cs.len(),
        sorted_u32(parts),
        distinct_u32(parts),
    ensures
        ({
            let (rp, rc) = retain_pair(parts, cs, bad);
            &&& rp.len() == rc.len()
            &&& rp.len() <= parts.len()
            &&& sorted_u32(rp)
            &&& distinct_u32(rp)
            &&& forall|k: int|
                0 <= k < rp.len() ==> exists|j: int|
                    0 <= j < parts.len() && parts[j] == #[trigger] rp[k] && cs[j] == rc[k]
            &&& forall|k: int| 0 <= k < rp.len() ==> !bad.contains(#[trigger] rp[k])
        }),
    decreases parts.len(),
{
    if parts.len() > 0 {
        let pd = parts.drop_last();
        let cd = cs.drop_last();
        assert(sorted_u32(pd) && distinct_u32(pd)) by {
            assert(forall|k: int| 0 <= k < pd.len() ==> pd[k] == parts[k]);
        }
        lemma_retain_pair_props(pd, cd, bad);
        let (rp0, rc0) = retain_pair(pd, cd, bad);
        let (rp, rc) = retain_pair(parts, cs, bad);
        if !bad.contains(parts.last()) {
            assert(rp == rp0.push(parts.last()) && rc == rc0.push(cs.last()));
            // every kept element comes from the strictly earlier prefix, so
            // it stays below the appended one
            assert forall|k: int| 0 <= k < rp0.len() implies rp0[k] < parts.last() by {
                let j = choose|j: int| 0 <= j < pd.len() && pd[j] == rp0[k] && cd[j] == rc0[k];
                assert(parts[j] == rp0[k]);
                assert(parts[j] < parts[parts.len() - 1]);
            }
            assert forall|i: int, j: int| 0 <= i < j < rp.len() implies rp[i] < rp[j] by {
                if j == rp.len() - 1 {
                    assert(rp[i] == rp0[i]);
                } else {
                    assert(rp[i] == rp0[i] && rp[j] == rp0[j]);
                }
            }
            assert forall|k: int| 0 <= k < rp.len() implies exists|j: int|
                0 <= j < parts.len() && parts[j] == #[trigger] rp[k] && cs[j] == rc[k] by {
                if k < rp0.len() {
                    let j = choose|j: int| 0 <= j < pd.len() && pd[j] == rp0[k] && cd[j] == rc0[k];
                    assert(parts[j] == rp[k] && cs[j] == rc[k]);
                } else {
                    assert(parts[parts.len() - 1] == rp[k] && cs[cs.len() - 1] == rc[k]);
                }
            }
        } else {
            assert forall|k: int| 0 <= k < rp.len() implies exists|j: int|
                0 <= j < parts.len() && parts[j] == #[trigger] rp[k] && cs[j] == rc[k] by {
                let j = choose|j: int| 0 <= j < pd.len() && pd[j] == rp[k] && cd[j] == rc[k];
                assert(parts[j] == rp[k] && cs[j] == rc[k]);
            }
        }
    }
}

/// Field sum of column `k` over a list of commitment vectors.
pub open spec fn agg_at(cs: Seq<Seq<u64>>, k: int) -> int
    decreases cs.len(),
{
    if cs.len() == 0 {
        0
    } else {
        fadd(agg_at(cs.drop_last(), k), cs.last()[k] as int)
    }
}

/// Column sums of commitment vectors stay below the modulus.
pub proof fn lemma_agg_at_bound(cs: Seq<Seq<u64>>, k: int)
    ensures
        0 <= agg_at(cs, k) < FIELD_MODULUS,
    decreases cs.len(),
{
    if cs.len() > 0 {
        lemma_agg_at_bound(cs.drop_last(), k);
    }
}

/// The aggregated commitment polynomial of a ceremony: column sums of the
/// participants' commitment vectors, one per coefficient.
pub open spec fn aggregate_commitments(cs: Seq<Seq<u64>>, threshold: usize) -> Seq<u64> {
    Seq::new(threshold as nat, |k: int| agg_at(cs, k) as u64)
}

/// A key generation ceremony for one epoch.
pub struct Ceremony {
    /// Epoch this ceremony (or the last one) belongs to.
    pub epoch: u64,
    /// Announced validator set; fixed while the ceremony runs.
    pub validators: Vec<u32>,
    /// Number of shares needed to use the resulting key; also the number
    /// of contributions that advance a round.
    pub threshold: usize,
    /// Current phase.
    pub state: CeremonyState,
    /// Validators that contributed in the current round, in id order.
    pub contributors: Vec<u32>,
    /// Validators whose commitments are (still) part of the key, in id
    /// order.
    pub participants: Vec<u32>,
    /// Commitment vector of each participant, in lockstep with
    /// `participants`.
    pub commitments: Vec<Vec<u64>>,
    /// Validators accused during verification, in id order, to be excluded
    /// when the verification round closes.
    pub complaints: Vec<u32>,
}

/// The views of a list of scalar vectors.
pub open spec fn views_of(s: Seq<Vec<u64>>) -> Seq<Seq<u64>> {
    Seq::new(s.len(), |i: int| s[i]@)
}

impl Ceremony {
    /// Commitment vectors as mathematical sequences.
    pub open spec fn commitment_views(&self) -> Seq<Seq<u64>> {
        views_of(self.commitments@)
    }

    /// Structural invariant.  The contributor, participant and complaint
    /// lists are kept in ascending id order so that the state does not
    /// depend on the order in which same-round submissions arrived; the
    /// validator list keeps its announced order, which fixes each
    /// validator's interpolation point.
    pub open spec fn wf(&self) -> bool {
        &&& distinct_u32(self.validators@)
        &&& self.validators@.len() < FIELD_MODULUS
        &&& sorted_u32(self.contributors@)
        &&& sorted_u32(self.participants@)
        &&& sorted_u32(self.complaints@)
        &&& distinct_u32(self.contributors@)
        &&& distinct_u32(self.participants@)
        &&& self.participants@.len() == self.commitments@.len()
        &&& (self.state is Round1 ==> self.participants@ == self.contributors@)
        &&& (in_progress(self.state) || is_terminal(self.state)) ==> (1 <= self.threshold
            <= self.validators@.len())
        &&& forall|i: int|
            0 <= i < self.participants@.len() ==> self.validators@.contains(self.participants@[i])
        &&& forall|i: int|
            0 <= i < self.commitments@.len() ==> round1_payload_ok(
                self.commitments@[i]@,
                self.threshold,
            )
        &&& (self.state is Round2 || self.state is Round3 || self.state is Round4) ==> forall|
            i: int,
        |
            0 <= i < self.contributors@.len() ==> self.participants@.contains(
                self.contributors@[i],
            )
    }

    /// A ceremony that has never started.
    pub fn new() -> (r: Ceremony)
        ensures
            r.wf(),
            r.state == CeremonyState::Idle,
            r.epoch == 0u64,
    {
        Ceremony {
            epoch: 0,
            validators: Vec::new(),
            threshold: 0,
            state: CeremonyState::Idle,
            contributors: Vec::new(),
            participants: Vec::new(),
            commitments: Vec::new(),
            complaints: Vec::new(),
        }
    }

    /// Current phase.
    pub fn status(&self) -> (r: CeremonyState)
        ensures
            r == self.state,
    {
        self.state
    }

    /// Starts a ceremony for the given validator set and threshold.
    ///
    /// Fails with `CeremonyInProgress` while a round is open.  From a
    /// terminal state the epoch advances by one and the old ceremony's
    /// records are discarded; from `Idle` the epoch stays.
    pub fn start_ceremony(&mut self, validators: Vec<u32>, threshold: usize) -> (r: Result<
        (),
        Error,
    >)
        requires
            old(self).wf(),
            distinct_u32(validators@),
            1 <= threshold <= validators@.len(),
            validators@.len() < FIELD_MODULUS,
            is_terminal(old(self).state) ==> old(self).epoch < u64::MAX,
        ensures
            final(self).wf(),
            in_progress(old(self).state) ==> r == Err::<(), Error>(Error::CeremonyInProgress)
                && *final(self) == *old(self),
            !in_progress(old(self).state) ==> ({
                &&& r == Ok::<(), Error>(())
                &&& final(self).state == CeremonyState::Round1
                &&& final(self).validators@ == validators@
                &&& final(self).threshold == threshold
                &&& final(self).epoch == (if is_terminal(old(self).state) {
                    (old(self).epoch + 1) as u64
                } else {
                    old(self).epoch
                })
                &&& final(self).contributors@ =~= Seq::<u32>::empty()
                &&& final(self).participants@ =~= Seq::<u32>::empty()
                &&& final(self).commitments@ =~= Seq::<Vec<u64>>::empty()
                &&& final(self).complaints@ =~= Seq::<u32>::empty()
            }),
    {
        match self.state {
            CeremonyState::Round1 | CeremonyState::Round2 | CeremonyState::Round3
                | CeremonyState::Round4 => Err(Error::CeremonyInProgress),
            CeremonyState::Completed | CeremonyState::Aborted => {
                self.epoch = self.epoch + 1;
                self.validators = validators;
                self.threshold = threshold;
                self.state = CeremonyState::Round1;
                self.contributors = Vec::new();
                self.participants = Vec::new();
                self.commitments = Vec::new();
                self.complaints = Vec::new();
                Ok(())
            },
            CeremonyState::Idle => {
                self.validators = validators;
                self.threshold = threshold;
                self.state = CeremonyState::Round1;
                self.contributors = Vec::new();
                self.participants = Vec::new();
                self.commitments = Vec::new();
                self.complaints = Vec::new();
                Ok(())
            },
        }
    }
}

/// The refusal, if any, that a round contribution meets.
pub open spec fn submit_refusal(c: Ceremony, validator: u32, round: u8, payload: Seq<u64>) -> Option<
    Error,
> {
    if !in_progress(c.state) {
        Some(Error::CeremonyNotInProgress)
    } else if round != round_tag(c.state) {
        Some(Error::InvalidRound)
    } else if c.state is Round1 && !c.validators@.contains(validator) {
        Some(Error::KeyEpochMismatch)
    } else if !(c.state is Round1) && !c.participants@.contains(validator) {
        Some(Error::KeyEpochMismatch)
    } else if c.contributors@.contains(validator) {
        Some(Error::DuplicateShare)
    } else if c.state is Round1 && !round1_payload_ok(payload, c.threshold) {
        Some(Error::InvalidContribution)
    } else {
        None
    }
}

/// Number of contributions that closes the current round.
pub open spec fn round_goal(c: Ceremony) -> int {
    if c.state is Round1 {
        c.threshold as int
    } else {
        c.participants@.len() as int
    }
}

/// Relation between a ceremony before and after one `submit_round_contribution`
/// call with the given arguments and result.
pub open spec fn submit_post(
    pre: Ceremony,
    post: Ceremony,
    validator: u32,
    round: u8,
    payload: Seq<u64>,
    r: Result<(), Error>,
) -> bool {
    let rf = submit_refusal(pre, validator, round, payload);
    match rf {
        Some(e) => r == Err::<(), Error>(e) && post == pre,
        None => {
            let added = insert_sorted_u32(pre.contributors@, validator);
            let adv = added.len() == round_goal(pre);
            &&& r == Ok::<(), Error>(())
            &&& (pre.state is Round1 ==> {
                &&& post.participants@ =~= insert_sorted_u32(pre.participants@, validator)
                &&& post.commitment_views() =~= insert_pair(
                    pre.participants@,
                    pre.commitment_views(),
                    validator,
                    payload,
                ).1
                &&& post.complaints@ =~= pre.complaints@
                &&& (adv ==> post.state is Round2 && post.contributors@
                    =~= Seq::<u32>::empty())
                &&& (!adv ==> post.state is Round1 && post.contributors@
                    =~= added)
            })
            &&& (pre.state is Round2 ==> {
                &&& post.participants@ =~= pre.participants@
                &&& post.commitment_views() =~= pre.commitment_views()
                &&& post.complaints@ =~= pre.complaints@
                &&& (adv ==> post.state is Round3 && post.contributors@
                    =~= Seq::<u32>::empty())
                &&& (!adv ==> post.state is Round2 && post.contributors@
                    =~= added)
            })
            &&& (pre.state is Round3 ==> {
                let comps = complaints_after(
                    pre.complaints@,
                    payload,
                    pre.participants@,
                );
                &&& (!adv ==> {
                    &&& post.state is Round3
                    &&& post.contributors@ =~= added
                    &&& post.participants@ =~= pre.participants@
                    &&& post.commitment_views() =~= pre.commitment_views()
                    &&& post.complaints@ =~= comps
                })
                &&& (adv ==> {
                    let (rp, rc) = retain_pair(
                        pre.participants@,
                        pre.commitment_views(),
                        comps,
                    );
                    &&& post.participants@ =~= rp
                    &&& post.commitment_views() =~= rc
                    &&& post.complaints@ =~= Seq::<u32>::empty()
                    &&& post.contributors@ =~= Seq::<u32>::empty()
                    &&& post.state == (if rp.len() < pre.threshold {
                        CeremonyState::Aborted
                    } else {
                        CeremonyState::Round4
                    })
                })
            })
            &&& (pre.state is Round4 ==> {
                &&& post.participants@ =~= pre.participants@
                &&& post.commitment_views() =~= pre.commitment_views()
                &&& post.complaints@ =~= pre.complaints@
                &&& post.contributors@ =~= added
                &&& post.state is Round4
            })
        },
    }
}

/// Relation between a ceremony before and after one `complete_ceremony`
/// call with the given result.
pub open spec fn complete_post(
    pre: Ceremony,
    post: Ceremony,
    r: Result<(ThresholdKey, Vec<ValidatorShare>), Error>,
) -> bool {
    &&& !(pre.state is Completed || pre.round4_ready()) ==> (r == Err::<
        (ThresholdKey, Vec<ValidatorShare>),
        Error,
    >(Error::CeremonyNotInProgress) && post == pre)
    &&& (pre.state is Completed || pre.round4_ready()) ==> ({
        let agg = aggregate_commitments(pre.commitment_views(), pre.threshold);
        &&& post.state == CeremonyState::Completed
        &&& post.epoch == pre.epoch
        &&& post.validators@ == pre.validators@
        &&& post.threshold == pre.threshold
        &&& post.participants@ == pre.participants@
        &&& post.commitment_views() == pre.commitment_views()
        &&& post.contributors@ == pre.contributors@
        &&& post.complaints@ == pre.complaints@
        &&& r is Ok
        &&& ({
            let (key, shares) = r->Ok_0;
            &&& key == (ThresholdKey {
                epoch: pre.epoch,
                public_key: agg_at(pre.commitment_views(), 0) as u64,
                threshold: pre.threshold,
                total: pre.validators@.len() as usize,
            })
            &&& shares@.len() == pre.validators@.len()
            &&& forall|i: int| 0 <= i < shares@.len() ==> (#[trigger] shares@[i]).id
                == pre.validators@[i]
            &&& forall|i: int| 0 <= i < shares@.len() ==> (#[trigger] shares@[i]).x == i + 1
            &&& forall|i: int|
                0 <= i < shares@.len() ==> (#[trigger] shares@[i]).public_share == eval_poly_spec(
                    agg,
                    i + 1,
                ) && shares@[i].public_share < FIELD_MODULUS
        })
    })
}


impl Ceremony {
    /// Records one validator's contribution for the given round.
    ///
    /// A contribution is refused with `CeremonyNotInProgress` when no round
    /// is open, `InvalidRound` when its tag is not the current round,
    /// `KeyEpochMismatch` when the sender is not an active validator,
    /// `DuplicateShare` when the sender already contributed this round, and
    /// `InvalidContribution` when a commitment payload is malformed; a
    /// refused contribution changes nothing.  The round closes once
    /// `threshold` validators (for the commitment round) or all remaining
    /// participants (later rounds) have contributed; closing the
    /// verification round excludes every accused participant and aborts
    /// the ceremony when fewer than `threshold` participants remain.
    #[verifier::loop_isolation(false)]
    #[verifier::rlimit(100)]
    pub fn submit_round_contribution(&mut self, validator: u32, round: u8, payload: Vec<u64>) -> (r:
        Result<(), Error>)
        requires
            old(self).wf(),
        ensures
            final(self).wf(),
            final(self).epoch == old(self).epoch,
            final(self).validators@ == old(self).validators@,
            final(self).threshold == old(self).threshold,
            round_index(final(self).state) >= round_index(old(self).state),
            submit_post(*old(self), *final(self), validator, round, payload@, r),
    {
        let cur: u8 = match self.state {
            CeremonyState::Round1 => 1,
            CeremonyState::Round2 => 2,
            CeremonyState::Round3 => 3,
            CeremonyState::Round4 => 4,
            _ => {
                return Err(Error::CeremonyNotInProgress);
            },
        };
        if round != cur {
            return Err(Error::InvalidRound);
        }
        if cur == 1 {
            if !contains_u32(&self.validators, validator) {
                return Err(Error::KeyEpochMismatch);
            }
        } else {
            if !contains_u32(&self.participants, validator) {
                return Err(Error::KeyEpochMismatch);
            }
        }
        if contains_u32(&self.contributors, validator) {
            return Err(Error::DuplicateShare);
        }
        if cur == 1 {
            if payload.len() != self.threshold {
                return Err(Error::InvalidContribution);
            }
            let mut k: usize = 0;
            while k < payload.len()
                invariant
                    k <= payload@.len(),
                    forall|m: int| 0 <= m < k ==> payload@[m] < FIELD_MODULUS,
                decreases payload@.len() - k,
            {
                if payload[k] >= FIELD_MODULUS {
                    return Err(Error::InvalidContribution);
                }
                k = k + 1;
            }
        }
        let ghost payload_view = payload@;
        let idx = sorted_index_u32(&self.contributors, validator);
        proof {
            lemma_insert_sorted_at_index(self.contributors@, validator, idx as int);
            lemma_insert_sorted_wf(self.contributors@, validator);
        }
        self.contributors.insert(idx, validator);
        proof {
            assert(distinct_u32(self.contributors@)) by {
                assert(sorted_u32(self.contributors@));
            }
        }
        if cur == 1 {
            proof {
                lemma_insert_pair_at_index(
                    old(self).participants@,
                    old(self).commitment_views(),
                    validator,
                    payload_view,
                    idx as int,
                );
                lemma_insert_pair_props(
                    old(self).participants@,
                    old(self).commitment_views(),
                    validator,
                    payload_view,
                );
                lemma_insert_sorted_wf(old(self).participants@, validator);
            }
            self.participants.insert(idx, validator);
            self.commitments.insert(idx, payload);
            proof {
                assert(self.commitment_views() =~= old(self).commitment_views().insert(
                    idx as int,
                    payload_view,
                ));
                assert(self.participants@ == insert_sorted_u32(
                    old(self).participants@,
                    validator,
                ));
                assert(distinct_u32(self.participants@)) by {
                    assert(sorted_u32(self.participants@));
                }
                let (rp, rc) = insert_pair(
                    old(self).participants@,
                    old(self).commitment_views(),
                    validator,
                    payload_view,
                );
                assert(views_of(self.commitments@) == rc);
                assert(round1_payload_ok(payload_view, self.threshold));
                assert forall|m: int| 0 <= m < self.commitments@.len() implies round1_payload_ok(
                    self.commitments@[m]@,
                    self.threshold,
                ) by {
                    assert(views_of(self.commitments@)[m] == self.commitments@[m]@);
                    if rp[m] == validator && rc[m] == payload_view {
                    } else {
                        let j = choose|j: int|
                            0 <= j < old(self).participants@.len() && old(self).participants@[j]
                                == rp[m] && old(self).commitment_views()[j] == rc[m];
                        assert(old(self).commitment_views()[j] == old(self).commitments@[j]@);
                        assert(round1_payload_ok(old(self).commitments@[j]@, old(self).threshold));
                    }
                }
                assert forall|m: int| 0 <= m < self.participants@.len() implies
                    self.validators@.contains(#[trigger] self.participants@[m]) by {
                    if self.participants@[m] != validator {
                        assert(old(self).participants@.contains(self.participants@[m]));
                        let j = choose|j: int|
                            0 <= j < old(self).participants@.len() && old(self).participants@[j]
                                == self.participants@[m];
                    }
                }
            }
            if self.contributors.len() == self.threshold {
                self.contributors = Vec::new();
                self.state = CeremonyState::Round2;
            }
            return Ok(());
        }
        proof {
            assert forall|m: int| 0 <= m < self.contributors@.len() implies
                self.participants@.contains(#[trigger] self.contributors@[m]) by {
                if self.contributors@[m] != validator {
                    assert(old(self).contributors@.contains(self.contributors@[m]));
                    let j = choose|j: int|
                        0 <= j < old(self).contributors@.len() && old(self).contributors@[j]
                            == self.contributors@[m];
                    assert(old(self).participants@.contains(old(self).contributors@[j]));
                }
            }
        }
        if cur == 3 {
            let np = payload.len();
            let mut j: usize = 0;
            while j < np
                invariant
                    j <= np,
                    np == payload@.len(),
                    self.epoch == old(self).epoch,
                    self.validators@ == old(self).validators@,
                    self.threshold == old(self).threshold,
                    self.state == old(self).state,
                    self.participants@ == old(self).participants@,
                    self.commitments@ == old(self).commitments@,
                    self.contributors@ == insert_sorted_u32(old(self).contributors@, validator),
                    sorted_u32(self.complaints@),
                    self.complaints@ == complaints_after(
                        old(self).complaints@,
                        payload@.take(j as int),
                        self.participants@,
                    ),
                decreases np - j,
            {
                let e = payload[j];
                if e <= u32::MAX as u64 {
                    let id = e as u32;
                    if contains_u32(&self.participants, id) && !contains_u32(&self.complaints, id)
                    {
                        let cdx = sorted_index_u32(&self.complaints, id);
                        proof {
                            lemma_insert_sorted_at_index(self.complaints@, id, cdx as int);
                            lemma_insert_sorted_wf(self.complaints@, id);
                        }
                        self.complaints.insert(cdx, id);
                    }
                }
                j = j + 1;
                proof {
                    assert(payload@.take(j as int).drop_last() =~= payload@.take(j as int - 1));
                }
            }
            proof {
                assert(payload@.take(np as int) =~= payload@);
            }
        }
        if self.contributors.len() == self.participants.len() {
            if cur == 2 {
                self.contributors = Vec::new();
                self.state = CeremonyState::Round3;
            } else if cur == 3 {
                let ghost parts0 = self.participants@;
                let ghost cs0 = self.commitment_views();
                let ghost bad0 = self.complaints@;
                let n = self.participants.len();
                let mut newp: Vec<u32> = Vec::new();
                let mut newc: Vec<Vec<u64>> = Vec::new();
                let mut i: usize = 0;
                while i < n
                    invariant
                        i <= n,
                        n == self.participants@.len(),
                        n == self.commitments@.len(),
                        (newp@, views_of(newc@)) == retain_pair(
                            self.participants@.take(i as int),
                            self.commitment_views().take(i as int),
                            self.complaints@,
                        ),
                    decreases n - i,
                {
                    let v = self.participants[i];
                    let ghost before_cv = views_of(newc@);
                    if !contains_u32(&self.complaints, v) {
                        newp.push(v);
                        let row = clone_row(&self.commitments[i]);
                        newc.push(row);
                        proof {
                            assert(views_of(newc@) =~= before_cv.push(
                                self.commitments@[i as int]@,
                            ));
                        }
                    }
                    i = i + 1;
                    proof {
                        assert(self.participants@.take(i as int).drop_last()
                            =~= self.participants@.take(i as int - 1));
                        assert(self.commitment_views().take(i as int).drop_last()
                            =~= self.commitment_views().take(i as int - 1));
                        assert(self.commitment_views().take(i as int).last()
                            == self.commitments@[i as int - 1]@);
                    }
                }
                proof {
                    assert(self.participants@.take(n as int) =~= self.participants@);
                    assert(self.commitment_views().take(n as int) =~= self.commitment_views());
                    lemma_retain_pair_props(
                        self.participants@,
                        self.commitment_views(),
                        self.complaints@,
                    );
                    let parts = self.participants@;
                    let cs = self.commitment_views();
                    let (rp, rc) = retain_pair(parts, cs, self.complaints@);
                    assert forall|k: int| 0 <= k < rp.len() implies (self.validators@.contains(
                        rp[k],
                    ) && round1_payload_ok(rc[k], self.threshold)) by {
                        let j = choose|j: int|
                            0 <= j < parts.len() && parts[j] == rp[k] && cs[j] == rc[k];
                        assert(self.validators@.contains(parts[j]));
                        assert(cs[j] == self.commitments@[j]@);
                        assert(round1_payload_ok(self.commitments@[j]@, self.threshold));
                    }
                }
                let kept = newp.len();
                self.participants = newp;
                self.commitments = newc;
                self.complaints = Vec::new();
                self.contributors = Vec::new();
                if kept < self.threshold {
                    self.state = CeremonyState::Aborted;
                } else {
                    self.state = CeremonyState::Round4;
                }
                proof {
                    let (rp, rc) = retain_pair(parts0, cs0, bad0);
                    assert(self.participants@ == rp);
                    assert(views_of(self.commitments@) == rc);
                    assert forall|m: int| 0 <= m < self.commitments@.len() implies
                        round1_payload_ok(self.commitments@[m]@, self.threshold) by {
                        assert(views_of(self.commitments@)[m] == self.commitments@[m]@);
                        assert(round1_payload_ok(rc[m], self.threshold));
                    }
                    assert forall|m: int| 0 <= m < self.participants@.len() implies
                        self.validators@.contains(self.participants@[m]) by {
                        assert(self.validators@.contains(rp[m]));
                    }
                }
            }
        }
        proof {
            if self.commitments@ == old(self).commitments@ {
                assert forall|m: int| 0 <= m < self.commitments@.len() implies round1_payload_ok(
                    self.commitments@[m]@,
                    self.threshold,
                ) by {
                    assert(self.commitments@[m] == old(self).commitments@[m]);
                    assert(round1_payload_ok(old(self).commitments@[m]@, old(self).threshold));
                }
            }
        }
        Ok(())
    }

    /// Whether every remaining participant has acknowledged aggregation,
    /// so that the ceremony may be completed.
    pub open spec fn round4_ready(&self) -> bool {
        self.state is Round4 && self.contributors@.len() == self.participants@.len()
    }

    /// Finalizes the ceremony: sums the participants' commitment vectors
    /// into the aggregate polynomial, whose constant coefficient is the
    /// group public key, and derives every announced validator's public
    /// share by evaluating that polynomial at the validator's point.
    ///
    /// Callable once the aggregation round is fully acknowledged; fails
    /// with `CeremonyNotInProgress` before that.  Once completed, repeat
    /// calls change nothing and return the same key and shares.
    #[verifier::loop_isolation(false)]
    pub fn complete_ceremony(&mut self) -> (r: Result<(ThresholdKey, Vec<ValidatorShare>), Error>)
        requires
            old(self).wf(),
        ensures
            final(self).wf(),
            round_index(final(self).state) >= round_index(old(self).state),
            complete_post(*old(self), *final(self), r),
            old(self).state is Completed ==> *final(self) == *old(self),
    {
        match self.state {
            CeremonyState::Completed => {},
            CeremonyState::Round4 => {
                if self.contributors.len() != self.participants.len() {
                    return Err(Error::CeremonyNotInProgress);
                }
            },
            _ => {
                return Err(Error::CeremonyNotInProgress);
            },
        }
        let t = self.threshold;
        let mut agg: Vec<u64> = Vec::new();
        let mut k: usize = 0;
        while k < t
            invariant
                k <= t,
                agg@.len() == k,
                forall|m: int| 0 <= m < k ==> agg@[m] == agg_at(Seq::<Seq<u64>>::empty(), m),
            decreases t - k,
        {
            agg.push(0);
            k = k + 1;
        }
        let n = self.participants.len();
        let mut i: usize = 0;
        proof {
            assert(self.commitment_views().take(0) =~= Seq::<Seq<u64>>::empty());
        }
        while i < n
            invariant
                i <= n,
                agg@.len() == t,
                forall|m: int|
                    0 <= m < t ==> agg@[m] == agg_at(
                        self.commitment_views().take(i as int),
                        m,
                    ) && agg@[m] < FIELD_MODULUS,
            decreases n - i,
        {
            let mut m: usize = 0;
            while m < t
                invariant
                    m <= t,
                    i < n,
                    agg@.len() == t,
                    forall|q: int|
                        m <= q < t ==> agg@[q] == agg_at(
                            self.commitment_views().take(i as int),
                            q,
                        ) && agg@[q] < FIELD_MODULUS,
                    forall|q: int|
                        0 <= q < m ==> agg@[q] == agg_at(
                            self.commitment_views().take(i as int + 1),
                            q,
                        ) && agg@[q] < FIELD_MODULUS,
                decreases t - m,
            {
                let s = add_mod(agg[m], self.commitments[i][m]);
                agg.set(m, s);
                proof {
                    assert(self.commitment_views().take(i as int + 1).drop_last()
                        =~= self.commitment_views().take(i as int));
                    assert(self.commitment_views().take(i as int + 1).last()
                        == self.commitments@[i as int]@);
                }
                m = m + 1;
            }
            i = i + 1;
        }
        proof {
            assert(self.commitment_views().take(n as int) =~= self.commitment_views());
        }
        let pk = agg[0];
        let nv = self.validators.len();
        let key = ThresholdKey { epoch: self.epoch, public_key: pk, threshold: t, total: nv };
        let mut shares: Vec<ValidatorShare> = Vec::new();
        let mut i2: usize = 0;
        while i2 < nv
            invariant
                i2 <= nv,
                nv == self.validators@.len(),
                shares@.len() == i2,
                forall|q: int|
                    0 <= q < i2 ==> (#[trigger] shares@[q]).id == self.validators@[q],
                forall|q: int| 0 <= q < i2 ==> (#[trigger] shares@[q]).x == q + 1,
                forall|q: int|
                    0 <= q < i2 ==> (#[trigger] shares@[q]).public_share == eval_poly_spec(
                        aggregate_commitments(self.commitment_views(), t),
                        q + 1,
                    ) && shares@[q].public_share < FIELD_MODULUS,
            decreases nv - i2,
        {
            let v = self.validators[i2];
            let x = (i2 + 1) as u64;
            let ps = eval_poly(&agg, x);
            proof {
                assert(agg@ =~= aggregate_commitments(self.commitment_views(), t));
            }
            shares.push(ValidatorShare { id: v, x, public_share: ps });
            i2 = i2 + 1;
        }
        self.state = CeremonyState::Completed;
        Ok((key, shares))
    }
}

/// Copies one commitment row.
fn clone_row(row: &Vec<u64>) -> (r: Vec<u64>)
    ensures
        r@ == row@,
{
    let mut out: Vec<u64> = Vec::new();
    let mut i: usize = 0;
    while i < row.len()
        invariant
            i <= row@.len(),
            out@ =~= row@.take(i as int),
        decreases row@.len() - i,
    {
        out.push(row[i]);
        i = i + 1;
    }
    proof {
        assert(row@.take(row@.len() as int) =~= row@);
    }
    out
}

/// First index whose element is not below `x`, in a sorted list.
fn sorted_index_u32(v: &Vec<u32>, x: u32) -> (idx: usize)
    ensures
        idx <= v@.len(),
        forall|k: int| 0 <= k < idx ==> v@[k] < x,
        idx < v@.len() ==> !(v@[idx as int] < x),
{
    let n = v.len();
    let mut idx: usize = 0;
    let mut scanning = true;
    while scanning && idx < n
        invariant
            n == v@.len(),
            idx <= n,
            forall|k: int| 0 <= k < idx ==> v@[k] < x,
            !scanning ==> idx < n && !(v@[idx as int] < x),
        decreases n - idx + (if scanning { 1int } else { 0int }),
    {
        if v[idx] < x {
            idx = idx + 1;
        } else {
            scanning = false;
        }
    }
    idx
}

/// Whether `v@` contains `x`.
pub fn contains_u32(v: &Vec<u32>, x: u32) -> (r: bool)
    ensures
        r == v@.contains(x),
{
    let n = v.len();
    let mut i: usize = 0;
    while i < n
        invariant
            n == v@.len(),
            i <= n,
            forall|k: int| 0 <= k < i ==> v@[k] != x,
        decreases n - i,
    {
        if v[i] == x {
            return true;
        }
        i = i + 1;
    }
    false
}


/// Duplicate contributions bounce off: when a contribution by `validator`
/// was accepted without closing its round, a second submission by the
/// same validator for the same round is refused as `DuplicateShare`, and
/// the refused call leaves the ceremony exactly as it was.
pub proof fn lemma_duplicate_contribution_rejected(
    pre: Ceremony,
    mid: Ceremony,
    post: Ceremony,
    validator: u32,
    round: u8,
    payload: Seq<u64>,
    payload2: Seq<u64>,
    r2: Result<(), Error>,
)
    requires
        pre.wf(),
        submit_refusal(pre, validator, round, payload) is None,
        submit_post(pre, mid, validator, round, payload, Ok(())),
        mid.state == pre.state,
        mid.validators@ == pre.validators@,
        submit_post(mid, post, validator, round, payload2, r2),
    ensures
        r2 == Err::<(), Error>(Error::DuplicateShare),
        post == mid,
{
    let added = insert_sorted_u32(pre.contributors@, validator);
    let adv = added.len() == round_goal(pre);
    lemma_insert_sorted_wf(pre.contributors@, validator);
    if pre.state is Round1 {
        if adv {
            assert(mid.state is Round2);
        }
        assert(mid.contributors@ =~= added);
    } else if pre.state is Round2 {
        if adv {
            assert(mid.state is Round3);
        }
        assert(mid.contributors@ =~= added);
    } else if pre.state is Round3 {
        if adv {
            assert(!(mid.state is Round3));
        }
        assert(mid.contributors@ =~= added);
    } else {
        assert(pre.state is Round4);
        assert(mid.contributors@ =~= added);
    }
    assert(mid.contributors@.contains(validator));
    assert(submit_refusal(mid, validator, round, payload2) == Some(Error::DuplicateShare));
}

/// Rounds only move forward: in the verification round, a contribution
/// still tagged for the commitment round is refused as `InvalidRound`
/// (and, like every refusal, changes nothing).
pub proof fn lemma_stale_round_rejected(c: Ceremony, validator: u32, payload: Seq<u64>)
    requires
        c.state is Round3,
    ensures
        submit_refusal(c, validator, 1, payload) == Some(Error::InvalidRound),
{
}

} // verus!
