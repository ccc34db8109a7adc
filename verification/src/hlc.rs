//! Hybrid logical clock and timestamp-vote consensus.
//!
//! The clock fuses a physical millisecond reading with a logical counter:
//! whenever the observed physical time does not move forward, the logical
//! counter does, so any two causally ordered observations compare strictly
//! under the lexicographic `(physical, logical)` order.  The agreed clock
//! advances by quorum vote: validators propose physical timestamps, each is
//! checked against a bounded-deviation policy, and once enough mutually
//! close votes accumulate their median becomes the new agreed physical
//! time.
//!
//! The host reads physical time itself and passes every reading in as a
//! plain argument, so the whole module is deterministic.

use vstd::prelude::*;

verus! {

use vstd::multiset::Multiset;
use crate::errors::Error;

/// A hybrid logical clock value.
#[derive(Clone, Copy, Debug, PartialEq, Eq, Structural)]
pub struct HLC {
    /// Physical time in milliseconds.
    pub physical: u64,
    /// Logical counter breaking ties within one millisecond.
    pub logical: u16,
    /// Validator that produced the value.
    pub validator_id: u32,
}

/// Strict lexicographic order on `(physical, logical)`.  The validator id
/// is a tag, not part of the order.
pub open spec fn hlc_lt(a: HLC, b: HLC) -> bool {
    a.physical < b.physical || (a.physical == b.physical && a.logical < b.logical)
}

/// `hlc_lt` is transitive.
pub proof fn lemma_hlc_lt_transitive(a: HLC, b: HLC, c: HLC)
    requires
        hlc_lt(a, b),
        hlc_lt(b, c),
    ensures
        hlc_lt(a, c),
{
}

/// `hlc_lt` is irreflexive and asymmetric: no value precedes itself, and no
/// two values precede each other.
pub proof fn lemma_hlc_lt_strict(a: HLC, b: HLC)
    ensures
        !hlc_lt(a, a),
        hlc_lt(a, b) ==> !hlc_lt(b, a),
{
}

/// Any two clock values with distinct `(physical, logical)` pairs are
/// ordered one way or the other: the order is total.
pub proof fn lemma_hlc_lt_total(a: HLC, b: HLC)
    ensures
        hlc_lt(a, b) || hlc_lt(b, a) || (a.physical == b.physical && a.logical == b.logical),
{
}

/// Causality across validators: once a node's clock does not lag a value
/// it observed (as `update_hlc` guarantees after a merge), every value
/// the node produces from then on is strictly greater than the observed
/// one.
pub proof fn lemma_hlc_causal_order(observed: HLC, last: HLC, next: HLC)
    requires
        !hlc_lt(last, observed),
        hlc_lt(last, next),
    ensures
        hlc_lt(observed, next),
{
}

/// The clock value that follows `last` after observing physical time
/// `observed`: a fresh physical time resets the logical counter, otherwise
/// the counter increments (rolling into the next millisecond when
/// exhausted).
pub open spec fn hlc_advance_spec(last: HLC, observed: u64, validator_id: u32) -> HLC {
    if observed > last.physical {
        HLC { physical: observed, logical: 0, validator_id }
    } else if last.logical < u16::MAX {
        HLC { physical: last.physical, logical: (last.logical + 1) as u16, validator_id }
    } else {
        HLC { physical: (last.physical + 1) as u64, logical: 0, validator_id }
    }
}

/// Advancing a clock below the physical limit yields a strictly greater
/// value that never lags the observation.
pub proof fn lemma_hlc_advance_increases(last: HLC, observed: u64, validator_id: u32)
    requires
        last.physical < u64::MAX,
    ensures
        hlc_lt(last, hlc_advance_spec(last, observed, validator_id)),
        hlc_advance_spec(last, observed, validator_id).physical >= observed,
        hlc_advance_spec(last, observed, validator_id).physical >= last.physical,
{
}

impl HLC {
    /// Computes the clock value that follows `last` for the observed
    /// physical time.  The result is strictly greater than `last` and its
    /// physical part never lags the observation.
    pub fn now(last: &HLC, observed_physical: u64, validator_id: u32) -> (r: HLC)
        requires
            last.physical < u64::MAX,
        ensures
            r == hlc_advance_spec(*last, observed_physical, validator_id),
            hlc_lt(*last, r),
            r.physical >= observed_physical,
            r.validator_id == validator_id,
    {
        if observed_physical > last.physical {
            HLC { physical: observed_physical, logical: 0, validator_id }
        } else if last.logical < u16::MAX {
            HLC { physical: last.physical, logical: last.logical + 1, validator_id }
        } else {
            HLC { physical: last.physical + 1, logical: 0, validator_id }
        }
    }
}

/// One accepted timestamp vote.
#[derive(Clone, Copy, Debug, PartialEq, Eq, Structural)]
pub struct Vote {
    /// Voting validator.
    pub validator: u32,
    /// Proposed physical time in milliseconds.
    pub proposed: u64,
}

/// Tuning of the timestamp consensus.  The bounds guard the
/// Byzantine-fault tolerance of the agreed clock, so hosts must choose
/// them deliberately; none has a universally right default.
#[derive(Clone, Copy, Debug, PartialEq, Eq, Structural)]
pub struct HlcConfig {
    /// Maximum distance between a proposed timestamp and the local
    /// physical reading.
    pub deviation_bound: u64,
    /// How far behind the agreed physical time a proposal may lie.
    pub backward_tolerance: u64,
    /// Number of accepted votes needed before agreement is attempted
    /// (hosts typically use two thirds of the validator count).
    pub quorum: usize,
    /// Maximum spread between the smallest and largest accumulated vote
    /// for agreement to be declared.
    pub agreement_window: u64,
}

/// Strictly sorted by `(proposed, validator)`.
pub open spec fn votes_sorted(s: Seq<Vote>) -> bool {
    forall|i: int, j: int|
        0 <= i < j < s.len() ==> (s[i].proposed < s[j].proposed
            || (s[i].proposed == s[j].proposed && s[i].validator < s[j].validator))
}

/// No validator appears twice.
pub open spec fn votes_distinct(s: Seq<Vote>) -> bool {
    forall|i: int, j: int| 0 <= i < j < s.len() ==> s[i].validator != s[j].validator
}

/// Whether `validator` already voted.
pub open spec fn has_vote(s: Seq<Vote>, validator: u32) -> bool {
    exists|i: int| 0 <= i < s.len() && s[i].validator == validator
}

/// `(proposed, validator)` of `a` precedes that of `b` lexicographically.
pub open spec fn vote_before(a: Vote, b: Vote) -> bool {
    a.proposed < b.proposed || (a.proposed == b.proposed && a.validator < b.validator)
}

/// The sorted sequence that results from inserting `v` into `s`.
pub open spec fn insert_vote_spec(s: Seq<Vote>, v: Vote) -> Seq<Vote>
    decreases s.len(),
{
    if s.len() == 0 {
        seq![v]
    } else if vote_before(v, s[0]) {
        seq![v] + s
    } else {
        seq![s[0]] + insert_vote_spec(s.drop_first(), v)
    }
}

/// Inserting at the first index whose element does not precede `v` is what
/// `insert_vote_spec` describes.
proof fn lemma_insert_vote_at_index(s: Seq<Vote>, v: Vote, idx: int)
    requires
        0 <= idx <= s.len(),
        forall|k: int| 0 <= k < idx ==> vote_before(s[k], v),
        idx < s.len() ==> !vote_before(s[idx], v),
        forall|k: int| 0 <= k < s.len() ==> s[k].validator != v.validator,
        votes_sorted(s),
    ensures
        insert_vote_spec(s, v) == s.insert(idx, v),
    decreases s.len(),
{
    if s.len() == 0 {
        assert(insert_vote_spec(s, v) =~= s.insert(0, v));
    } else if vote_before(v, s[0]) {
        assert(idx == 0) by {
            if idx > 0 {
                assert(vote_before(s[0], v));
            }
        }
        assert(insert_vote_spec(s, v) =~= s.insert(0, v));
    } else {
        assert(!vote_before(v, s[0]));
        assert(s[0].validator != v.validator);
        assert(vote_before(s[0], v));
        assert(idx > 0);
        let rest = s.drop_first();
        assert(votes_sorted(rest)) by {
            assert(forall|i: int, j: int|
                0 <= i < j < rest.len() ==> rest[i] == s[i + 1] && rest[j] == s[j + 1]);
        }
        assert(forall|k: int| 0 <= k < idx - 1 ==> vote_before(rest[k], v)) by {
            assert(forall|k: int| 0 <= k < idx - 1 ==> rest[k] == s[k + 1]);
        }
        assert(idx - 1 < rest.len() ==> !vote_before(rest[idx - 1], v)) by {
            if idx - 1 < rest.len() {
                assert(rest[idx - 1] == s[idx]);
            }
        }
        assert(forall|k: int| 0 <= k < rest.len() ==> rest[k] == s[k + 1]);
        lemma_insert_vote_at_index(rest, v, idx - 1);
        assert(insert_vote_spec(s, v) =~= s.insert(idx, v)) by {
            assert(insert_vote_spec(s, v) == seq![s[0]] + insert_vote_spec(rest, v));
            assert(insert_vote_spec(rest, v) == rest.insert(idx - 1, v));
            assert(seq![s[0]] + rest.insert(idx - 1, v) =~= s.insert(idx, v));
        }
    }
}

/// Inserting into a sorted, validator-distinct vote list keeps it sorted
/// and distinct, keeps every old vote, and grows it by one.
pub proof fn lemma_insert_vote_wf(s: Seq<Vote>, v: Vote)
    requires
        votes_sorted(s),
        votes_distinct(s),
        !has_vote(s, v.validator),
    ensures
        votes_sorted(insert_vote_spec(s, v)),
        votes_distinct(insert_vote_spec(s, v)),
        insert_vote_spec(s, v).len() == s.len() + 1,
        insert_vote_spec(s, v).to_multiset() == s.to_multiset().insert(v),
    decreases s.len(),
{
    if s.len() == 0 {
        assert(insert_vote_spec(s, v) =~= seq![v]);
        assert(seq![v].to_multiset() =~= s.to_multiset().insert(v)) by {
            s.to_multiset_ensures();
            assert(seq![v] =~= s.push(v));
        }
    } else if vote_before(v, s[0]) {
        let r = seq![v] + s;
        assert(insert_vote_spec(s, v) == r);
        assert forall|i: int, j: int| 0 <= i < j < r.len() implies (r[i].proposed < r[j].proposed
            || (r[i].proposed == r[j].proposed && r[i].validator < r[j].validator)) by {
            if i == 0 {
                if j == 1 {
                    assert(r[1] == s[0]);
                } else {
                    assert(r[j] == s[j - 1]);
                }
            } else {
                assert(r[i] == s[i - 1] && r[j] == s[j - 1]);
            }
        }
        assert forall|i: int, j: int| 0 <= i < j < r.len() implies r[i].validator
            != r[j].validator by {
            if i == 0 {
                assert(r[j] == s[j - 1]);
            } else {
                assert(r[i] == s[i - 1] && r[j] == s[j - 1]);
            }
        }
        assert(r =~= s.insert(0, v));
        assert(r.to_multiset() == s.to_multiset().insert(v)) by {
            lemma_to_multiset_insert(s, 0, v);
        }
    } else {
        let rest = s.drop_first();
        assert(votes_sorted(rest) && votes_distinct(rest) && !has_vote(rest, v.validator)) by {
            assert(forall|k: int| 0 <= k < rest.len() ==> rest[k] == s[k + 1]);
        }
        lemma_insert_vote_wf(rest, v);
        let ri = insert_vote_spec(rest, v);
        let r = seq![s[0]] + ri;
        assert(insert_vote_spec(s, v) == r);
        assert(s[0].validator != v.validator);
        assert(vote_before(s[0], v));
        // every element of the inserted tail is either v or an old element,
        // and both come after s[0]
        assert forall|k: int| 0 <= k < ri.len() implies (vote_before(s[0], ri[k])
            && s[0].validator != ri[k].validator) by {
            lemma_insert_vote_membership(rest, v, k);
            if ri[k] == v {
            } else {
                let m = choose|m: int| 0 <= m < rest.len() && rest[m] == ri[k];
                assert(rest[m] == s[m + 1]);
            }
        }
        assert forall|i: int, j: int| 0 <= i < j < r.len() implies (r[i].proposed < r[j].proposed
            || (r[i].proposed == r[j].proposed && r[i].validator < r[j].validator)) by {
            if i == 0 {
                assert(r[j] == ri[j - 1]);
                assert(vote_before(s[0], ri[j - 1]));
            } else {
                assert(r[i] == ri[i - 1] && r[j] == ri[j - 1]);
            }
        }
        assert forall|i: int, j: int| 0 <= i < j < r.len() implies r[i].validator
            != r[j].validator by {
            if i == 0 {
                assert(r[j] == ri[j - 1]);
            } else {
                assert(r[i] == ri[i - 1] && r[j] == ri[j - 1]);
            }
        }
        assert(r.to_multiset() == s.to_multiset().insert(v)) by {
            assert(rest.insert(0, s[0]) =~= s);
            lemma_to_multiset_insert(rest, 0, s[0]);
            assert(s.to_multiset() == rest.to_multiset().insert(s[0]));
            assert(ri.insert(0, s[0]) =~= r);
            lemma_to_multiset_insert(ri, 0, s[0]);
            assert(r.to_multiset() == ri.to_multiset().insert(s[0]));
            assert(ri.to_multiset() == rest.to_multiset().insert(v));
            assert(rest.to_multiset().insert(v).insert(s[0]) =~= rest.to_multiset().insert(
                s[0],
            ).insert(v));
        }
    }
}

/// Every element of the inserted list is the new vote or an old one.
proof fn lemma_insert_vote_membership(s: Seq<Vote>, v: Vote, k: int)
    requires
        0 <= k < insert_vote_spec(s, v).len(),
    ensures
        insert_vote_spec(s, v)[k] == v || exists|m: int| 0 <= m < s.len() && s[m]
            == insert_vote_spec(s, v)[k],
    decreases s.len(),
{
    if s.len() == 0 {
    } else if vote_before(v, s[0]) {
        if k > 0 {
            assert(insert_vote_spec(s, v)[k] == s[k - 1]);
        }
    } else {
        if k > 0 {
            let rest = s.drop_first();
            lemma_insert_vote_membership(rest, v, k - 1);
            assert(insert_vote_spec(s, v)[k] == insert_vote_spec(rest, v)[k - 1]);
            if insert_vote_spec(rest, v)[k - 1] != v {
                let m = choose|m: int| 0 <= m < rest.len() && rest[m] == insert_vote_spec(
                    rest,
                    v,
                )[k - 1];
                assert(s[m + 1] == insert_vote_spec(s, v)[k]);
            }
        }
    }
}

/// A proposal lies further in the past of the agreed clock than the
/// backward tolerance allows.
pub open spec fn vote_too_old(last: HLC, proposed: u64, backward_tolerance: u64) -> bool {
    proposed + backward_tolerance < last.physical
}

/// Distance between a proposal and the local physical reading.
pub open spec fn vote_deviation(proposed: u64, local: u64) -> int {
    if proposed >= local {
        proposed - local
    } else {
        local - proposed
    }
}

/// Enough votes, and all of them mutually close: the round agrees.
pub open spec fn agreement_reached(votes: Seq<Vote>, config: HlcConfig) -> bool {
    votes.len() >= config.quorum && votes.len() > 0 && votes.last().proposed - votes[0].proposed
        <= config.agreement_window
}

/// Median proposal of a sorted vote list.
pub open spec fn median_vote(votes: Seq<Vote>) -> u64 {
    votes[votes.len() as int / 2].proposed
}

/// `a` precedes `b` under the vote order.
fn vote_precedes(a: &Vote, b: &Vote) -> (r: bool)
    ensures
        r == vote_before(*a, *b),
{
    a.proposed < b.proposed || (a.proposed == b.proposed && a.validator < b.validator)
}

/// Relation between a clock before and after one `submit_timestamp_vote`
/// call with the given arguments and result.
pub open spec fn vote_post(
    pre: HlcClock,
    post: HlcClock,
    validator: u32,
    proposed: u64,
    local: u64,
    r: Result<Option<HLC>, Error>,
) -> bool {
    &&& (vote_too_old(pre.last, proposed, pre.config.backward_tolerance) <==> r == Err::<
        Option<HLC>,
        Error,
    >(Error::InvalidTimestamp))
    &&& (r == Err::<Option<HLC>, Error>(Error::DeviationTooLarge) <==> (!vote_too_old(
        pre.last,
        proposed,
        pre.config.backward_tolerance,
    ) && vote_deviation(proposed, local) > pre.config.deviation_bound))
    &&& (r == Err::<Option<HLC>, Error>(Error::DuplicateShare) <==> (!vote_too_old(
        pre.last,
        proposed,
        pre.config.backward_tolerance,
    ) && vote_deviation(proposed, local) <= pre.config.deviation_bound && has_vote(
        pre.votes@,
        validator,
    )))
    &&& ((!vote_too_old(pre.last, proposed, pre.config.backward_tolerance) && vote_deviation(
        proposed,
        local,
    ) <= pre.config.deviation_bound && !has_vote(pre.votes@, validator)) <==> r is Ok)
    &&& (r is Err ==> post == pre)
    &&& (r is Ok ==> ({
        let nv = insert_vote_spec(pre.votes@, Vote { validator, proposed });
        if agreement_reached(nv, pre.config) {
            &&& post.votes@ =~= Seq::<Vote>::empty()
            &&& post.last == hlc_advance_spec(pre.last, median_vote(nv), validator)
            &&& r == Ok::<Option<HLC>, Error>(Some(post.last))
            &&& hlc_lt(pre.last, post.last)
        } else {
            &&& post.votes@ == nv
            &&& post.last == pre.last
            &&& r == Ok::<Option<HLC>, Error>(None)
        }
    }))
}

/// The timestamp-consensus state: the last agreed clock value and the
/// votes accumulated toward the next agreement.
pub struct HlcClock {
    /// Last agreed clock value.
    pub last: HLC,
    /// Accepted votes for the current round, sorted by `(proposed,
    /// validator)` with at most one vote per validator.
    pub votes: Vec<Vote>,
    /// Consensus tuning.
    pub config: HlcConfig,
}

impl HlcClock {
    /// Structural invariant of the vote list.
    pub open spec fn wf(&self) -> bool {
        &&& votes_sorted(self.votes@)
        &&& votes_distinct(self.votes@)
        &&& forall|k: int| 0 <= k < self.votes@.len() ==> self.votes@[k].proposed < u64::MAX
    }

    /// Creates a clock at physical time zero with no votes.
    pub fn new(config: HlcConfig) -> (r: HlcClock)
        ensures
            r.wf(),
            r.last == (HLC { physical: 0u64, logical: 0u16, validator_id: 0u32 }),
            r.votes@ =~= Seq::<Vote>::empty(),
            r.config == config,
    {
        HlcClock {
            last: HLC { physical: 0, logical: 0, validator_id: 0 },
            votes: Vec::new(),
            config,
        }
    }

    /// Last agreed clock value.
    pub fn current_hlc(&self) -> (r: HLC)
        ensures
            r == self.last,
    {
        self.last
    }

    /// Produces the next local clock value for the given physical reading
    /// and makes it the last observed value.  The result is strictly
    /// greater than the previous value and never lags the reading.
    pub fn now(&mut self, observed_physical: u64, validator_id: u32) -> (r: HLC)
        requires
            old(self).wf(),
            old(self).last.physical < u64::MAX,
        ensures
            final(self).wf(),
            r == hlc_advance_spec(old(self).last, observed_physical, validator_id),
            final(self).last == r,
            hlc_lt(old(self).last, r),
            r.physical >= observed_physical,
            final(self).votes == old(self).votes,
            final(self).config == old(self).config,
    {
        let r = HLC::now(&self.last, observed_physical, validator_id);
        self.last = r;
        r
    }

    /// Merges a remote clock value: it becomes the agreed value when it is
    /// strictly greater than the current one, and is rejected as
    /// `InvalidTimestamp` otherwise.
    pub fn update_hlc(&mut self, validator: u32, physical: u64, logical: u16) -> (r: Result<
        HLC,
        Error,
    >)
        requires
            old(self).wf(),
        ensures
            final(self).wf(),
            final(self).votes == old(self).votes,
            final(self).config == old(self).config,
            hlc_lt(old(self).last, (HLC { physical, logical, validator_id: validator })) ==> (r
                == Ok::<HLC, Error>(HLC { physical, logical, validator_id: validator })
                && final(self).last == (HLC { physical, logical, validator_id: validator })),
            !hlc_lt(old(self).last, (HLC { physical, logical, validator_id: validator })) ==> (r
                == Err::<HLC, Error>(Error::InvalidTimestamp) && *final(self) == *old(self)),
            r is Ok ==> hlc_lt(old(self).last, final(self).last),
    {
        let remote = HLC { physical, logical, validator_id: validator };
        if self.last.physical < physical || (self.last.physical == physical && self.last.logical
            < logical) {
            self.last = remote;
            Ok(remote)
        } else {
            Err(Error::InvalidTimestamp)
        }
    }

    /// Accepts or rejects one validator's proposed physical timestamp, and
    /// declares agreement once a quorum of mutually close votes is in.
    ///
    /// A proposal further behind the agreed physical time than the
    /// backward tolerance is rejected as `InvalidTimestamp`; one further
    /// from the local reading than the deviation bound as
    /// `DeviationTooLarge`; a second vote by the same validator as
    /// `DuplicateShare`.  A rejected vote changes nothing.  On agreement
    /// the median proposal advances the clock, the round's votes are
    /// cleared, and the new value is returned.
    #[verifier::loop_isolation(false)]
    pub fn submit_timestamp_vote(
        &mut self,
        validator: u32,
        proposed_physical: u64,
        local_physical: u64,
    ) -> (r: Result<Option<HLC>, Error>)
        requires
            old(self).wf(),
            old(self).last.physical < u64::MAX,
            proposed_physical < u64::MAX,
        ensures
            final(self).wf(),
            final(self).config == old(self).config,
            vote_post(*old(self), *final(self), validator, proposed_physical, local_physical, r),
    {
        if proposed_physical < self.last.physical {
            let lag = self.last.physical - proposed_physical;
            if lag > self.config.backward_tolerance {
                return Err(Error::InvalidTimestamp);
            }
        }
        let dev = if proposed_physical >= local_physical {
            proposed_physical - local_physical
        } else {
            local_physical - proposed_physical
        };
        if dev > self.config.deviation_bound {
            return Err(Error::DeviationTooLarge);
        }
        let n = self.votes.len();
        let mut i: usize = 0;
        while i < n
            invariant
                n == self.votes@.len(),
                i <= n,
                self == old(self),
                forall|k: int| 0 <= k < i ==> self.votes@[k].validator != validator,
            decreases n - i,
        {
            if self.votes[i].validator == validator {
                return Err(Error::DuplicateShare);
            }
            i = i + 1;
        }
        let vote = Vote { validator, proposed: proposed_physical };
        let mut idx: usize = 0;
        let mut scanning = true;
        while scanning && idx < n
            invariant
                n == self.votes@.len(),
                idx <= n,
                self == old(self),
                forall|k: int| 0 <= k < idx ==> vote_before(self.votes@[k], vote),
                !scanning ==> idx < n && !vote_before(self.votes@[idx as int], vote),
            decreases n - idx + (if scanning { 1int } else { 0int }),
        {
            if vote_precedes(&self.votes[idx], &vote) {
                idx = idx + 1;
            } else {
                scanning = false;
            }
        }
        proof {
            lemma_insert_vote_at_index(self.votes@, vote, idx as int);
            lemma_insert_vote_wf(self.votes@, vote);
        }
        self.votes.insert(idx, vote);
        let m = self.votes.len();
        if m >= self.config.quorum {
            proof {
                if m >= 2 {
                    assert(vote_before(self.votes@[0], self.votes@[m - 1])
                        || self.votes@[0].proposed <= self.votes@[m - 1].proposed);
                }
            }
            let spread = self.votes[m - 1].proposed - self.votes[0].proposed;
            if spread <= self.config.agreement_window {
                let median = self.votes[m / 2].proposed;
                let agreed = HLC::now(&self.last, median, validator);
                self.last = agreed;
                self.votes = Vec::new();
                return Ok(Some(agreed));
            }
        }
        Ok(None)
    }
}

/// Inserting one element into a sequence adds it to the multiset.
proof fn lemma_to_multiset_insert(s: Seq<Vote>, i: int, v: Vote)
    requires
        0 <= i <= s.len(),
    ensures
        s.insert(i, v).to_multiset() == s.to_multiset().insert(v),
{
    let r = s.insert(i, v);
    assert(r =~= s.subrange(0, i) + seq![v] + s.subrange(i, s.len() as int));
    vstd::seq_lib::lemma_multiset_commutative(s.subrange(0, i) + seq![v], s.subrange(i, s.len() as int));
    vstd::seq_lib::lemma_multiset_commutative(s.subrange(0, i), seq![v]);
    assert(s =~= s.subrange(0, i) + s.subrange(i, s.len() as int));
    vstd::seq_lib::lemma_multiset_commutative(s.subrange(0, i), s.subrange(i, s.len() as int));
    seq![v].to_multiset_ensures();
    assert(seq![v] =~= Seq::<Vote>::empty().push(v));
    Seq::<Vote>::empty().to_multiset_ensures();
    assert(seq![v].to_multiset() =~= Multiset::<Vote>::empty().insert(v));
    assert(r.to_multiset() =~= s.to_multiset().insert(v));
}

} // verus!
