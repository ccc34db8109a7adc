//! Threshold signing.
//!
//! Once a ceremony has produced a threshold key, each participant can sign
//! a message digest with its secret share; this module collects those
//! partial signatures, verifies each against the signer's public share,
//! and combines a quorum of them by Lagrange interpolation at zero into
//! the group signature, which is checked against the group public key
//! before it is returned.
//!
//! In the scalar model a secret share `s` signs a digest `h` as `s * h`,
//! its public share is `s * GENERATOR`, and a signature share `p` of `h`
//! verifies when `p * GENERATOR == h * public_share`; the combined
//! signature verifies the same way against the group public key.

use vstd::prelude::*;

verus! {

use crate::ceremony::{ThresholdKey, ValidatorShare};
use crate::errors::Error;
use crate::field::{
    FIELD_MODULUS, GENERATOR, fmul, lagrange_interpolate_zero, lagrange_combine, mul_mod,
};

/// One validator's signature share over a message digest.
#[derive(Clone, Copy, Debug, PartialEq, Eq, Structural)]
pub struct PartialSignature {
    /// Signing validator.
    pub signer: u32,
    /// Epoch of the key the share was made with.
    pub epoch: u64,
    /// Digest that was signed, as a field scalar.
    pub message_digest: u64,
    /// The signature share scalar.
    pub signature_share: u64,
}

/// `(message_digest, signer)` of `a` precedes that of `b`.
pub open spec fn partial_before(a: PartialSignature, b: PartialSignature) -> bool {
    a.message_digest < b.message_digest || (a.message_digest == b.message_digest && a.signer
        < b.signer)
}

/// Strictly sorted by `(message_digest, signer)`: at most one share per
/// signer and digest.
pub open spec fn partials_sorted(s: Seq<PartialSignature>) -> bool {
    forall|i: int, j: int| 0 <= i < j < s.len() ==> partial_before(s[i], s[j])
}

/// First stored share of `signer` over `digest`, if any.
pub open spec fn find_partial(s: Seq<PartialSignature>, digest: u64, signer: u32) -> Option<
    PartialSignature,
>
    decreases s.len(),
{
    if s.len() == 0 {
        None
    } else if s[0].message_digest == digest && s[0].signer == signer {
        Some(s[0])
    } else {
        find_partial(s.drop_first(), digest, signer)
    }
}

/// First public share recorded for a validator, if any.
pub open spec fn share_for(shares: Seq<ValidatorShare>, id: u32) -> Option<ValidatorShare>
    decreases shares.len(),
{
    if shares.len() == 0 {
        None
    } else if shares[0].id == id {
        Some(shares[0])
    } else {
        share_for(shares.drop_first(), id)
    }
}

/// Whether a signature share verifies against a public share: the public
/// image of the share must equal the digest times the public share.
pub open spec fn share_verifies(share: u64, digest: u64, public_share: u64) -> bool {
    fmul(share as int, GENERATOR as int) == fmul(digest as int, public_share as int)
}

/// The sorted sequence that results from inserting `p`.
pub open spec fn insert_partial_spec(s: Seq<PartialSignature>, p: PartialSignature) -> Seq<
    PartialSignature,
>
    decreases s.len(),
{
    if s.len() == 0 {
        seq![p]
    } else if partial_before(p, s[0]) {
        seq![p] + s
    } else {
        seq![s[0]] + insert_partial_spec(s.drop_first(), p)
    }
}

/// Inserting at the first index whose element does not precede `p` is what
/// `insert_partial_spec` describes.
proof fn lemma_insert_partial_at_index(s: Seq<PartialSignature>, p: PartialSignature, idx: int)
    requires
        0 <= idx <= s.len(),
        forall|k: int| 0 <= k < idx ==> partial_before(s[k], p),
        idx < s.len() ==> !partial_before(s[idx], p),
        forall|k: int|
            0 <= k < s.len() ==> !(s[k].message_digest == p.message_digest && s[k].signer
                == p.signer),
        partials_sorted(s),
    ensures
        insert_partial_spec(s, p) == s.insert(idx, p),
    decreases s.len(),
{
    if s.len() == 0 {
        assert(insert_partial_spec(s, p) =~= s.insert(0, p));
    } else if partial_before(p, s[0]) {
        assert(idx == 0) by {
            if idx > 0 {
                assert(partial_before(s[0], p));
            }
        }
        assert(insert_partial_spec(s, p) =~= s.insert(0, p));
    } else {
        assert(partial_before(s[0], p));
        assert(idx > 0);
        let rest = s.drop_first();
        assert(partials_sorted(rest) && forall|k: int|
            0 <= k < rest.len() ==> rest[k] == s[k + 1]) by {
            assert(forall|k: int| 0 <= k < rest.len() ==> rest[k] == s[k + 1]);
        }
        assert(idx - 1 < rest.len() ==> !partial_before(rest[idx - 1], p)) by {
            if idx - 1 < rest.len() {
                assert(rest[idx - 1] == s[idx]);
            }
        }
        lemma_insert_partial_at_index(rest, p, idx - 1);
        assert(insert_partial_spec(s, p) =~= s.insert(idx, p)) by {
            assert(insert_partial_spec(s, p) == seq![s[0]] + insert_partial_spec(rest, p));
            assert(insert_partial_spec(rest, p) == rest.insert(idx - 1, p));
            assert(seq![s[0]] + rest.insert(idx - 1, p) =~= s.insert(idx, p));
        }
    }
}

/// Every element of the inserted list is the new share or an old one.
proof fn lemma_insert_partial_membership(s: Seq<PartialSignature>, p: PartialSignature, k: int)
    requires
        0 <= k < insert_partial_spec(s, p).len(),
    ensures
        insert_partial_spec(s, p)[k] == p || exists|m: int|
            0 <= m < s.len() && s[m] == insert_partial_spec(s, p)[k],
    decreases s.len(),
{
    if s.len() == 0 {
    } else if partial_before(p, s[0]) {
        if k > 0 {
            assert(insert_partial_spec(s, p)[k] == s[k - 1]);
        }
    } else {
        if k > 0 {
            let rest = s.drop_first();
            lemma_insert_partial_membership(rest, p, k - 1);
            assert(insert_partial_spec(s, p)[k] == insert_partial_spec(rest, p)[k - 1]);
            if insert_partial_spec(rest, p)[k - 1] != p {
                let m = choose|m: int|
                    0 <= m < rest.len() && rest[m] == insert_partial_spec(rest, p)[k - 1];
                assert(s[m + 1] == insert_partial_spec(s, p)[k]);
            }
        }
    }
}

/// Inserting keeps the list sorted and grows it by one, provided the new
/// key is fresh.
proof fn lemma_insert_partial_sorted(s: Seq<PartialSignature>, p: PartialSignature)
    requires
        partials_sorted(s),
        forall|k: int|
            0 <= k < s.len() ==> !(s[k].message_digest == p.message_digest && s[k].signer
                == p.signer),
    ensures
        partials_sorted(insert_partial_spec(s, p)),
        insert_partial_spec(s, p).len() == s.len() + 1,
    decreases s.len(),
{
    if s.len() == 0 {
    } else if partial_before(p, s[0]) {
        let r = seq![p] + s;
        assert forall|i: int, j: int| 0 <= i < j < r.len() implies partial_before(
            r[i],
            r[j],
        ) by {
            if i == 0 {
                assert(r[j] == s[j - 1]);
                if j > 1 {
                    assert(partial_before(s[0], s[j - 1]));
                }
            } else {
                assert(r[i] == s[i - 1] && r[j] == s[j - 1]);
            }
        }
    } else {
        let rest = s.drop_first();
        assert(partial_before(s[0], p));
        assert(partials_sorted(rest) && forall|k: int|
            0 <= k < rest.len() ==> rest[k] == s[k + 1]) by {
            assert(forall|k: int| 0 <= k < rest.len() ==> rest[k] == s[k + 1]);
        }
        lemma_insert_partial_sorted(rest, p);
        let ri = insert_partial_spec(rest, p);
        let r = seq![s[0]] + ri;
        assert forall|k: int| 0 <= k < ri.len() implies partial_before(s[0], #[trigger] ri[k]) by {
            lemma_insert_partial_membership(rest, p, k);
            if ri[k] == p {
            } else {
                let m = choose|m: int| 0 <= m < rest.len() && rest[m] == ri[k];
                assert(rest[m] == s[m + 1]);
                assert(partial_before(s[0], s[m + 1]));
            }
        }
        assert forall|i: int, j: int| 0 <= i < j < r.len() implies partial_before(
            r[i],
            r[j],
        ) by {
            if i == 0 {
                assert(r[j] == ri[j - 1]);
            } else {
                assert(r[i] == ri[i - 1] && r[j] == ri[j - 1]);
            }
        }
    }
}

/// Signing state of one epoch: the active key, the participants' public
/// shares, and the accepted signature shares.
pub struct SigningState {
    /// Active threshold key, if a ceremony has completed (or an override
    /// installed one).
    pub key: Option<ThresholdKey>,
    /// Public share of each participant.
    pub shares: Vec<ValidatorShare>,
    /// Accepted signature shares, sorted by `(message_digest, signer)`.
    pub partials: Vec<PartialSignature>,
}

/// Share records are valid field data with distinct owners.
pub open spec fn shares_wf(shares: Seq<ValidatorShare>) -> bool {
    &&& forall|i: int, j: int| 0 <= i < j < shares.len() ==> shares[i].id != shares[j].id
    &&& forall|i: int|
        0 <= i < shares.len() ==> 1 <= (#[trigger] shares[i]).x < FIELD_MODULUS
            && shares[i].public_share < FIELD_MODULUS
}

impl SigningState {
    /// Structural invariant.
    pub open spec fn wf(&self) -> bool {
        &&& partials_sorted(self.partials@)
        &&& shares_wf(self.shares@)
        &&& (self.key is Some ==> self.key->Some_0.public_key < FIELD_MODULUS)
        &&& forall|i: int|
            0 <= i < self.partials@.len() ==> (#[trigger] self.partials@[i]).signature_share
                < FIELD_MODULUS && self.partials@[i].message_digest < FIELD_MODULUS && share_for(
                self.shares@,
                self.partials@[i].signer,
            ) is Some
    }

    /// A signing state with no key.
    pub fn new() -> (r: SigningState)
        ensures
            r.wf(),
            r.key is None,
            r.partials@ =~= Seq::<PartialSignature>::empty(),
            r.shares@ =~= Seq::<ValidatorShare>::empty(),
    {
        SigningState { key: None, shares: Vec::new(), partials: Vec::new() }
    }

    /// The active group public key for an epoch, if one is installed.
    pub fn current_public_key(&self, epoch: u64) -> (r: Option<u64>)
        ensures
            match self.key {
                Some(k) => r == (if k.epoch == epoch {
                    Some(k.public_key)
                } else {
                    None::<u64>
                }),
                None => r is None,
            },
    {
        match &self.key {
            Some(k) => {
                if k.epoch == epoch {
                    Some(k.public_key)
                } else {
                    None
                }
            },
            None => None,
        }
    }

    /// Installs a threshold key and the matching public shares, discarding
    /// every signature share of the previous key.
    pub fn install_key(&mut self, key: ThresholdKey, shares: Vec<ValidatorShare>) -> (r: ())
        requires
            key.public_key < FIELD_MODULUS,
            shares_wf(shares@),
        ensures
            final(self).wf(),
            final(self).key == Some(key),
            final(self).shares@ == shares@,
            final(self).partials@ =~= Seq::<PartialSignature>::empty(),
    {
        self.key = Some(key);
        self.shares = shares;
        self.partials = Vec::new();
    }

    /// First stored public share of a validator.
    fn lookup_share(&self, id: u32) -> (r: Option<ValidatorShare>)
        ensures
            r == share_for(self.shares@, id),
    {
        let n = self.shares.len();
        let mut i: usize = 0;
        proof {
            assert(self.shares@.skip(0) =~= self.shares@);
        }
        while i < n
            invariant
                n == self.shares@.len(),
                i <= n,
                share_for(self.shares@, id) == share_for(self.shares@.skip(i as int), id),
            decreases n - i,
        {
            if self.shares[i].id == id {
                return Some(self.shares[i]);
            }
            i = i + 1;
            proof {
                assert(self.shares@.skip(i as int - 1).drop_first() =~= self.shares@.skip(
                    i as int,
                ));
            }
        }
        None
    }

    /// First stored partial of a signer over a digest.
    fn lookup_partial(&self, digest: u64, signer: u32) -> (r: Option<PartialSignature>)
        ensures
            r == find_partial(self.partials@, digest, signer),
    {
        let n = self.partials.len();
        let mut i: usize = 0;
        proof {
            assert(self.partials@.skip(0) =~= self.partials@);
        }
        while i < n
            invariant
                n == self.partials@.len(),
                i <= n,
                find_partial(self.partials@, digest, signer) == find_partial(
                    self.partials@.skip(i as int),
                    digest,
                    signer,
                ),
            decreases n - i,
        {
            if self.partials[i].message_digest == digest && self.partials[i].signer == signer {
                return Some(self.partials[i]);
            }
            i = i + 1;
            proof {
                assert(self.partials@.skip(i as int - 1).drop_first() =~= self.partials@.skip(
                    i as int,
                ));
            }
        }
        None
    }

    /// The refusal, if any, that a partial signature meets.
    pub open spec fn partial_refusal(
        &self,
        validator: u32,
        epoch: u64,
        digest: u64,
        share: u64,
    ) -> Option<Error> {
        match self.key {
            None => Some(Error::PublicKeyNotInitialized),
            Some(k) => {
                if epoch != k.epoch {
                    Some(Error::KeyEpochMismatch)
                } else {
                    match share_for(self.shares@, validator) {
                        None => Some(Error::KeyEpochMismatch),
                        Some(vs) => {
                            if share >= FIELD_MODULUS || !share_verifies(
                                share,
                                digest,
                                vs.public_share,
                            ) {
                                Some(Error::InvalidSignatureShare)
                            } else {
                                match find_partial(self.partials@, digest, validator) {
                                    Some(p) => if p.signature_share == share {
                                        None
                                    } else {
                                        Some(Error::DuplicateShare)
                                    },
                                    None => None,
                                }
                            }
                        },
                    }
                }
            },
        }
    }

    /// Accepts one validator's signature share over a digest.
    ///
    /// Fails with `PublicKeyNotInitialized` when no key is installed, with
    /// `KeyEpochMismatch` when the epoch is stale or the validator holds no
    /// share of the key, and with `InvalidSignatureShare` when the share
    /// does not verify against the validator's public share.  Resubmitting
    /// an identical accepted share changes nothing and succeeds; a
    /// different share for the same digest and signer is rejected as
    /// `DuplicateShare`.  A rejected call changes nothing.
    #[verifier::loop_isolation(false)]
    pub fn submit_partial_signature(
        &mut self,
        validator: u32,
        epoch: u64,
        message_digest: u64,
        signature_share: u64,
    ) -> (r: Result<(), Error>)
        requires
            old(self).wf(),
            message_digest < FIELD_MODULUS,
        ensures
            final(self).wf(),
            final(self).key == old(self).key,
            final(self).shares@ == old(self).shares@,
            partial_post(*old(self), *final(self), validator, epoch, message_digest,
                signature_share, r),
    {
        let k = match &self.key {
            None => {
                return Err(Error::PublicKeyNotInitialized);
            },
            Some(k) => *k,
        };
        if epoch != k.epoch {
            return Err(Error::KeyEpochMismatch);
        }
        let vs = match self.lookup_share(validator) {
            None => {
                return Err(Error::KeyEpochMismatch);
            },
            Some(vs) => vs,
        };
        proof {
            lemma_share_for_member(self.shares@, validator);
        }
        if signature_share >= FIELD_MODULUS {
            return Err(Error::InvalidSignatureShare);
        }
        if mul_mod(signature_share, GENERATOR) != mul_mod(message_digest, vs.public_share) {
            return Err(Error::InvalidSignatureShare);
        }
        match self.lookup_partial(message_digest, validator) {
            Some(p) => {
                if p.signature_share == signature_share {
                    return Ok(());
                }
                return Err(Error::DuplicateShare);
            },
            None => {},
        }
        let part = PartialSignature {
            signer: validator,
            epoch,
            message_digest,
            signature_share,
        };
        proof {
            lemma_find_partial_none(self.partials@, message_digest, validator);
        }
        let n = self.partials.len();
        let mut idx: usize = 0;
        let mut scanning = true;
        while scanning && idx < n
            invariant
                idx <= n,
                forall|m: int| 0 <= m < idx ==> partial_before(self.partials@[m], part),
                !scanning ==> idx < n && !partial_before(self.partials@[idx as int], part),
            decreases n - idx + (if scanning { 1int } else { 0int }),
        {
            if partial_precedes(&self.partials[idx], &part) {
                idx = idx + 1;
            } else {
                scanning = false;
            }
        }
        proof {
            lemma_insert_partial_at_index(self.partials@, part, idx as int);
            lemma_insert_partial_sorted(self.partials@, part);
            let ins = insert_partial_spec(self.partials@, part);
            assert forall|m: int| 0 <= m < ins.len() implies ((#[trigger] ins[m]).signature_share
                < FIELD_MODULUS && ins[m].message_digest < FIELD_MODULUS && share_for(
                self.shares@,
                ins[m].signer,
            ) is Some) by {
                lemma_insert_partial_membership(self.partials@, part, m);
                if ins[m] != part {
                    let q = choose|q: int|
                        0 <= q < self.partials@.len() && self.partials@[q] == ins[m];
                }
            }
        }
        self.partials.insert(idx, part);
        Ok(())
    }

    /// The sequence of accepted signature shares over one digest, in
    /// ascending signer order.
    pub open spec fn partials_for(&self, digest: u64) -> Seq<PartialSignature> {
        digest_filter(self.partials@, digest)
    }

    /// Combined signature over a digest: the lowest `threshold` signers'
    /// shares, interpolated at zero with their Lagrange coefficients.
    pub open spec fn combined_signature(&self, digest: u64, k: ThresholdKey) -> u64 {
        let sel = self.partials_for(digest).take(k.threshold as int);
        let xs = Seq::new(sel.len(), |i: int| share_x(self.shares@, sel[i].signer));
        let ys = Seq::new(sel.len(), |i: int| sel[i].signature_share);
        lagrange_interpolate_zero(xs, ys) as u64
    }

    /// What `produce_threshold_signature` returns: the combined signature
    /// when a quorum of shares exists and the combination verifies against
    /// the group public key.
    pub open spec fn produce_spec(&self, digest: u64) -> Result<u64, Error> {
        match self.key {
            None => Err(Error::PublicKeyNotInitialized),
            Some(k) => {
                if self.partials_for(digest).len() < k.threshold {
                    Err(Error::InsufficientShares)
                } else {
                    let sig = self.combined_signature(digest, k);
                    if share_verifies(sig, digest, k.public_key) {
                        Ok(sig)
                    } else {
                        Err(Error::InvalidSignatureShare)
                    }
                }
            },
        }
    }

    /// Combines the accepted shares over a digest into the group
    /// signature.
    ///
    /// Fails with `PublicKeyNotInitialized` when no key is installed and
    /// with `InsufficientShares` when fewer than `threshold` shares were
    /// accepted for the digest, and never returns a value in either case.
    /// Otherwise it combines exactly the `threshold` accepted shares with
    /// the lowest signer ids, deterministically, and returns the combined
    /// signature after checking it against the group public key; a failed
    /// check is reported as `InvalidSignatureShare`.  The call reads but
    /// never changes the state, so repeated calls return the same value.
    #[verifier::loop_isolation(false)]
    pub fn produce_threshold_signature(&self, message_digest: u64) -> (r: Result<u64, Error>)
        requires
            self.wf(),
            message_digest < FIELD_MODULUS,
        ensures
            r == self.produce_spec(message_digest),
            self.key is None ==> r == Err::<u64, Error>(Error::PublicKeyNotInitialized),
            self.key is Some ==> ((self.partials_for(message_digest).len()
                < self.key->Some_0.threshold) <==> r == Err::<u64, Error>(
                Error::InsufficientShares,
            )),
            r is Ok ==> share_verifies(r->Ok_0, message_digest, self.key->Some_0.public_key),
    {
        let k = match &self.key {
            None => {
                return Err(Error::PublicKeyNotInitialized);
            },
            Some(k) => *k,
        };
        proof {
            reveal(Seq::filter);
        }
        let n = self.partials.len();
        let mut matched: Vec<PartialSignature> = Vec::new();
        let mut i: usize = 0;
        proof {
            assert(digest_filter(self.partials@.take(0), message_digest)
                =~= Seq::<PartialSignature>::empty());
        }
        while i < n
            invariant
                i <= n,
                matched@ == digest_filter(self.partials@.take(i as int), message_digest),
                forall|m: int| 0 <= m < matched@.len() ==> exists|q: int|
                    0 <= q < self.partials@.len() && self.partials@[q] == #[trigger] matched@[m],
            decreases n - i,
        {
            let ghost prev = matched@;
            if self.partials[i].message_digest == message_digest {
                matched.push(self.partials[i]);
            }
            i = i + 1;
            proof {
                reveal(Seq::filter);
                assert(self.partials@.take(i as int).drop_last() =~= self.partials@.take(
                    i as int - 1,
                ));
                assert(self.partials@.take(i as int).last() == self.partials@[i as int - 1]);
                assert(matched@ == digest_filter(self.partials@.take(i as int), message_digest));
            }
        }
        proof {
            assert(self.partials@.take(n as int) =~= self.partials@);
        }
        let t = k.threshold;
        if matched.len() < t {
            return Err(Error::InsufficientShares);
        }
        let mut xs: Vec<u64> = Vec::new();
        let mut ys: Vec<u64> = Vec::new();
        let mut m: usize = 0;
        while m < t
            invariant
                m <= t,
                t <= matched@.len(),
                xs@.len() == m,
                ys@.len() == m,
                forall|q: int|
                    0 <= q < m ==> xs@[q] == share_x(self.shares@, matched@[q].signer) && xs@[q]
                        < FIELD_MODULUS,
                forall|q: int| 0 <= q < m ==> ys@[q] == matched@[q].signature_share && ys@[q]
                    < FIELD_MODULUS,
            decreases t - m,
        {
            let p = matched[m];
            proof {
                let q = choose|q: int|
                    0 <= q < self.partials@.len() && self.partials@[q] == matched@[m as int];
                lemma_share_for_member(self.shares@, p.signer);
            }
            let vs = match self.lookup_share(p.signer) {
                Some(vs) => vs,
                None => {
                    proof {
                        assert(false);
                    }
                    return Err(Error::InsufficientShares);
                },
            };
            xs.push(vs.x);
            ys.push(p.signature_share);
            m = m + 1;
        }
        let sig = lagrange_combine(&xs, &ys);
        proof {
            let sel = self.partials_for(message_digest).take(t as int);
            assert(xs@ =~= Seq::new(sel.len(), |i: int| share_x(self.shares@, sel[i].signer)));
            assert(ys@ =~= Seq::new(sel.len(), |i: int| sel[i].signature_share));
        }
        let lhs = mul_mod(sig, GENERATOR);
        let rhs = mul_mod(message_digest, k.public_key);
        if lhs == rhs {
            Ok(sig)
        } else {
            Err(Error::InvalidSignatureShare)
        }
    }
}

/// The shares of a list that sign the given digest, in list order.
pub open spec fn digest_filter(s: Seq<PartialSignature>, digest: u64) -> Seq<PartialSignature> {
    s.filter(|p: PartialSignature| p.message_digest == digest)
}

/// Relation between a signing state before and after one
/// `submit_partial_signature` call with the given arguments and result.
pub open spec fn partial_post(
    pre: SigningState,
    post: SigningState,
    validator: u32,
    epoch: u64,
    digest: u64,
    share: u64,
    r: Result<(), Error>,
) -> bool {
    let rf = pre.partial_refusal(validator, epoch, digest, share);
    match rf {
        Some(e) => r == Err::<(), Error>(e) && post == pre,
        None => r == Ok::<(), Error>(()) && (if find_partial(pre.partials@, digest, validator)
            is Some {
            post == pre
        } else {
            post.partials@ == insert_partial_spec(
                pre.partials@,
                PartialSignature {
                    signer: validator,
                    epoch,
                    message_digest: digest,
                    signature_share: share,
                },
            )
        }),
    }
}

/// `a` precedes `b` under the share order.
fn partial_precedes(a: &PartialSignature, b: &PartialSignature) -> (r: bool)
    ensures
        r == partial_before(*a, *b),
{
    a.message_digest < b.message_digest || (a.message_digest == b.message_digest && a.signer
        < b.signer)
}

/// The interpolation point recorded for a validator (0 when it has none).
pub open spec fn share_x(shares: Seq<ValidatorShare>, id: u32) -> u64 {
    match share_for(shares, id) {
        Some(v) => v.x,
        None => 0,
    }
}

/// A found share is one of the stored records and carries the id it was
/// looked up by; a miss means no record carries the id.
pub proof fn lemma_share_for_member(shares: Seq<ValidatorShare>, id: u32)
    ensures
        match share_for(shares, id) {
            Some(v) => exists|i: int| 0 <= i < shares.len() && shares[i] == v && v.id == id,
            None => forall|i: int| 0 <= i < shares.len() ==> shares[i].id != id,
        },
    decreases shares.len(),
{
    if shares.len() == 0 {
    } else if shares[0].id == id {
        assert(share_for(shares, id) == Some(shares[0]));
        assert(0 <= 0 < shares.len() && shares[0] == shares[0] && shares[0].id == id);
    } else {
        lemma_share_for_member(shares.drop_first(), id);
        let rest = shares.drop_first();
        assert(forall|i: int| 0 <= i < rest.len() ==> rest[i] == shares[i + 1]);
        match share_for(rest, id) {
            Some(v) => {
                let i = choose|i: int| 0 <= i < rest.len() && rest[i] == v && v.id == id;
                assert(shares[i + 1] == v);
            },
            None => {
                assert forall|i: int| 0 <= i < shares.len() implies shares[i].id != id by {
                    if i > 0 {
                        assert(shares[i] == rest[i - 1]);
                    }
                }
            },
        }
    }
}

/// A miss in the share store means no stored share carries the key.
pub proof fn lemma_find_partial_none(s: Seq<PartialSignature>, digest: u64, signer: u32)
    requires
        find_partial(s, digest, signer) is None,
    ensures
        forall|k: int|
            0 <= k < s.len() ==> !((#[trigger] s[k]).message_digest == digest && s[k].signer
                == signer),
    decreases s.len(),
{
    if s.len() > 0 {
        let rest = s.drop_first();
        lemma_find_partial_none(rest, digest, signer);
        assert forall|k: int|
            0 <= k < s.len() implies !((#[trigger] s[k]).message_digest == digest && s[k].signer
            == signer) by {
            if k > 0 {
                assert(s[k] == rest[k - 1]);
            }
        }
    }
}


/// Determinism of signing: the produced result depends only on the
/// installed key, the recorded public shares, and the shares accepted for
/// the digest.  Two states that agree on those — whatever else they hold,
/// and in whatever order the shares arrived — yield the identical result,
/// and in particular the identical signature.
pub proof fn lemma_signature_deterministic(a: SigningState, b: SigningState, digest: u64)
    requires
        a.key == b.key,
        a.shares@ == b.shares@,
        a.partials_for(digest) == b.partials_for(digest),
    ensures
        a.produce_spec(digest) == b.produce_spec(digest),
{
    match a.key {
        None => {},
        Some(k) => {
            let sel_a = a.partials_for(digest).take(k.threshold as int);
            let sel_b = b.partials_for(digest).take(k.threshold as int);
            assert(sel_a == sel_b);
            assert(Seq::new(sel_a.len(), |i: int| share_x(a.shares@, sel_a[i].signer)) =~= Seq::new(
                sel_b.len(),
                |i: int| share_x(b.shares@, sel_b[i].signer),
            ));
            assert(Seq::new(sel_a.len(), |i: int| sel_a[i].signature_share) =~= Seq::new(
                sel_b.len(),
                |i: int| sel_b[i].signature_share,
            ));
        },
    }
}

/// Quorum is never guessed around: with fewer than `threshold` accepted
/// shares for a digest, producing a signature fails with
/// `InsufficientShares` and returns no value.
pub proof fn lemma_insufficient_shares(s: SigningState, digest: u64)
    requires
        s.key is Some,
        s.partials_for(digest).len() < s.key->Some_0.threshold,
    ensures
        s.produce_spec(digest) == Err::<u64, Error>(Error::InsufficientShares),
{
}


/// Arrival order does not matter: inserting two shares with distinct
/// `(message_digest, signer)` keys yields the same store whichever comes
/// first.  Together with `lemma_signature_deterministic`, the signature
/// produced from a quorum is therefore independent of the order in which
/// the quorum's shares were submitted.
pub proof fn lemma_partial_insert_commutes(
    s: Seq<PartialSignature>,
    a: PartialSignature,
    b: PartialSignature,
)
    requires
        partial_before(a, b) || partial_before(b, a),
    ensures
        insert_partial_spec(insert_partial_spec(s, a), b) == insert_partial_spec(
            insert_partial_spec(s, b),
            a,
        ),
    decreases s.len(),
{
    if s.len() == 0 {
        assert(insert_partial_spec(s, a) == seq![a]);
        assert(insert_partial_spec(s, b) == seq![b]);
        assert(seq![a].drop_first() =~= s);
        assert(seq![b].drop_first() =~= s);
        if partial_before(a, b) {
            assert(insert_partial_spec(seq![a], b) == seq![a] + insert_partial_spec(s, b));
            assert(insert_partial_spec(seq![b], a) == seq![a] + seq![b]);
            assert(seq![a] + insert_partial_spec(s, b) =~= seq![a] + seq![b]);
        } else {
            assert(insert_partial_spec(seq![b], a) == seq![b] + insert_partial_spec(s, a));
            assert(insert_partial_spec(seq![a], b) == seq![b] + seq![a]);
            assert(seq![b] + insert_partial_spec(s, a) =~= seq![b] + seq![a]);
        }
    } else {
        let h = s[0];
        let rest = s.drop_first();
        if partial_before(a, h) && partial_before(b, h) {
            assert(insert_partial_spec(s, a) == seq![a] + s);
            assert(insert_partial_spec(s, b) == seq![b] + s);
            assert((seq![a] + s)[0] == a);
            assert((seq![a] + s).drop_first() =~= s);
            assert((seq![b] + s)[0] == b);
            assert((seq![b] + s).drop_first() =~= s);
            if partial_before(a, b) {
                assert(insert_partial_spec(seq![a] + s, b) == seq![a] + insert_partial_spec(s, b));
                assert(insert_partial_spec(seq![b] + s, a) == seq![a] + (seq![b] + s));
                assert(seq![a] + insert_partial_spec(s, b) =~= seq![a] + (seq![b] + s));
            } else {
                assert(insert_partial_spec(seq![b] + s, a) == seq![b] + insert_partial_spec(s, a));
                assert(insert_partial_spec(seq![a] + s, b) == seq![b] + (seq![a] + s));
                assert(seq![b] + insert_partial_spec(s, a) =~= seq![b] + (seq![a] + s));
            }
        } else if partial_before(a, h) {
            // a slots in before the head; b walks past it either way
            assert(partial_before(a, b));
            assert(insert_partial_spec(s, a) == seq![a] + s);
            assert((seq![a] + s)[0] == a);
            assert((seq![a] + s).drop_first() =~= s);
            assert(insert_partial_spec(seq![a] + s, b) == seq![a] + insert_partial_spec(s, b));
            assert(insert_partial_spec(s, b) == seq![h] + insert_partial_spec(rest, b));
            assert((seq![h] + insert_partial_spec(rest, b))[0] == h);
            assert(insert_partial_spec(insert_partial_spec(s, b), a) == seq![a]
                + insert_partial_spec(s, b));
        } else if partial_before(b, h) {
            assert(partial_before(b, a));
            assert(insert_partial_spec(s, b) == seq![b] + s);
            assert((seq![b] + s)[0] == b);
            assert((seq![b] + s).drop_first() =~= s);
            assert(insert_partial_spec(seq![b] + s, a) == seq![b] + insert_partial_spec(s, a));
            assert(insert_partial_spec(s, a) == seq![h] + insert_partial_spec(rest, a));
            assert((seq![h] + insert_partial_spec(rest, a))[0] == h);
            assert(insert_partial_spec(insert_partial_spec(s, a), b) == seq![b]
                + insert_partial_spec(s, a));
        } else {
            // both walk past the head: the tails commute by induction
            lemma_partial_insert_commutes(rest, a, b);
            assert(insert_partial_spec(s, a) == seq![h] + insert_partial_spec(rest, a));
            assert(insert_partial_spec(s, b) == seq![h] + insert_partial_spec(rest, b));
            let ia = seq![h] + insert_partial_spec(rest, a);
            let ib = seq![h] + insert_partial_spec(rest, b);
            assert(ia[0] == h && ib[0] == h);
            assert(ia.drop_first() =~= insert_partial_spec(rest, a));
            assert(ib.drop_first() =~= insert_partial_spec(rest, b));
            assert(insert_partial_spec(ia, b) == seq![h] + insert_partial_spec(
                insert_partial_spec(rest, a),
                b,
            ));
            assert(insert_partial_spec(ib, a) == seq![h] + insert_partial_spec(
                insert_partial_spec(rest, b),
                a,
            ));
        }
    }
}


/// Every share in a digest's list comes from the store.
proof fn lemma_digest_filter_member(s: Seq<PartialSignature>, digest: u64, k: int)
    requires
        0 <= k < digest_filter(s, digest).len(),
    ensures
        exists|j: int| 0 <= j < s.len() && s[j] == digest_filter(s, digest)[k],
    decreases s.len(),
{
    reveal(Seq::filter);
    if s.len() > 0 {
        let f = digest_filter(s, digest);
        let fd = digest_filter(s.drop_last(), digest);
        if s.last().message_digest == digest && k == f.len() - 1 {
            assert(s[s.len() - 1] == f[k]);
        } else {
            lemma_digest_filter_member(s.drop_last(), digest, k);
            let j = choose|j: int| 0 <= j < s.drop_last().len() && s.drop_last()[j] == fd[k];
            assert(s[j] == f[k]);
        }
    }
}

/// The deterministic quorum really is the lowest signers: in a sorted
/// store, the shares accepted for one digest come out in strictly
/// ascending signer order, so taking the first `threshold` of them — as
/// `produce_threshold_signature` does — combines the shares of the
/// `threshold` lowest signer ids, reproducibly.
pub proof fn lemma_quorum_selection_is_lowest(s: Seq<PartialSignature>, digest: u64)
    requires
        partials_sorted(s),
    ensures
        forall|i: int, j: int|
            0 <= i < j < digest_filter(s, digest).len() ==> digest_filter(s, digest)[i].signer
                < digest_filter(s, digest)[j].signer,
    decreases s.len(),
{
    reveal(Seq::filter);
    if s.len() > 0 {
        let sd = s.drop_last();
        assert(partials_sorted(sd)) by {
            assert(forall|k: int| 0 <= k < sd.len() ==> sd[k] == s[k]);
        }
        lemma_quorum_selection_is_lowest(sd, digest);
        let f = digest_filter(s, digest);
        let fd = digest_filter(sd, digest);
        if s.last().message_digest == digest {
            assert(f == fd.push(s.last()));
            assert forall|i: int, j: int|
                0 <= i < j < f.len() implies f[i].signer < f[j].signer by {
                if j < fd.len() {
                    assert(f[i] == fd[i] && f[j] == fd[j]);
                } else {
                    assert(f[j] == s.last());
                    assert(f[i] == fd[i]);
                    lemma_digest_filter_member(sd, digest, i);
                    let m = choose|m: int| 0 <= m < sd.len() && sd[m] == fd[i];
                    assert(s[m] == fd[i]);
                    assert(partial_before(s[m], s[s.len() - 1]));
                    sd.lemma_filter_pred(|p: PartialSignature| p.message_digest == digest, i);
                    assert(fd[i].message_digest == digest);
                }
            }
        } else {
            assert(f == fd);
        }
    }
}

} // verus!
