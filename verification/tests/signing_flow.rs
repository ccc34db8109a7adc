use ceremony_core::ceremony::{CeremonyState, ThresholdKey};
use ceremony_core::engine::{Caller, CeremonyCore};
use ceremony_core::errors::Error;
use ceremony_core::events::Event;
use ceremony_core::field::{eval_poly, mul_mod};
use ceremony_core::hlc::HlcConfig;

fn config() -> HlcConfig {
    HlcConfig { deviation_bound: 100, backward_tolerance: 50, quorum: 3, agreement_window: 100 }
}

fn authority() -> Caller {
    Caller { is_authority: true, identity: 0 }
}

fn validator(id: u32) -> Caller {
    Caller { is_authority: false, identity: id }
}

/// Runs a full ceremony: five validators announced, threshold three, the
/// first three participating with the given secret polynomials.
fn completed_core(polys: &[Vec<u64>]) -> (CeremonyCore, ThresholdKey) {
    let mut core = CeremonyCore::new(config());
    assert_eq!(
        core.start_ceremony(authority(), vec![10, 20, 30, 40, 50], 3),
        Ok(())
    );
    let ids = [10u32, 20, 30];
    for (v, coeffs) in ids.iter().zip(polys.iter()) {
        let commitment: Vec<u64> = coeffs.iter().map(|c| c * 7 % 251).collect();
        assert_eq!(core.submit_round_contribution(validator(*v), 1, commitment), Ok(()));
    }
    assert_eq!(core.ceremony_status(), CeremonyState::Round2);
    for v in ids {
        assert_eq!(core.submit_round_contribution(validator(v), 2, vec![]), Ok(()));
    }
    for v in ids {
        assert_eq!(core.submit_round_contribution(validator(v), 3, vec![]), Ok(()));
    }
    for v in ids {
        assert_eq!(core.submit_round_contribution(validator(v), 4, vec![]), Ok(()));
    }
    assert_eq!(core.ceremony_status(), CeremonyState::Round4);
    let (key, shares) = core.complete_ceremony(authority()).expect("ceremony must complete");
    assert_eq!(core.ceremony_status(), CeremonyState::Completed);
    // every announced validator receives a share, participant or not
    assert_eq!(shares.len(), 5);
    (core, key)
}

fn test_polys() -> Vec<Vec<u64>> {
    vec![vec![5, 7, 11], vec![13, 17, 19], vec![23, 29, 31]]
}

/// Secret share of the participant at interpolation point `x`: the sum of
/// all secret polynomials evaluated there.
fn secret_share(polys: &[Vec<u64>], x: u64) -> u64 {
    polys.iter().map(|p| eval_poly(p, x)).fold(0, |a, b| (a + b) % 251)
}

#[test]
fn five_validator_ceremony_yields_threshold_key() {
    let (core, key) = completed_core(&test_polys());
    assert_eq!(key.threshold, 3);
    assert_eq!(key.total, 5);
    assert_eq!(key.epoch, 0);
    // group secret 5 + 13 + 23 = 41, public key 41 * 7 mod 251
    assert_eq!(key.public_key, 36);
    assert_eq!(core.current_public_key(0), Some(36));
    assert!(core.ledger.entries.contains(&Event::CeremonyCompleted { epoch: 0 }));
    assert!(core
        .ledger
        .entries
        .contains(&Event::PublicKeyUpdated { epoch: 0, public_key: 36 }));
}

#[test]
fn completion_is_idempotent() {
    let polys = test_polys();
    let (mut core, key) = completed_core(&polys);
    // accepted partial signatures survive a repeated completion call
    let digest = 97u64;
    let s10 = secret_share(&polys, 1);
    assert_eq!(
        core.submit_partial_signature(validator(10), 0, digest, mul_mod(s10, digest)),
        Ok(())
    );
    let events_before = core.ledger.entries.len();
    let partials_before = core.signing.partials.clone();
    let (again, shares) = core.complete_ceremony(authority()).expect("repeat completion");
    assert_eq!(again, key);
    assert_eq!(shares.len(), 5);
    assert_eq!(core.ceremony_status(), CeremonyState::Completed);
    assert_eq!(core.signing.partials, partials_before);
    assert_eq!(core.ledger.entries.len(), events_before);
}

#[test]
fn quorum_of_partials_combines_and_verifies() {
    let polys = test_polys();
    let (mut core, key) = completed_core(&polys);
    let digest = 97u64;
    // each participant signs with its secret share
    let s10 = secret_share(&polys, 1);
    let s20 = secret_share(&polys, 2);
    let s30 = secret_share(&polys, 3);
    assert_eq!((s10, s20, s30), (155, 140, 247));
    assert_eq!(
        core.submit_partial_signature(validator(10), 0, digest, mul_mod(s10, digest)),
        Ok(())
    );
    assert_eq!(
        core.submit_partial_signature(validator(20), 0, digest, mul_mod(s20, digest)),
        Ok(())
    );
    // two of three shares are not enough, and never yield a value
    assert_eq!(
        core.produce_threshold_signature(digest),
        Err(Error::InsufficientShares)
    );
    assert_eq!(
        core.submit_partial_signature(validator(30), 0, digest, mul_mod(s30, digest)),
        Ok(())
    );
    let sig = core.produce_threshold_signature(digest).expect("threshold reached");
    // the combined signature is the group secret times the digest
    assert_eq!(sig, mul_mod(41, digest));
    assert_eq!(sig, 212);
    // it verifies against the group public key
    assert_eq!(mul_mod(sig, 7), mul_mod(digest, key.public_key));
    // producing again returns the identical signature
    assert_eq!(core.produce_threshold_signature(digest), Ok(sig));
    // resubmitting an identical partial is a no-op, and nothing changes
    assert_eq!(
        core.submit_partial_signature(validator(10), 0, digest, mul_mod(s10, digest)),
        Ok(())
    );
    assert_eq!(core.produce_threshold_signature(digest), Ok(sig));
    // a conflicting share cannot verify, since only one value does
    assert_eq!(
        core.submit_partial_signature(validator(10), 0, digest, 1),
        Err(Error::InvalidSignatureShare)
    );
    assert!(core
        .ledger
        .entries
        .contains(&Event::ThresholdSignatureProduced { epoch: 0 }));
}

#[test]
fn forged_partial_signature_is_rejected() {
    let polys = test_polys();
    let (mut core, _key) = completed_core(&polys);
    // a participant signing garbage fails the pairing check
    assert_eq!(
        core.submit_partial_signature(validator(10), 0, 98, 1),
        Err(Error::InvalidSignatureShare)
    );
    // a non-participating validator holds a public share too, so its
    // forged partial also fails the pairing check
    assert_eq!(
        core.submit_partial_signature(validator(40), 0, 97, 5),
        Err(Error::InvalidSignatureShare)
    );
    // a stranger outside the announced set holds no share at all
    assert_eq!(
        core.submit_partial_signature(validator(99), 0, 97, 5),
        Err(Error::KeyEpochMismatch)
    );
    // a share out of the field cannot verify
    assert_eq!(
        core.submit_partial_signature(validator(10), 0, 97, 300),
        Err(Error::InvalidSignatureShare)
    );
}

#[test]
fn stale_epoch_is_rejected() {
    let polys = test_polys();
    let (mut core, _key) = completed_core(&polys);
    let s10 = secret_share(&polys, 1);
    assert_eq!(
        core.submit_partial_signature(validator(10), 5, 97, mul_mod(s10, 97)),
        Err(Error::KeyEpochMismatch)
    );
}

#[test]
fn no_key_means_no_signing() {
    let mut core = CeremonyCore::new(config());
    assert_eq!(
        core.submit_partial_signature(validator(10), 0, 97, 5),
        Err(Error::PublicKeyNotInitialized)
    );
    assert_eq!(
        core.produce_threshold_signature(97),
        Err(Error::PublicKeyNotInitialized)
    );
}

#[test]
fn administrative_key_override() {
    let mut core = CeremonyCore::new(config());
    let key = ThresholdKey { epoch: 3, public_key: 42, threshold: 2, total: 4 };
    assert_eq!(core.set_public_key(validator(10), key), Err(Error::BadOrigin));
    assert_eq!(core.set_public_key(authority(), key), Ok(()));
    assert_eq!(core.current_public_key(3), Some(42));
    assert_eq!(core.current_public_key(2), None);
    assert!(core
        .ledger
        .entries
        .contains(&Event::PublicKeyUpdated { epoch: 3, public_key: 42 }));
}

#[test]
fn announcement_requires_authority_and_idle_state() {
    let mut core = CeremonyCore::new(config());
    assert_eq!(core.initiate_ceremony(validator(10)), Err(Error::BadOrigin));
    assert_eq!(core.initiate_ceremony(authority()), Ok(()));
    assert_eq!(core.start_ceremony(authority(), vec![1, 2], 2), Ok(()));
    assert_eq!(core.initiate_ceremony(authority()), Err(Error::CeremonyInProgress));
}

#[test]
fn partial_arrival_order_does_not_change_the_signature() {
    let polys = test_polys();
    let digest = 97u64;
    let shares = [
        (10u32, mul_mod(secret_share(&polys, 1), digest)),
        (20u32, mul_mod(secret_share(&polys, 2), digest)),
        (30u32, mul_mod(secret_share(&polys, 3), digest)),
    ];
    let (mut forward, _) = completed_core(&polys);
    for (v, share) in shares {
        assert_eq!(forward.submit_partial_signature(validator(v), 0, digest, share), Ok(()));
    }
    let (mut backward, _) = completed_core(&polys);
    for (v, share) in shares.iter().rev() {
        assert_eq!(backward.submit_partial_signature(validator(*v), 0, digest, *share), Ok(()));
    }
    assert_eq!(forward.signing.partials, backward.signing.partials);
    assert_eq!(
        forward.produce_threshold_signature(digest),
        backward.produce_threshold_signature(digest)
    );
}

#[test]
fn any_quorum_combines_to_the_same_signature() {
    let polys = test_polys();
    let digest = 97u64;
    // a different quorum: validator 40 signs with its dealt share even
    // though it contributed to no round
    let (mut other, key) = completed_core(&polys);
    for (v, x) in [(20u32, 2u64), (30, 3), (40, 4)] {
        let share = mul_mod(secret_share(&polys, x), digest);
        assert_eq!(other.submit_partial_signature(validator(v), 0, digest, share), Ok(()));
    }
    let sig = other.produce_threshold_signature(digest).expect("threshold reached");
    assert_eq!(sig, 212);
    assert_eq!(mul_mod(sig, 7), mul_mod(digest, key.public_key));
}
