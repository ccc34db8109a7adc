use ceremony_core::ceremony::CeremonyState;
use ceremony_core::engine::{Caller, CeremonyCore};
use ceremony_core::errors::Error;
use ceremony_core::events::Event;
use ceremony_core::hlc::HlcConfig;

fn config() -> HlcConfig {
    HlcConfig { deviation_bound: 100, backward_tolerance: 50, quorum: 3, agreement_window: 100 }
}

fn authority() -> Caller {
    Caller { is_authority: true, identity: 0 }
}

fn validator(id: u32) -> Caller {
    Caller { is_authority: false, identity: id }
}

fn five_validators() -> Vec<u32> {
    vec![10, 20, 30, 40, 50]
}

#[test]
fn start_ceremony_requires_authority() {
    let mut core = CeremonyCore::new(config());
    let r = core.start_ceremony(validator(10), five_validators(), 3);
    assert_eq!(r, Err(Error::BadOrigin));
    assert_eq!(core.ceremony_status(), CeremonyState::Idle);
}

#[test]
fn start_ceremony_enters_round_one_and_emits() {
    let mut core = CeremonyCore::new(config());
    assert_eq!(core.start_ceremony(authority(), five_validators(), 3), Ok(()));
    assert_eq!(core.ceremony_status(), CeremonyState::Round1);
    assert_eq!(core.current_epoch(), 0);
    assert_eq!(core.ledger.entries[0], Event::DKGInitiated { epoch: 0 });
}

#[test]
fn restart_while_running_is_rejected() {
    let mut core = CeremonyCore::new(config());
    assert_eq!(core.start_ceremony(authority(), five_validators(), 3), Ok(()));
    let r = core.start_ceremony(authority(), five_validators(), 3);
    assert_eq!(r, Err(Error::CeremonyInProgress));
    assert_eq!(core.ceremony_status(), CeremonyState::Round1);
}

#[test]
fn duplicate_round_contribution_is_rejected_and_changes_nothing() {
    let mut core = CeremonyCore::new(config());
    assert_eq!(core.start_ceremony(authority(), five_validators(), 3), Ok(()));
    assert_eq!(
        core.submit_round_contribution(validator(10), 1, vec![35, 49, 77]),
        Ok(())
    );
    let contributors_before = core.ceremony.contributors.clone();
    let state_before = core.ceremony_status();
    let r = core.submit_round_contribution(validator(10), 1, vec![35, 49, 77]);
    assert_eq!(r, Err(Error::DuplicateShare));
    assert_eq!(core.ceremony_status(), state_before);
    assert_eq!(core.ceremony.contributors, contributors_before);
}

#[test]
fn contribution_for_a_past_round_is_rejected() {
    let mut core = CeremonyCore::new(config());
    assert_eq!(core.start_ceremony(authority(), five_validators(), 3), Ok(()));
    for v in [10u32, 20, 30] {
        assert_eq!(
            core.submit_round_contribution(validator(v), 1, vec![1, 2, 3]),
            Ok(())
        );
    }
    assert_eq!(core.ceremony_status(), CeremonyState::Round2);
    for v in [10u32, 20, 30] {
        assert_eq!(core.submit_round_contribution(validator(v), 2, vec![]), Ok(()));
    }
    assert_eq!(core.ceremony_status(), CeremonyState::Round3);
    // once in the verification round, a commitment-round contribution bounces
    let r = core.submit_round_contribution(validator(40), 1, vec![1, 2, 3]);
    assert_eq!(r, Err(Error::InvalidRound));
    assert_eq!(core.ceremony_status(), CeremonyState::Round3);
}

#[test]
fn outsiders_and_bad_payloads_are_rejected() {
    let mut core = CeremonyCore::new(config());
    assert_eq!(core.start_ceremony(authority(), five_validators(), 3), Ok(()));
    // not a validator of this epoch
    assert_eq!(
        core.submit_round_contribution(validator(99), 1, vec![1, 2, 3]),
        Err(Error::KeyEpochMismatch)
    );
    // commitment vector of the wrong length
    assert_eq!(
        core.submit_round_contribution(validator(10), 1, vec![1, 2]),
        Err(Error::InvalidContribution)
    );
    // commitment scalar out of the field
    assert_eq!(
        core.submit_round_contribution(validator(10), 1, vec![1, 2, 300]),
        Err(Error::InvalidContribution)
    );
    // wrong round tag
    assert_eq!(
        core.submit_round_contribution(validator(10), 2, vec![]),
        Err(Error::InvalidRound)
    );
}

#[test]
fn contribution_while_idle_is_rejected() {
    let mut core = CeremonyCore::new(config());
    assert_eq!(
        core.submit_round_contribution(validator(10), 1, vec![1, 2, 3]),
        Err(Error::CeremonyNotInProgress)
    );
    assert_eq!(core.complete_ceremony(authority()), Err(Error::CeremonyNotInProgress));
}

#[test]
fn verification_complaint_below_threshold_aborts() {
    let mut core = CeremonyCore::new(config());
    assert_eq!(core.start_ceremony(authority(), five_validators(), 3), Ok(()));
    for v in [10u32, 20, 30] {
        assert_eq!(
            core.submit_round_contribution(validator(v), 1, vec![1, 2, 3]),
            Ok(())
        );
    }
    for v in [10u32, 20, 30] {
        assert_eq!(core.submit_round_contribution(validator(v), 2, vec![]), Ok(()));
    }
    // validator 10 accuses validator 20; the others see nothing wrong
    assert_eq!(core.submit_round_contribution(validator(10), 3, vec![20]), Ok(()));
    assert_eq!(core.submit_round_contribution(validator(20), 3, vec![]), Ok(()));
    assert_eq!(core.submit_round_contribution(validator(30), 3, vec![]), Ok(()));
    // excluding the accused leaves 2 of 3 required participants
    assert_eq!(core.ceremony_status(), CeremonyState::Aborted);
    let last = core.ledger.entries[core.ledger.entries.len() - 1];
    assert_eq!(last, Event::CeremonyAborted { epoch: 0, reason: Error::InsufficientShares });
    // a new ceremony can start, advancing the epoch
    assert_eq!(core.start_ceremony(authority(), five_validators(), 3), Ok(()));
    assert_eq!(core.current_epoch(), 1);
}

#[test]
fn round_transitions_are_logged() {
    let mut core = CeremonyCore::new(config());
    assert_eq!(core.start_ceremony(authority(), vec![1, 2], 2), Ok(()));
    assert_eq!(core.submit_share(validator(1), 1, vec![3, 4]), Ok(()));
    assert_eq!(core.submit_share(validator(2), 1, vec![5, 6]), Ok(()));
    assert!(core
        .ledger
        .entries
        .contains(&Event::RoundAdvanced { epoch: 0, round: 2 }));
    assert!(core
        .ledger
        .entries
        .contains(&Event::ShareReceived { validator: 1, round: 1 }));
}

#[test]
fn contribution_order_does_not_change_the_state() {
    let mut ab = CeremonyCore::new(config());
    let mut ba = CeremonyCore::new(config());
    assert_eq!(ab.start_ceremony(authority(), five_validators(), 3), Ok(()));
    assert_eq!(ba.start_ceremony(authority(), five_validators(), 3), Ok(()));
    assert_eq!(ab.submit_round_contribution(validator(10), 1, vec![35, 49, 77]), Ok(()));
    assert_eq!(ab.submit_round_contribution(validator(20), 1, vec![91, 119, 133]), Ok(()));
    assert_eq!(ba.submit_round_contribution(validator(20), 1, vec![91, 119, 133]), Ok(()));
    assert_eq!(ba.submit_round_contribution(validator(10), 1, vec![35, 49, 77]), Ok(()));
    assert_eq!(ab.ceremony.contributors, ba.ceremony.contributors);
    assert_eq!(ab.ceremony.participants, ba.ceremony.participants);
    assert_eq!(ab.ceremony.commitments, ba.ceremony.commitments);
    assert_eq!(ab.ceremony_status(), ba.ceremony_status());
}
