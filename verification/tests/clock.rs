use ceremony_core::engine::{Caller, CeremonyCore};
use ceremony_core::errors::Error;
use ceremony_core::events::Event;
use ceremony_core::hlc::{HlcConfig, HLC};

fn config() -> HlcConfig {
    HlcConfig { deviation_bound: 100, backward_tolerance: 50, quorum: 3, agreement_window: 100 }
}

fn validator(id: u32) -> Caller {
    Caller { is_authority: false, identity: id }
}

fn lex(h: &HLC) -> (u64, u16) {
    (h.physical, h.logical)
}

#[test]
fn repeated_physical_time_increments_logical_counter() {
    let mut core = CeremonyCore::new(config());
    // two events in quick succession observe the same physical time
    let a = core.now(validator(1), 1000);
    assert_eq!((a.physical, a.logical), (1000, 0));
    let b = core.now(validator(1), 1000);
    assert_eq!((b.physical, b.logical), (1000, 1));
    // a vote wildly ahead of local time is rejected
    let r = core.submit_timestamp_vote(validator(2), 5000, 1050);
    assert_eq!(r, Err(Error::DeviationTooLarge));
}

#[test]
fn clock_values_grow_strictly_in_causal_order() {
    let mut core = CeremonyCore::new(config());
    let a = core.now(validator(1), 5);
    let b = core.now(validator(2), 5);
    let c = core.now(validator(3), 4);
    assert_eq!(lex(&a), (5, 0));
    assert_eq!(lex(&b), (5, 1));
    assert_eq!(lex(&c), (5, 2));
    assert!(lex(&a) < lex(&b) && lex(&b) < lex(&c));
    assert_eq!(core.current_hlc(), c);
}

#[test]
fn exhausted_logical_counter_rolls_into_next_millisecond() {
    let mut core = CeremonyCore::new(config());
    assert!(core.update_hlc(validator(1), 5, u16::MAX).is_ok());
    let next = core.now(validator(1), 5);
    assert_eq!((next.physical, next.logical), (6, 0));
}

#[test]
fn remote_clock_merge_is_strictly_monotonic() {
    let mut core = CeremonyCore::new(config());
    let merged = core.update_hlc(validator(4), 1000, 0);
    assert_eq!(
        merged,
        Ok(HLC { physical: 1000, logical: 0, validator_id: 4 })
    );
    assert_eq!(
        core.update_hlc(validator(4), 1000, 0),
        Err(Error::InvalidTimestamp)
    );
    assert_eq!(
        core.update_hlc(validator(4), 999, 9),
        Err(Error::InvalidTimestamp)
    );
    assert_eq!(
        core.update_hlc(validator(5), 1000, 1),
        Ok(HLC { physical: 1000, logical: 1, validator_id: 5 })
    );
    assert!(core
        .ledger
        .entries
        .contains(&Event::HLCUpdated { physical: 1000, logical: 1 }));
}

#[test]
fn quorum_of_close_votes_agrees_on_median() {
    let mut core = CeremonyCore::new(config());
    assert_eq!(core.submit_timestamp_vote(validator(1), 990, 1000), Ok(None));
    assert_eq!(core.submit_timestamp_vote(validator(2), 1010, 1000), Ok(None));
    let agreed = core.submit_timestamp_vote(validator(3), 1000, 1000);
    assert_eq!(
        agreed,
        Ok(Some(HLC { physical: 1000, logical: 0, validator_id: 3 }))
    );
    assert_eq!(core.current_hlc().physical, 1000);
    assert!(core.clock.votes.is_empty());
    assert!(core
        .ledger
        .entries
        .contains(&Event::HLCUpdated { physical: 1000, logical: 0 }));
    assert!(core
        .ledger
        .entries
        .contains(&Event::TimestampVote { validator: 1, timestamp: 990 }));
}

#[test]
fn votes_far_in_the_past_are_rejected() {
    let mut core = CeremonyCore::new(config());
    assert_eq!(core.submit_timestamp_vote(validator(1), 990, 1000), Ok(None));
    assert_eq!(core.submit_timestamp_vote(validator(2), 1010, 1000), Ok(None));
    assert!(core.submit_timestamp_vote(validator(3), 1000, 1000).is_ok());
    // the agreed physical time is now 1000 and the tolerance is 50
    assert_eq!(
        core.submit_timestamp_vote(validator(4), 900, 950),
        Err(Error::InvalidTimestamp)
    );
    // within tolerance, a slightly old vote is accepted
    assert_eq!(core.submit_timestamp_vote(validator(4), 960, 1000), Ok(None));
}

#[test]
fn a_validator_votes_once_per_round() {
    let mut core = CeremonyCore::new(config());
    assert_eq!(core.submit_timestamp_vote(validator(1), 1000, 1000), Ok(None));
    assert_eq!(
        core.submit_timestamp_vote(validator(1), 1001, 1000),
        Err(Error::DuplicateShare)
    );
    // the rejected vote did not count toward the quorum
    assert_eq!(core.clock.votes.len(), 1);
}

#[test]
fn spread_out_votes_do_not_agree() {
    let mut core = CeremonyCore::new(config());
    assert_eq!(core.submit_timestamp_vote(validator(1), 950, 1000), Ok(None));
    assert_eq!(core.submit_timestamp_vote(validator(2), 1060, 1000), Ok(None));
    // three votes are in but the spread (110) exceeds the window (100)
    assert_eq!(core.submit_timestamp_vote(validator(3), 1000, 1000), Ok(None));
    assert_eq!(core.current_hlc().physical, 0);
    assert_eq!(core.clock.votes.len(), 3);
}
