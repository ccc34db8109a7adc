use ceremony_core::codec::{
    decode_hlc, decode_public_key, decode_signature, encode_hlc, encode_public_key,
    encode_signature,
};
use ceremony_core::events::{Event, EventLog};
use ceremony_core::hlc::HLC;
use ceremony_core::weights::SubstrateWeight;

#[test]
fn hlc_wire_format_is_fourteen_bytes_big_endian() {
    let h = HLC { physical: 1000, logical: 1, validator_id: 7 };
    let bytes = encode_hlc(&h);
    assert_eq!(bytes, vec![0, 0, 0, 0, 0, 0, 3, 232, 0, 1, 0, 0, 0, 7]);
    assert_eq!(decode_hlc(&bytes), Some(h));
}

#[test]
fn hlc_decoding_rejects_wrong_lengths() {
    assert_eq!(decode_hlc(&vec![0u8; 13]), None);
    assert_eq!(decode_hlc(&vec![0u8; 15]), None);
    assert_eq!(decode_hlc(&Vec::new()), None);
    let extremes = HLC { physical: u64::MAX, logical: u16::MAX, validator_id: u32::MAX };
    assert_eq!(decode_hlc(&encode_hlc(&extremes)), Some(extremes));
}

#[test]
fn public_key_wire_format_is_forty_eight_bytes() {
    let bytes = encode_public_key(36);
    assert_eq!(bytes.len(), 48);
    assert!(bytes[..47].iter().all(|b| *b == 0));
    assert_eq!(bytes[47], 36);
    assert_eq!(decode_public_key(&bytes), Some(36));
    let mut tampered = bytes.clone();
    tampered[0] = 1;
    assert_eq!(decode_public_key(&tampered), None);
    assert_eq!(decode_public_key(&vec![0u8; 47]), None);
}

#[test]
fn signature_wire_format_is_ninety_six_bytes() {
    let bytes = encode_signature(212);
    assert_eq!(bytes.len(), 96);
    assert!(bytes[..95].iter().all(|b| *b == 0));
    assert_eq!(bytes[95], 212);
    assert_eq!(decode_signature(&bytes), Some(212));
    assert_eq!(decode_signature(&vec![0u8; 95]), None);
}

#[test]
fn ledger_sequence_numbers_are_monotonic_and_unique() {
    let mut log = EventLog::new();
    let a = log.append(Event::DKGInitiated { epoch: 0 });
    let b = log.append(Event::CeremonyCompleted { epoch: 0 });
    let c = log.append(Event::HLCUpdated { physical: 5, logical: 0 });
    assert_eq!((a, b, c), (0, 1, 2));
    assert_eq!(log.entries.len(), 3);
    assert_eq!(log.entries[1], Event::CeremonyCompleted { epoch: 0 });
}

#[test]
fn epoch_state_store_reads_back_what_was_written() {
    let mut log = EventLog::new();
    assert!(log.read_epoch_state(1).is_none());
    log.write_epoch_state(1, vec![1, 2, 3]);
    log.write_epoch_state(2, vec![9]);
    assert_eq!(log.read_epoch_state(1), Some(&vec![1, 2, 3]));
    assert_eq!(log.read_epoch_state(2), Some(&vec![9]));
    assert!(log.read_epoch_state(3).is_none());
    log.write_epoch_state(1, vec![4]);
    assert_eq!(log.read_epoch_state(1), Some(&vec![4]));
}

#[test]
fn operation_weights_match_the_reference_values() {
    assert_eq!(SubstrateWeight::start_ceremony(), 100_000);
    assert_eq!(SubstrateWeight::submit_share(), 200_000);
    assert_eq!(SubstrateWeight::complete_ceremony(), 150_000);
    assert_eq!(SubstrateWeight::initiate_ceremony(), 100_000);
    assert_eq!(SubstrateWeight::set_public_key(), 100_000);
    assert_eq!(SubstrateWeight::submit_partial_signature(), 100_000);
    assert_eq!(SubstrateWeight::produce_threshold_signature(), 200_000);
    assert_eq!(SubstrateWeight::update_hlc(), 50_000);
    assert_eq!(SubstrateWeight::submit_timestamp_vote(), 50_000);
}
