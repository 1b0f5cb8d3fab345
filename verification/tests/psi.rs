//! End-to-end circuit-PSI runs on the clear role.

use circuit_psi::base_psi::{exchange, OpprfMisses};
use circuit_psi::bytes::u64_to_le_bytes_vec;
use circuit_psi::circuits::wires_to_bundle;
use circuit_psi::clear::ClearPsi;
use circuit_psi::errors::Error;
use circuit_psi::fancy::{ClearFancy, FancyReveal};
use circuit_psi::{CircuitPsi, PrimaryKey};

fn key8(v: u64) -> PrimaryKey {
    u64_to_le_bytes_vec(v)
}

fn misses_for(n: usize, seed: u64) -> OpprfMisses {
    let mut sender_tags = Vec::new();
    let mut receiver_tags = Vec::new();
    let mut masks = Vec::new();
    let mut payloads = Vec::new();
    for i in 0..n as u64 {
        sender_tags.push(seed.wrapping_add(2 * i + 1));
        receiver_tags.push(seed.wrapping_add(2 * i + 2));
        masks.push(seed.wrapping_mul(31).wrapping_add(i));
        payloads.push(seed.wrapping_mul(77).wrapping_add(i));
    }
    OpprfMisses { sender_tags, receiver_tags, masks, payloads }
}

#[test]
fn test_intersect_with_payloads_reveals_matches() {
    let mut role = ClearPsi {
        sender_keys: vec![key8(1), key8(2), key8(3)],
        sender_payloads: vec![10, 20, 30],
        sender_masks: vec![0xaaaa, 0xbbbb, 0xcccc],
        misses: misses_for(2, 0x5eed),
    };
    let receiver_keys = vec![key8(2), key8(5)];
    let receiver_payloads = vec![200, 500];
    let out = role
        .intersect_with_payloads(&receiver_keys, Some(&receiver_payloads))
        .expect("protocol run should succeed");
    let mut f = ClearFancy::new();
    let bits: Vec<bool> = out
        .intersection
        .existence_bit_vector
        .iter()
        .map(|w| f.reveal_wire(w))
        .collect();
    assert_eq!(bits, vec![true, false]);
    // The matched key's unmasked sender payload is the sender's payload.
    assert_eq!(out.payloads.sender_payloads.len(), 2);
    let revealed = f.reveal_value(out.payloads.sender_payloads[0].wires());
    assert_eq!(revealed, 20);
    // The receiver's own payloads pass through unchanged.
    let rp0 = f.reveal_value(out.payloads.receiver_payloads[0].wires());
    let rp1 = f.reveal_value(out.payloads.receiver_payloads[1].wires());
    assert_eq!((rp0, rp1), (200, 500));
}

#[test]
fn test_intersect_disjoint_sets_all_zero() {
    let mut role = ClearPsi {
        sender_keys: vec![key8(100), key8(200)],
        sender_payloads: vec![1, 2],
        sender_masks: vec![3, 4],
        misses: misses_for(3, 0xfeed),
    };
    let receiver_keys = vec![key8(7), key8(8), key8(9)];
    let out = role.intersect(&receiver_keys).expect("protocol run should succeed");
    let mut f = ClearFancy::new();
    for w in &out.intersection.existence_bit_vector {
        assert!(!f.reveal_wire(w));
    }
    assert_eq!(out.payloads.sender_payloads.len(), 0);
    assert_eq!(out.payloads.receiver_payloads.len(), 0);
}

#[test]
fn test_intersect_no_false_negatives() {
    // Every shared key must come back with existence bit 1, whatever the
    // miss draws are.
    let mut role = ClearPsi {
        sender_keys: vec![key8(11), key8(22), key8(33), key8(44)],
        sender_payloads: vec![0, 0, 0, 0],
        sender_masks: vec![0, 0, 0, 0],
        misses: misses_for(4, 42),
    };
    let receiver_keys = vec![key8(44), key8(33), key8(22), key8(11)];
    let out = role.intersect(&receiver_keys).expect("protocol run should succeed");
    let mut f = ClearFancy::new();
    for w in &out.intersection.existence_bit_vector {
        assert!(f.reveal_wire(w));
    }
}

#[test]
fn test_intersect_rejects_bad_key_length() {
    let mut role = ClearPsi {
        sender_keys: vec![key8(1)],
        sender_payloads: vec![1],
        sender_masks: vec![1],
        misses: misses_for(1, 1),
    };
    let short_key: PrimaryKey = vec![1, 2, 3];
    let r = role.intersect(&vec![short_key]);
    assert_eq!(r.unwrap_err(), Error::InvalidKeyLength);
}

#[test]
fn test_intersect_rejects_sender_payload_mismatch() {
    let mut role = ClearPsi {
        sender_keys: vec![key8(1), key8(2)],
        sender_payloads: vec![1],
        sender_masks: vec![1, 2],
        misses: misses_for(1, 1),
    };
    let r = role.intersect(&vec![key8(1)]);
    assert_eq!(r.unwrap_err(), Error::PayloadLengthMismatch);
}

#[test]
fn test_intersect_rejects_mask_mismatch() {
    let mut role = ClearPsi {
        sender_keys: vec![key8(1), key8(2)],
        sender_payloads: vec![1, 2],
        sender_masks: vec![1],
        misses: misses_for(1, 1),
    };
    let r = role.intersect(&vec![key8(1)]);
    assert_eq!(r.unwrap_err(), Error::MaskLengthMismatch);
}

#[test]
fn test_intersect_rejects_receiver_payload_mismatch() {
    let mut role = ClearPsi {
        sender_keys: vec![key8(1)],
        sender_payloads: vec![1],
        sender_masks: vec![1],
        misses: misses_for(2, 1),
    };
    let receiver_keys = vec![key8(1), key8(2)];
    let receiver_payloads = vec![7];
    let r = role.intersect_with_payloads(&receiver_keys, Some(&receiver_payloads));
    assert_eq!(r.unwrap_err(), Error::PayloadLengthMismatch);
}

#[test]
fn test_intersect_rejects_short_misses() {
    let mut role = ClearPsi {
        sender_keys: vec![key8(1)],
        sender_payloads: vec![1],
        sender_masks: vec![1],
        misses: misses_for(1, 1),
    };
    let r = role.intersect(&vec![key8(1), key8(2)]);
    assert_eq!(r.unwrap_err(), Error::MissLengthMismatch);
}

#[test]
fn test_base_psi_mask_round_trip() {
    // For a key present in both sets the receiver's mask wires equal the
    // sender's mask; for an absent key they equal only the miss draw.
    let mut f = ClearFancy::new();
    let sender_keys: Vec<u64> = vec![5, 6];
    let sender_payloads: Vec<u64> = vec![50, 60];
    let sender_masks: Vec<u64> = vec![0x1111, 0x2222];
    let receiver_keys: Vec<u64> = vec![6, 9];
    let receiver_payloads: Vec<u64> = vec![0, 0];
    let misses = misses_for(2, 0xabcd);
    let ci = exchange(
        &mut f,
        &sender_keys,
        &sender_payloads,
        &sender_masks,
        &receiver_keys,
        &receiver_payloads,
        &misses,
    );
    let mask_bundles = wires_to_bundle(&ci.masks, 64);
    let m0 = f.reveal_value(mask_bundles[0].wires());
    let m1 = f.reveal_value(mask_bundles[1].wires());
    assert_eq!(m0, 0x2222);
    assert_eq!(m1, misses.masks[1]);
    assert_ne!(m1, 0x1111);
    assert_ne!(m1, 0x2222);
}
