//! Circuit composition semantics, run on the clear gate implementation.

use circuit_psi::circuits::{
    bin_addition_no_carry, bin_constant_bundle, bin_eq_bundles, bin_multiplex, fancy_linear_oram,
    fancy_unmask, wires_to_bundle, BinaryBundle,
};
use circuit_psi::fancy::{ClearFancy, FancyBinary, FancyReveal};

fn encode64(f: &mut ClearFancy, v: u64) -> BinaryBundle {
    BinaryBundle::new(f.encode(v, 64))
}

fn reveal64(f: &mut ClearFancy, b: &BinaryBundle) -> u64 {
    f.reveal_value(b.wires())
}

#[test]
fn test_constant_bundle_round_trip() {
    let mut f = ClearFancy::new();
    for v in [0u64, 1, 7, 0xdead_beef, u64::MAX] {
        let b = bin_constant_bundle(&mut f, v, 64);
        assert_eq!(reveal64(&mut f, &b), v);
    }
    let b = bin_constant_bundle(&mut f, 0x1ff, 8);
    assert_eq!(reveal64(&mut f, &b), 0xff);
}

#[test]
fn test_encode_reveal_round_trip() {
    let mut f = ClearFancy::new();
    for v in [0u64, 5, 1 << 63, u64::MAX] {
        let b = encode64(&mut f, v);
        assert_eq!(reveal64(&mut f, &b), v);
    }
}

#[test]
fn test_bin_multiplex_selects() {
    let mut f = ClearFancy::new();
    let a = encode64(&mut f, 1234);
    let b = encode64(&mut f, 98765);
    let zero = f.constant(false);
    let one = f.constant(true);
    let keep = bin_multiplex(&mut f, &zero, &a, &b);
    let swap = bin_multiplex(&mut f, &one, &a, &b);
    assert_eq!(reveal64(&mut f, &keep), 1234);
    assert_eq!(reveal64(&mut f, &swap), 98765);
}

#[test]
fn test_bin_eq_bundles_bit() {
    let mut f = ClearFancy::new();
    let a = encode64(&mut f, 42);
    let b = encode64(&mut f, 42);
    let c = encode64(&mut f, 43);
    let eq = bin_eq_bundles(&mut f, &a, &b);
    let ne = bin_eq_bundles(&mut f, &a, &c);
    assert!(f.reveal_wire(&eq));
    assert!(!f.reveal_wire(&ne));
}

#[test]
fn test_bin_addition_no_carry_mod() {
    let mut f = ClearFancy::new();
    let cases = [
        (0u64, 0u64),
        (1, 2),
        (0xffff_ffff_ffff_ffff, 1),
        (0x8000_0000_0000_0000, 0x8000_0000_0000_0001),
        (123_456_789, 987_654_321),
    ];
    for (x, y) in cases {
        let a = encode64(&mut f, x);
        let b = encode64(&mut f, y);
        let s = bin_addition_no_carry(&mut f, &a, &b);
        assert_eq!(reveal64(&mut f, &s), x.wrapping_add(y));
    }
}

#[test]
fn test_fancy_unmask_recovers_payload() {
    let mut f = ClearFancy::new();
    let payload: u64 = 0x1122_3344_5566_7788;
    let mask: u64 = 0xdead_beef_cafe_f00d;
    let payload_b = encode64(&mut f, payload);
    let mask_b = encode64(&mut f, mask);
    let masked = encode64(&mut f, payload ^ mask);
    let unmasked = fancy_unmask(&mut f, &vec![masked], &vec![mask_b]);
    assert_eq!(unmasked.len(), 1);
    assert_eq!(reveal64(&mut f, &unmasked[0]), payload);
    // Sanity: the masked value itself is not the payload.
    assert_ne!(reveal64(&mut f, &payload_b), payload ^ mask);
}

#[test]
fn test_wires_to_bundle_groups() {
    let mut f = ClearFancy::new();
    let mut flat = f.encode(7, 64);
    flat.extend(f.encode(9, 64));
    let bundles = wires_to_bundle(&flat, 64);
    assert_eq!(bundles.len(), 2);
    assert_eq!(reveal64(&mut f, &bundles[0]), 7);
    assert_eq!(reveal64(&mut f, &bundles[1]), 9);
}

#[test]
fn test_linear_oram_example() {
    let mut f = ClearFancy::new();
    let ram_values: [u64; 6] = [1, 2, 3, 7, 7, 25];
    let mut ram: Vec<BinaryBundle> = Vec::new();
    for v in ram_values {
        ram.push(encode64(&mut f, v));
    }
    let query5 = encode64(&mut f, 5);
    let r5 = fancy_linear_oram(&mut f, &ram, &query5);
    assert_eq!(reveal64(&mut f, &r5), 25);
    let query3 = encode64(&mut f, 3);
    let r3 = fancy_linear_oram(&mut f, &ram, &query3);
    assert_eq!(reveal64(&mut f, &r3), 7);
}
