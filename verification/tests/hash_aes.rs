//! The AES-based correlation-robust hash against an independent
//! computation of the same cipher.

use aes::cipher::{generic_array::GenericArray, BlockEncrypt, KeyInit};
use circuit_psi::hash_aes::AesHash;

fn aes_once(key: u128, x: u128) -> u128 {
    let cipher = aes::Aes128::new(&GenericArray::from(key.to_le_bytes()));
    let mut block = GenericArray::from(x.to_le_bytes());
    cipher.encrypt_block(&mut block);
    let out: [u8; 16] = block.into();
    u128::from_le_bytes(out)
}

#[test]
fn test_cr_hash_is_pi_xor_x() {
    let key: u128 = 0x0011_2233_4455_6677_8899_aabb_ccdd_eeff;
    let x: u128 = 0x1234_5678_9abc_def0_0fed_cba9_8765_4321;
    let h = AesHash::new(key);
    let expected = aes_once(key, x) ^ x;
    assert_eq!(h.cr_hash(0, x), expected);
    // The tweak argument is ignored by this variant.
    assert_eq!(h.cr_hash(42, x), expected);
    // And the hash is not the identity.
    assert_ne!(h.cr_hash(0, x), x);
}

#[test]
fn test_tccr_hash_is_double_encryption() {
    let key: u128 = 7;
    let i: u128 = 0xaaaa_bbbb_cccc_dddd;
    let x: u128 = 99;
    let h = AesHash::new(key);
    let y = aes_once(key, x);
    let expected = y ^ aes_once(key, y ^ i);
    assert_eq!(h.tccr_hash(i, x), expected);
}

#[test]
fn test_tccr_hash_many_matches_single() {
    let key: u128 = 0xdead_beef;
    let i: u128 = 3;
    let h = AesHash::new(key);
    let xs: Vec<u128> = vec![0, 1, 2, u128::MAX, 0x8000_0000_0000_0000];
    let many = h.tccr_hash_many(i, &xs);
    assert_eq!(many.len(), xs.len());
    for (k, x) in xs.iter().enumerate() {
        assert_eq!(many[k], h.tccr_hash(i, *x));
    }
}
