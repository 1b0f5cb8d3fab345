//! Correlation-robust hash functions (and their variants) based on
//! fixed-key AES.
//!
//! The block cipher itself is an outside primitive; its output on a given
//! key and block is named by [`aes_encrypt_of`], and the hash constructions
//! around it are verified to compute exactly their defining exclusive-or
//! compositions.

use vstd::prelude::*;
use aes::cipher::{BlockEncrypt, KeyInit, generic_array::GenericArray};

verus! {

/// A 128-bit cryptographic block, little-endian.
pub type Block = u128;

#[verifier::external_type_specification]
#[verifier::external_body]
/// The AES-128 block cipher of the `aes` crate, an opaque outside type.
pub struct ExAes128(aes::Aes128);

/// What AES-128 encryption returns on a given key and block; a function of
/// the two alone.
pub uninterp spec fn aes_encrypt_of(key: Block, x: Block) -> Block;

/// The correlation-robust hash value: `π(x) ⊕ x`.
pub open spec fn spec_cr_hash(key: Block, x: Block) -> Block {
    aes_encrypt_of(key, x) ^ x
}

/// The tweakable circular correlation-robust hash value:
/// `π(π(x) ⊕ i) ⊕ π(x)`.
pub open spec fn spec_tccr_hash(key: Block, i: Block, x: Block) -> Block {
    aes_encrypt_of(key, x) ^ aes_encrypt_of(key, aes_encrypt_of(key, x) ^ i)
}

/// AES-based correlation-robust hash function.
pub struct AesHash {
    aes: aes::Aes128,
    key: Block,
}

impl AesHash {
    /// The key the hash was initialized with.
    pub closed spec fn spec_key(&self) -> Block {
        self.key
    }

    /// Initialize the hash function using `key`.
    ///
    /// Relies on `aes::Aes128::new` (`KeyInit`): it builds the cipher for
    /// exactly the given key bytes.
    #[verifier::external_body]
    pub fn new(key: Block) -> (r: AesHash)
        ensures
            r.spec_key() == key,
    {
        let aes = aes::Aes128::new(&GenericArray::from(key.to_le_bytes()));
        AesHash { aes, key }
    }

    /// Relies on `aes::Aes128::encrypt_block`: the AES-128 encryption of
    /// the block under the cipher's key, a function of key and block alone.
    #[verifier::external_body]
    fn encrypt(&self, x: Block) -> (r: Block)
        ensures
            r == aes_encrypt_of(self.spec_key(), x),
    {
        let mut block = GenericArray::from(x.to_le_bytes());
        self.aes.encrypt_block(&mut block);
        let out: [u8; 16] = block.into();
        u128::from_le_bytes(out)
    }

    /// Correlation-robust hash function for 128-bit inputs.
    ///
    /// The function computes `π(x) ⊕ x`.
    pub fn cr_hash(&self, _i: Block, x: Block) -> (r: Block)
        ensures
            r == spec_cr_hash(self.spec_key(), x),
    {
        self.encrypt(x) ^ x
    }

    /// Tweakable circular correlation robust hash function.
    ///
    /// The function computes `π(π(x) ⊕ i) ⊕ π(x)`.
    pub fn tccr_hash(&self, i: Block, x: Block) -> (r: Block)
        ensures
            r == spec_tccr_hash(self.spec_key(), i, x),
    {
        let y = self.encrypt(x);
        let t = y ^ i;
        let z = self.encrypt(t);
        y ^ z
    }

    /// Batch tweakable circular correlation robust hash function.
    pub fn tccr_hash_many(&self, i: Block, xs: &Vec<Block>) -> (r: Vec<Block>)
        ensures
            r@.len() == xs@.len(),
            forall|j: int|
                0 <= j < xs@.len() ==> r@[j] == spec_tccr_hash(self.spec_key(), i, xs@[j]),
    {
        let n = xs.len();
        let mut r: Vec<Block> = Vec::new();
        let mut j: usize = 0;
        while j < n
            invariant
                n == xs@.len(),
                0 <= j <= n,
                r@.len() == j,
                forall|k: int|
                    0 <= k < j ==> r@[k] == spec_tccr_hash(self.spec_key(), i, xs@[k]),
            decreases n - j,
        {
            let v = self.tccr_hash(i, xs[j]);
            r.push(v);
            j = j + 1;
        }
        r
    }
}

} // verus!
