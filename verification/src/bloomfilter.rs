//! A Bloom filter: a probabilistic set-membership structure.
//!
//! It is guaranteed to report 1 for an element that was inserted, and
//! reports 1 for an absent element only with a probability set by the
//! sizing.  It does not reveal what is in the set.  The serialized form
//! packs the bins eight to a byte behind an eight-byte little-endian length
//! header, with explicit, checked encoding.

use vstd::prelude::*;
use sha2::Digest;
use crate::bits::{bits_value, lemma_bits_value_skip, lemma_bits_value_nth};
use crate::bytes::{le_bytes_value, le_u64_at, u64_to_le_bytes_vec, u64_le_bytes_n};
use vstd::arithmetic::power2::{
    pow2,
    lemma2_to64,
    lemma_pow2_pos,
    lemma_pow2_strictly_increases,
};
use vstd::arithmetic::div_mod::{
    lemma_div_basics,
    lemma_div_denominator,
    lemma_div_pos_is_pos,
    lemma_div_is_ordered,
    lemma_div_plus_one,
    lemma_fundamental_div_mod,
    lemma_fundamental_div_mod_converse,
};

verus! {

/// What SHA-256 returns on given bytes; a function of the input alone.
pub uninterp spec fn sha256_of(data: Seq<u8>) -> Seq<u8>;

/// Relies on `sha2::Sha256::digest`: the 32-byte SHA-256 digest of the
/// input, a function of the input bytes alone.
#[verifier::external_body]
fn sha256(data: &Vec<u8>) -> (r: Vec<u8>)
    ensures
        r@ == sha256_of(data@),
        r@.len() == 32,
{
    sha2::Sha256::digest(data.as_slice()).to_vec()
}

/// The unreduced bin that `value` probes under hash function `hash_index`:
/// the value of the first eight digest bytes over the hash index and the
/// value.  Reduce modulo the filter size before use.
pub open spec fn spec_bin(value: Seq<u8>, hash_index: u64) -> nat {
    le_bytes_value(sha256_of(u64_le_bytes_n(hash_index, 8) + value).take(8))
}

/// The bin `value` probes within a filter of `nbins` bins.
pub open spec fn spec_probe(value: Seq<u8>, hash_index: u64, nbins: nat) -> int {
    (spec_bin(value, hash_index) % nbins) as int
}

/// Membership as the filter reports it: every probed bin is set.
pub open spec fn bins_contain(bins: Seq<bool>, nhashes: nat, value: Seq<u8>) -> bool {
    forall|h: u64| h < nhashes ==> bins[#[trigger] spec_probe(value, h, bins.len())]
}

/// How one insertion changes the bins: every probed bin becomes set and no
/// other bin changes.
pub open spec fn insert_effect(
    old_bins: Seq<bool>,
    new_bins: Seq<bool>,
    nhashes: nat,
    value: Seq<u8>,
) -> bool {
    &&& new_bins.len() == old_bins.len()
    &&& forall|i: int|
        0 <= i < old_bins.len() ==> #[trigger] new_bins[i] == (old_bins[i] || exists|h: u64|
            h < nhashes && spec_probe(value, h, old_bins.len()) == i)
}

/// Bit `j` of a byte.
pub open spec fn byte_bit(b: u8, j: nat) -> bool {
    ((b as nat) / pow2(j)) % 2 == 1
}

/// The serialized form of a bin sequence: an eight-byte little-endian
/// length header, then the bins packed eight to a byte, low bin first.
pub open spec fn serialized_bins(bins: Seq<bool>, bytes: Seq<u8>) -> bool {
    &&& bytes.len() == 8 + (bins.len() + 7) / 8
    &&& le_bytes_value(bytes.take(8)) == bins.len()
    &&& forall|k: int|
        0 <= k < (bins.len() + 7) / 8 ==> (#[trigger] bytes[8 + k]) as nat == bits_value(
            bins.subrange(
                8 * k,
                if 8 * k + 8 <= bins.len() {
                    8 * k + 8
                } else {
                    bins.len() as int
                },
            ),
        )
}

/// What reading a serialized form back yields: the length from the header,
/// each bin from its packed bit, and bins beyond the given bytes cleared.
pub open spec fn deserialized_bins(bytes: Seq<u8>, bins: Seq<bool>) -> bool {
    &&& bins.len() == le_bytes_value(bytes.take(8))
    &&& forall|i: int|
        0 <= i < bins.len() ==> #[trigger] bins[i] == (8 + i / 8 < bytes.len() && byte_bit(
            bytes[8 + i / 8],
            (i % 8) as nat,
        ))
}

/// Reading a filter's serialized bytes back yields the same bins.
pub proof fn lemma_serialization_round_trip(bins: Seq<bool>, bytes: Seq<u8>, out: Seq<bool>)
    requires
        serialized_bins(bins, bytes),
        deserialized_bins(bytes, out),
    ensures
        out =~= bins,
{
    assert(bytes.take(8).len() == 8);
    assert forall|i: int| 0 <= i < bins.len() implies out[i] == bins[i] by {
        let k = i / 8;
        let j = i % 8;
        lemma_fundamental_div_mod(i, 8);
        lemma_div_pos_is_pos(i, 8);
        assert(k < (bins.len() + 7) / 8) by {
            lemma_div_is_ordered(i, bins.len() - 1, 8);
            lemma_div_plus_one(bins.len() - 1, 8);
        }
        let hi = if 8 * k + 8 <= bins.len() {
            8 * k + 8
        } else {
            bins.len() as int
        };
        let chunk = bins.subrange(8 * k, hi);
        assert(0 <= j < chunk.len());
        lemma_bits_value_nth(chunk, j);
        assert(chunk[j] == bins[i]);
        assert(byte_bit(bytes[8 + k], j as nat) == chunk[j]);
    }
}

/// Simple Bloom filter.  Reports 1 with certainty for an element in the
/// set, and 1 with a sizing-dependent probability for an element outside
/// it.  Does not reveal what is in the set.
#[derive(Debug)]
pub struct BloomFilter {
    bits: Vec<bool>,
    nhashes: usize,
}

impl BloomFilter {
    /// The bins, as a sequence.
    pub closed spec fn spec_bins(&self) -> Seq<bool> {
        self.bits@
    }

    /// The number of hash functions, as a number.
    pub closed spec fn spec_nhashes(&self) -> nat {
        self.nhashes as nat
    }

    /// Create a new BloomFilter with `size` entries, using `nhashes` hash
    /// functions.
    pub fn new(size: usize, nhashes: usize) -> (r: Self)
        ensures
            r.spec_bins().len() == size,
            forall|i: int| 0 <= i < size ==> !r.spec_bins()[i],
            r.spec_nhashes() == nhashes,
    {
        let mut bits: Vec<bool> = Vec::new();
        let mut i: usize = 0;
        while i < size
            invariant
                0 <= i <= size,
                bits@.len() == i,
                forall|k: int| 0 <= k < i ==> !bits@[k],
            decreases size - i,
        {
            bits.push(false);
            i = i + 1;
        }
        BloomFilter { bits, nhashes }
    }

    /// Get the number of bins in this BloomFilter.
    pub fn len(&self) -> (n: usize)
        ensures
            n == self.spec_bins().len(),
    {
        self.bits.len()
    }

    /// Get the number of hash functions in this BloomFilter.
    pub fn nhashes(&self) -> (n: usize)
        ensures
            n == self.spec_nhashes(),
    {
        self.nhashes
    }

    /// Get bloom filter bins.
    pub fn bins(&self) -> (r: Vec<bool>)
        ensures
            r@ == self.spec_bins(),
    {
        let n = self.bits.len();
        let mut r: Vec<bool> = Vec::new();
        let mut i: usize = 0;
        while i < n
            invariant
                n == self.bits@.len(),
                0 <= i <= n,
                r@ =~= self.bits@.take(i as int),
            decreases n - i,
        {
            r.push(self.bits[i]);
            proof {
                assert(r@ =~= self.bits@.take(i + 1));
            }
            i = i + 1;
        }
        proof {
            assert(self.bits@.take(n as int) =~= self.bits@);
        }
        r
    }

    /// Compute the bin that this value would go to in a BloomFilter.
    ///
    /// The result must be reduced modulo the actual size of the bloom
    /// filter to avoid out-of-bounds probes.
    pub fn bin(value: &Vec<u8>, hash_index: usize) -> (r: u64)
        ensures
            r as nat == spec_bin(value@, hash_index as u64),
    {
        let mut bytes = u64_to_le_bytes_vec(hash_index as u64);
        let n = value.len();
        let mut i: usize = 0;
        proof {
            assert(bytes@ + value@.take(0) =~= bytes@);
        }
        let ghost header = bytes@;
        while i < n
            invariant
                n == value@.len(),
                0 <= i <= n,
                bytes@ =~= header + value@.take(i as int),
            decreases n - i,
        {
            bytes.push(value[i]);
            proof {
                assert(header + value@.take(i + 1) =~= (header + value@.take(i as int)).push(
                    value@[i as int],
                ));
            }
            i = i + 1;
        }
        proof {
            assert(value@.take(n as int) =~= value@);
        }
        let h = sha256(&bytes);
        proof {
            assert(h@.subrange(0, 8) =~= h@.take(8));
        }
        le_u64_at(&h, 0)
    }

    /// Insert an item into the BloomFilter.
    pub fn insert(&mut self, value: &Vec<u8>)
        requires
            old(self).spec_bins().len() > 0,
        ensures
            final(self).spec_nhashes() == old(self).spec_nhashes(),
            insert_effect(
                old(self).spec_bins(),
                final(self).spec_bins(),
                old(self).spec_nhashes(),
                value@,
            ),
            bins_contain(final(self).spec_bins(), final(self).spec_nhashes(), value@),
    {
        let nh = self.nhashes;
        let len = self.bits.len();
        let mut hash_index: usize = 0;
        while hash_index < nh
            invariant
                nh == old(self).nhashes,
                self.nhashes == old(self).nhashes,
                len == self.bits@.len(),
                len == old(self).bits@.len(),
                len > 0,
                0 <= hash_index <= nh,
                forall|i: int|
                    0 <= i < len ==> #[trigger] self.bits@[i] == (old(self).bits@[i] || exists|
                        h: u64,
                    |
                        h < hash_index && spec_probe(value@, h, len as nat) == i),
            decreases nh - hash_index,
        {
            let b = Self::bin(value, hash_index);
            let idx = (b % (len as u64)) as usize;
            proof {
                assert(idx as int == spec_probe(value@, hash_index as u64, len as nat));
            }
            let ghost prev = self.bits@;
            self.bits.set(idx, true);
            proof {
                assert forall|i: int|
                    0 <= i < len implies #[trigger] self.bits@[i] == (old(self).bits@[i]
                    || exists|h: u64|
                        h < hash_index + 1 && spec_probe(value@, h, len as nat) == i) by {
                    if i == idx {
                        assert(spec_probe(value@, hash_index as u64, len as nat) == i);
                        assert((hash_index as u64) < hash_index + 1);
                    } else {
                        assert(self.bits@[i] == prev[i]);
                        assert(forall|h: u64|
                            h < hash_index + 1 && spec_probe(value@, h, len as nat) == i ==> h
                                < hash_index);
                    }
                }
            }
            hash_index = hash_index + 1;
        }
        proof {
            assert forall|h: u64| h < self.spec_nhashes() implies self.spec_bins()[#[trigger] spec_probe(
                value@,
                h,
                self.spec_bins().len(),
            )] by {
                let i = spec_probe(value@, h, len as nat);
                vstd::arithmetic::div_mod::lemma_mod_bound(
                    spec_bin(value@, h) as int,
                    len as int,
                );
                assert(self.bits@[i] == (old(self).bits@[i] || exists|g: u64|
                    g < nh && spec_probe(value@, g, len as nat) == i));
            }
        }
    }

    /// Check whether an item exists in the BloomFilter.
    pub fn contains(&mut self, value: &Vec<u8>) -> (r: bool)
        requires
            old(self).spec_bins().len() > 0,
        ensures
            *final(self) == *old(self),
            r == bins_contain(old(self).spec_bins(), old(self).spec_nhashes(), value@),
    {
        let nh = self.nhashes;
        let len = self.bits.len();
        let mut hash_index: usize = 0;
        while hash_index < nh
            invariant
                nh == self.nhashes,
                len == self.bits@.len(),
                len > 0,
                0 <= hash_index <= nh,
                *self == *old(self),
                forall|g: u64|
                    g < hash_index ==> self.bits@[#[trigger] spec_probe(value@, g, len as nat)],
            decreases nh - hash_index,
        {
            let b = Self::bin(value, hash_index);
            let idx = (b % (len as u64)) as usize;
            proof {
                assert(idx as int == spec_probe(value@, hash_index as u64, len as nat));
            }
            if !self.bits[idx] {
                proof {
                    assert(!self.bits@[spec_probe(value@, hash_index as u64, len as nat)]);
                }
                return false;
            }
            hash_index = hash_index + 1;
        }
        true
    }

    /// Get bloom filter bins packed in bytes: an eight-byte little-endian
    /// length header, then the bins eight to a byte.
    pub fn as_bytes(&self) -> (r: Vec<u8>)
        requires
            self.spec_bins().len() + 8 <= usize::MAX,
        ensures
            serialized_bins(self.spec_bins(), r@),
    {
        let len = self.bits.len();
        let nbytes = len / 8 + (if len % 8 == 0 {
            0
        } else {
            1
        });
        proof {
            lemma_fundamental_div_mod(len as int, 8);
            let q = len as int / 8;
            let rm = len as int % 8;
            if rm == 0 {
                lemma_fundamental_div_mod_converse(len as int + 7, 8, q, 7);
            } else {
                lemma_fundamental_div_mod_converse(len as int + 7, 8, q + 1, rm - 1);
            }
            assert(nbytes as int == (len as int + 7) / 8);
        }
        let mut out = u64_to_le_bytes_vec(len as u64);
        let ghost header = out@;
        proof {
            assert(header.take(8) =~= header);
        }
        let mut k: usize = 0;
        while k < nbytes
            invariant
                len == self.bits@.len(),
                len + 8 <= usize::MAX,
                nbytes as int == (len as int + 7) / 8,
                8 * (nbytes as int) <= len + 8,
                0 <= k <= nbytes,
                out@.len() == 8 + k,
                out@.take(8) =~= header,
                le_bytes_value(header) == len,
                forall|k2: int|
                    0 <= k2 < k ==> (#[trigger] out@[8 + k2]) as nat == bits_value(
                        self.bits@.subrange(
                            8 * k2,
                            if 8 * k2 + 8 <= len {
                                8 * k2 + 8
                            } else {
                                len as int
                            },
                        ),
                    ),
            decreases nbytes - k,
        {
            proof {
                assert(8 * (k as int) + 8 <= 8 * (nbytes as int)) by (nonlinear_arith)
                    requires
                        k as int + 1 <= nbytes as int,
                ;
                assert(8 * (k as int) >= 0) by (nonlinear_arith)
                    requires
                        k >= 0,
                ;
            }
            let lo = 8 * k;
            let hi = if len - lo >= 8 {
                lo + 8
            } else {
                len
            };
            let ghost chunk = self.bits@.subrange(lo as int, hi as int);
            let cl = hi - lo;
            let mut b: u8 = 0;
            let mut t: usize = 0;
            proof {
                assert(chunk.skip(cl as int) =~= Seq::<bool>::empty());
                assert(pow2(0) == 1) by {
                    lemma2_to64();
                }
            }
            while t < cl
                invariant
                    lo + cl <= len,
                    cl <= 8,
                    lo == 8 * k,
                    len == self.bits@.len(),
                    chunk == self.bits@.subrange(lo as int, lo + cl),
                    0 <= t <= cl,
                    b as nat == bits_value(chunk.skip(cl - t)),
                    (b as nat) < pow2(t as nat),
                decreases cl - t,
            {
                let bitv = self.bits[lo + (cl - 1 - t)];
                proof {
                    assert(chunk[cl - t - 1] == self.bits@[lo + (cl - 1 - t)]);
                    lemma_bits_value_skip(chunk, cl - t - 1);
                    assert(pow2((t + 1) as nat) == 2 * pow2(t as nat)) by {
                        vstd::arithmetic::power2::lemma_pow2_unfold((t + 1) as nat);
                    }
                    assert(pow2((t + 1) as nat) <= pow2(8)) by {
                        if ((t + 1) as nat) < 8 {
                            lemma_pow2_strictly_increases((t + 1) as nat, 8);
                        }
                    }
                    assert(pow2(8) == 256) by {
                        lemma2_to64();
                    }
                }
                b = 2 * b + (if bitv {
                    1u8
                } else {
                    0u8
                });
                t = t + 1;
            }
            proof {
                assert(chunk.skip(0) =~= chunk);
            }
            out.push(b);
            proof {
                assert(out@.take(8) =~= header);
            }
            k = k + 1;
        }
        out
    }

    /// Create bloom filter from bytes, with `nhashes` hash functions.  The
    /// first eight bytes give the number of bins; bins whose packed byte is
    /// beyond the given bytes are cleared.
    pub fn from_bytes(bytes: &Vec<u8>, nhashes: usize) -> (r: BloomFilter)
        requires
            bytes@.len() >= 8,
            le_bytes_value(bytes@.take(8)) <= usize::MAX,
        ensures
            r.spec_nhashes() == nhashes,
            deserialized_bins(bytes@, r.spec_bins()),
    {
        proof {
            assert(bytes@.subrange(0, 8) =~= bytes@.take(8));
        }
        let size64 = le_u64_at(bytes, 0);
        let size = size64 as usize;
        let blen = bytes.len();
        let mut bits: Vec<bool> = Vec::new();
        let mut i: usize = 0;
        while i < size
            invariant
                blen == bytes@.len() >= 8,
                size as nat == le_bytes_value(bytes@.take(8)),
                0 <= i <= size,
                bits@.len() == i,
                forall|k: int|
                    0 <= k < i ==> #[trigger] bits@[k] == (8 + k / 8 < blen && byte_bit(
                        bytes@[8 + k / 8],
                        (k % 8) as nat,
                    )),
            decreases size - i,
        {
            proof {
                lemma_div_pos_is_pos(i as int, 8);
                lemma_div_is_ordered(i as int, usize::MAX as int, 8);
            }
            let bidx = 8 + i / 8;
            let bitv = if bidx < blen {
                extract_bit(bytes[bidx], i % 8)
            } else {
                false
            };
            bits.push(bitv);
            i = i + 1;
        }
        BloomFilter { bits, nhashes }
    }
}

/// Bit `j` of byte `b`, low bit first.
fn extract_bit(b: u8, j: usize) -> (r: bool)
    requires
        j < 8,
    ensures
        r == byte_bit(b, j as nat),
{
    let mut d: u8 = b;
    let mut t: usize = 0;
    proof {
        assert(pow2(0) == 1) by {
            lemma2_to64();
        }
        lemma_div_basics(b as int);
    }
    while t < j
        invariant
            j < 8,
            0 <= t <= j,
            d as nat == (b as nat) / pow2(t as nat),
        decreases j - t,
    {
        proof {
            lemma_pow2_pos(t as nat);
            assert((b as nat) / pow2(t as nat) / 2 == (b as nat) / (pow2(t as nat) * 2)) by {
                lemma_div_denominator(b as int, pow2(t as nat) as int, 2);
            }
            assert(pow2((t + 1) as nat) == 2 * pow2(t as nat)) by {
                vstd::arithmetic::power2::lemma_pow2_unfold((t + 1) as nat);
            }
        }
        d = d / 2;
        t = t + 1;
    }
    d % 2 == 1
}

impl PartialEq for BloomFilter {
    /// Two filters are equal when they have the same bins and the same
    /// number of hash functions.
    fn eq(&self, other: &BloomFilter) -> (r: bool) {
        if self.nhashes != other.nhashes {
            return false;
        }
        let n = self.bits.len();
        if n != other.bits.len() {
            proof {
                assert(self.bits@ !~= other.bits@);
            }
            return false;
        }
        let mut i: usize = 0;
        while i < n
            invariant
                n == self.bits@.len() == other.bits@.len(),
                0 <= i <= n,
                forall|k: int| 0 <= k < i ==> self.bits@[k] == other.bits@[k],
            decreases n - i,
        {
            if self.bits[i] != other.bits[i] {
                proof {
                    assert(self.bits@ !~= other.bits@);
                }
                return false;
            }
            i = i + 1;
        }
        proof {
            assert(self.bits@ =~= other.bits@);
        }
        true
    }
}

impl vstd::std_specs::cmp::PartialEqSpecImpl for BloomFilter {
    open spec fn obeys_eq_spec() -> bool {
        true
    }

    open spec fn eq_spec(&self, other: &BloomFilter) -> bool {
        self.spec_bins() == other.spec_bins() && self.spec_nhashes() == other.spec_nhashes()
    }
}

} // verus!
