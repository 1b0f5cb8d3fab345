//! The base-PSI exchange, modelled as its ideal functionality.
//!
//! The real exchange runs an oblivious programmable PRF (OPPRF) over the
//! network: the sender programs a PRF with one entry per (key, value) pair
//! and the receiver evaluates it obliviously on its own keys, obtaining the
//! programmed value exactly when its key was programmed and a pseudorandom
//! value otherwise.  Here that behaviour is captured exactly: the
//! pseudorandom values the PRF yields on unprogrammed points are drawn by
//! the caller's randomness source and passed in as [`OpprfMisses`], and the
//! exchange is verified to deliver, per candidate key, the programmed
//! values on a hit and the given miss values otherwise.

use vstd::prelude::*;
use crate::bits::{u64_bits_n, bits_xor};
use crate::bytes::{le_bytes_value, le_u64_at, lemma_le_bytes_value_bound, lemma_le_bytes_value_injective};
use crate::fancy::{Wire, wire_bits, ClearFancy, FancyBinary};
use crate::CircuitInputs;
use vstd::arithmetic::power2::{pow2, lemma2_to64_rest};

verus! {

/// The 64-bit value of a primary key's little-endian bytes.
pub open spec fn key_value(k: Seq<u8>) -> u64 {
    le_bytes_value(k) as u64
}

/// Full-length keys with the same value are the same key.
pub proof fn lemma_key_value_injective(a: Seq<u8>, b: Seq<u8>)
    requires
        a.len() == 8,
        b.len() == 8,
        key_value(a) == key_value(b),
    ensures
        a =~= b,
{
    lemma_le_bytes_value_bound(a);
    lemma_le_bytes_value_bound(b);
    assert(pow2(64) == 0x10000000000000000) by {
        lemma2_to64_rest();
    }
    lemma_le_bytes_value_injective(a, b);
}

/// Read a primary key as its 64-bit value.
pub fn primary_key_value(k: &Vec<u8>) -> (r: u64)
    requires
        k@.len() == 8,
    ensures
        r == key_value(k@),
{
    proof {
        assert(k@.subrange(0, 8) =~= k@);
        lemma_le_bytes_value_bound(k@);
        assert(pow2(64) == 0x10000000000000000) by {
            lemma2_to64_rest();
        }
    }
    le_u64_at(k, 0)
}

/// The tag a party holds for candidate key `k` after the OPPRF exchange:
/// the PRF output on a programmed key, the party's miss value otherwise.
/// Both parties hold the same tag exactly when `k` is in the sender's set
/// (or their miss values collide).
pub open spec fn opprf_tag(sender_keys: Seq<u64>, k: u64, miss: u64) -> u64 {
    if sender_keys.contains(k) {
        k
    } else {
        miss
    }
}

/// The value the receiver obtains for candidate key `k` from a PRF
/// programmed with `vals[j]` at `sender_keys[j]`: the first programmed
/// value on a hit, the miss value otherwise.
pub open spec fn opprf_value(sender_keys: Seq<u64>, vals: Seq<u64>, k: u64, miss: u64) -> u64 {
    match sender_keys.index_of_first(k) {
        Some(j) => vals[j],
        None => miss,
    }
}

/// The existence bit the circuit computes for candidate key `k`: whether
/// the sender-side and receiver-side tags agree.  A key in the sender's set
/// always gives 1; an absent key gives 1 only if the two miss values
/// collide.
pub open spec fn existence_bit(
    sender_keys: Seq<u64>,
    k: u64,
    sender_miss: u64,
    receiver_miss: u64,
) -> bool {
    opprf_tag(sender_keys, k, sender_miss) == opprf_tag(sender_keys, k, receiver_miss)
}

/// The pseudorandom values the OPPRF yields on unprogrammed points, one per
/// candidate key index: what each party's tag, the delivered mask and the
/// delivered masked payload fall back to when the key is not in the
/// sender's set.  Drawn from the caller's randomness source before the run.
pub struct OpprfMisses {
    /// The sender-side tag for an unmatched candidate key.
    pub sender_tags: Vec<u64>,
    /// The receiver-side tag for an unmatched candidate key.
    pub receiver_tags: Vec<u64>,
    /// The mask delivered for an unmatched candidate key.
    pub masks: Vec<u64>,
    /// The payload value hidden in the masked payload of an unmatched
    /// candidate key.
    pub payloads: Vec<u64>,
}

/// The bit views of the `i`-th 64-wire group of a flat wire list.
pub open spec fn chunk_bits(s: Seq<Wire>, i: int) -> Seq<bool> {
    wire_bits(s.subrange(64 * i, 64 * i + 64))
}

/// Find the first index holding `k`, scanning from the front.
pub fn find_index(keys: &Vec<u64>, k: u64) -> (r: Option<usize>)
    ensures
        match r {
            Some(j) => keys@.index_of_first(k) == Some(j as int),
            None => keys@.index_of_first(k) is None,
        },
{
    let n = keys.len();
    let mut j: usize = 0;
    while j < n
        invariant
            n == keys@.len(),
            0 <= j <= n,
            forall|l: int| 0 <= l < j ==> keys@[l] != k,
        decreases n - j,
    {
        if keys[j] == k {
            proof {
                assert(keys@.contains(k));
                keys@.index_of_first_ensures(k);
            }
            return Some(j);
        }
        j = j + 1;
    }
    proof {
        assert(!keys@.contains(k));
        keys@.index_of_first_ensures(k);
    }
    None
}

/// Append a copy of `src`'s wires to `dst`.
fn append_wires(dst: &mut Vec<Wire>, src: &Vec<Wire>)
    ensures
        final(dst)@ == old(dst)@ + src@,
{
    let n = src.len();
    let mut i: usize = 0;
    proof {
        assert(dst@ =~= dst@ + src@.take(0));
    }
    while i < n
        invariant
            n == src@.len(),
            0 <= i <= n,
            dst@ =~= old(dst)@ + src@.take(i as int),
        decreases n - i,
    {
        dst.push(src[i]);
        proof {
            assert(old(dst)@ + src@.take(i + 1) =~= (old(dst)@ + src@.take(i as int)).push(
                src@[i as int],
            ));
        }
        i = i + 1;
    }
    proof {
        assert(src@.take(n as int) =~= src@);
    }
}

/// Exclusive-or two equal-length wire lists, wire by wire.
fn xor_wires<F: FancyBinary>(f: &mut F, x: &Vec<Wire>, y: &Vec<Wire>) -> (r: Vec<Wire>)
    requires
        x@.len() == y@.len(),
    ensures
        r@.len() == x@.len(),
        wire_bits(r@) =~= bits_xor(wire_bits(x@), wire_bits(y@)),
{
    let n = x.len();
    let mut out: Vec<Wire> = Vec::new();
    let mut i: usize = 0;
    while i < n
        invariant
            n == x@.len() == y@.len(),
            0 <= i <= n,
            out@.len() == i,
            forall|j: int| 0 <= j < i ==> wire_bits(out@)[j] == (x@[j]@ != y@[j]@),
        decreases n - i,
    {
        let w = f.xor(&x[i], &y[i]);
        proof {
            assert(wire_bits(out@.push(w)) =~= wire_bits(out@).push(w@));
        }
        out.push(w);
        i = i + 1;
    }
    proof {
        assert(wire_bits(out@) =~= bits_xor(wire_bits(x@), wire_bits(y@)));
    }
    out
}

/// Chunks are stable under appending one more 64-wire group.
proof fn lemma_chunks_after_append(s: Seq<Wire>, t: Seq<Wire>, n: int)
    requires
        n >= 0,
        s.len() == 64 * n,
        t.len() == 64,
    ensures
        forall|k: int| 0 <= k < n ==> #[trigger] chunk_bits(s + t, k) =~= chunk_bits(s, k),
        chunk_bits(s + t, n) =~= wire_bits(t),
{
    assert forall|k: int| 0 <= k < n implies #[trigger] chunk_bits(s + t, k) =~= chunk_bits(
        s,
        k,
    ) by {
        assert((s + t).subrange(64 * k, 64 * k + 64) =~= s.subrange(64 * k, 64 * k + 64));
    }
    assert((s + t).subrange(64 * n, 64 * n + 64) =~= t);
}

/// Run the base-PSI exchange on plain values: for each receiver key, both
/// parties' tag wires, the delivered mask wires and the masked payload
/// wires, aligned by candidate index and ready for bundling.
///
/// The contract is the OPPRF's ideal behaviour: a key in the sender's set
/// yields equal tags on both sides, the sender's mask and the sender's
/// payload (masked by exclusive-or); an absent key yields the caller-drawn
/// miss values.
pub fn exchange(
    f: &mut ClearFancy,
    sender_keys: &Vec<u64>,
    sender_payloads: &Vec<u64>,
    sender_masks: &Vec<u64>,
    receiver_keys: &Vec<u64>,
    receiver_payloads: &Vec<u64>,
    misses: &OpprfMisses,
) -> (ci: CircuitInputs)
    requires
        sender_payloads@.len() == sender_keys@.len(),
        sender_masks@.len() == sender_keys@.len(),
        receiver_payloads@.len() == receiver_keys@.len(),
        misses.sender_tags@.len() >= receiver_keys@.len(),
        misses.receiver_tags@.len() >= receiver_keys@.len(),
        misses.masks@.len() >= receiver_keys@.len(),
        misses.payloads@.len() >= receiver_keys@.len(),
    ensures
        ci.sender_primary_keys@.len() == 64 * receiver_keys@.len(),
        ci.receiver_primary_keys@.len() == 64 * receiver_keys@.len(),
        ci.sender_payloads_masked@.len() == 64 * receiver_keys@.len(),
        ci.receiver_payloads@.len() == 64 * receiver_keys@.len(),
        ci.masks@.len() == 64 * receiver_keys@.len(),
        forall|i: int|
            0 <= i < receiver_keys@.len() ==> #[trigger] chunk_bits(ci.sender_primary_keys@, i)
                =~= u64_bits_n(
                opprf_tag(sender_keys@, receiver_keys@[i], misses.sender_tags@[i]),
                64,
            ),
        forall|i: int|
            0 <= i < receiver_keys@.len() ==> #[trigger] chunk_bits(ci.receiver_primary_keys@, i)
                =~= u64_bits_n(
                opprf_tag(sender_keys@, receiver_keys@[i], misses.receiver_tags@[i]),
                64,
            ),
        forall|i: int|
            0 <= i < receiver_keys@.len() ==> #[trigger] chunk_bits(ci.masks@, i) =~= u64_bits_n(
                opprf_value(sender_keys@, sender_masks@, receiver_keys@[i], misses.masks@[i]),
                64,
            ),
        forall|i: int|
            0 <= i < receiver_keys@.len() ==> #[trigger] chunk_bits(ci.sender_payloads_masked@, i)
                =~= bits_xor(
                u64_bits_n(
                    opprf_value(
                        sender_keys@,
                        sender_payloads@,
                        receiver_keys@[i],
                        misses.payloads@[i],
                    ),
                    64,
                ),
                u64_bits_n(
                    opprf_value(sender_keys@, sender_masks@, receiver_keys@[i], misses.masks@[i]),
                    64,
                ),
            ),
        forall|i: int|
            0 <= i < receiver_keys@.len() ==> #[trigger] chunk_bits(ci.receiver_payloads@, i)
                =~= u64_bits_n(receiver_payloads@[i], 64),
{
    let n = receiver_keys.len();
    let mut sk: Vec<Wire> = Vec::new();
    let mut rk: Vec<Wire> = Vec::new();
    let mut spm: Vec<Wire> = Vec::new();
    let mut rp: Vec<Wire> = Vec::new();
    let mut mk: Vec<Wire> = Vec::new();
    let mut i: usize = 0;
    while i < n
        invariant
            n == receiver_keys@.len(),
            sender_payloads@.len() == sender_keys@.len(),
            sender_masks@.len() == sender_keys@.len(),
            receiver_payloads@.len() == n,
            misses.sender_tags@.len() >= n,
            misses.receiver_tags@.len() >= n,
            misses.masks@.len() >= n,
            misses.payloads@.len() >= n,
            0 <= i <= n,
            sk@.len() == 64 * i,
            rk@.len() == 64 * i,
            spm@.len() == 64 * i,
            rp@.len() == 64 * i,
            mk@.len() == 64 * i,
            forall|k: int|
                0 <= k < i ==> #[trigger] chunk_bits(sk@, k) =~= u64_bits_n(
                    opprf_tag(sender_keys@, receiver_keys@[k], misses.sender_tags@[k]),
                    64,
                ),
            forall|k: int|
                0 <= k < i ==> #[trigger] chunk_bits(rk@, k) =~= u64_bits_n(
                    opprf_tag(sender_keys@, receiver_keys@[k], misses.receiver_tags@[k]),
                    64,
                ),
            forall|k: int|
                0 <= k < i ==> #[trigger] chunk_bits(mk@, k) =~= u64_bits_n(
                    opprf_value(sender_keys@, sender_masks@, receiver_keys@[k], misses.masks@[k]),
                    64,
                ),
            forall|k: int|
                0 <= k < i ==> #[trigger] chunk_bits(spm@, k) =~= bits_xor(
                    u64_bits_n(
                        opprf_value(
                            sender_keys@,
                            sender_payloads@,
                            receiver_keys@[k],
                            misses.payloads@[k],
                        ),
                        64,
                    ),
                    u64_bits_n(
                        opprf_value(
                            sender_keys@,
                            sender_masks@,
                            receiver_keys@[k],
                            misses.masks@[k],
                        ),
                        64,
                    ),
                ),
            forall|k: int|
                0 <= k < i ==> #[trigger] chunk_bits(rp@, k) =~= u64_bits_n(
                    receiver_payloads@[k],
                    64,
                ),
        decreases n - i,
    {
        let key = receiver_keys[i];
        let found = find_index(sender_keys, key);
        let ghost ks = sender_keys@;
        proof {
            ks.index_of_first_ensures(key);
        }
        let tag_s: u64;
        let tag_r: u64;
        let mask_v: u64;
        let pay_v: u64;
        match found {
            Some(j) => {
                tag_s = key;
                tag_r = key;
                mask_v = sender_masks[j];
                pay_v = sender_payloads[j];
            },
            None => {
                tag_s = misses.sender_tags[i];
                tag_r = misses.receiver_tags[i];
                mask_v = misses.masks[i];
                pay_v = misses.payloads[i];
            },
        }
        proof {
            assert(tag_s == opprf_tag(ks, key, misses.sender_tags@[i as int]));
            assert(tag_r == opprf_tag(ks, key, misses.receiver_tags@[i as int]));
            assert(mask_v == opprf_value(ks, sender_masks@, key, misses.masks@[i as int]));
            assert(pay_v == opprf_value(ks, sender_payloads@, key, misses.payloads@[i as int]));
        }
        let tsw = f.encode(tag_s, 64);
        let trw = f.encode(tag_r, 64);
        let mw = f.encode(mask_v, 64);
        let pw = f.encode(pay_v, 64);
        let mpw = xor_wires(f, &pw, &mw);
        let rpw = f.encode(receiver_payloads[i], 64);
        proof {
            lemma_chunks_after_append(sk@, tsw@, i as int);
            lemma_chunks_after_append(rk@, trw@, i as int);
            lemma_chunks_after_append(mk@, mw@, i as int);
            lemma_chunks_after_append(spm@, mpw@, i as int);
            lemma_chunks_after_append(rp@, rpw@, i as int);
        }
        append_wires(&mut sk, &tsw);
        append_wires(&mut rk, &trw);
        append_wires(&mut mk, &mw);
        append_wires(&mut spm, &mpw);
        append_wires(&mut rp, &rpw);
        i = i + 1;
    }
    CircuitInputs {
        sender_primary_keys: sk,
        receiver_primary_keys: rk,
        sender_payloads_masked: spm,
        receiver_payloads: rp,
        masks: mk,
    }
}

} // verus!
