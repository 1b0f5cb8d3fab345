//! The clear-text protocol role.
//!
//! [`ClearPsi`] runs the whole circuit-PSI pipeline — base-PSI exchange,
//! bundling, equality circuit, unmasking — on the clear gate semantics.  It
//! is the protocol's plaintext semantics: its contract states, input by
//! input, the existence bit and the payload value the protocol reveals, and
//! every gate implementation's revealed outputs must agree with it.
//!
//! The role object holds the sender's records and the OPPRF miss draws; the
//! `intersect` calls take the receiver's keys (and payloads).

use vstd::prelude::*;
use crate::{
    CircuitPsi,
    Intersection,
    PrivateIntersection,
    PrivateIntersectionPayloads,
    PrimaryKey,
    Payload,
    PRIMARY_KEY_SIZE,
    bundle_payloads,
    bundle_primary_keys,
};
use crate::base_psi::{
    OpprfMisses,
    exchange,
    chunk_bits,
    key_value,
    primary_key_value,
    opprf_tag,
    opprf_value,
    existence_bit,
};
use crate::bits::{u64_bits_n, bits_xor, lemma_u64_bits_injective, lemma_bits_xor_involution};
use crate::circuits::{BinaryBundle, wires_to_bundle, bin_eq_bundles};
use crate::errors::Error;
use crate::fancy::{Wire, ClearFancy};
use vstd::arithmetic::div_mod::{lemma_mod_multiples_basic, lemma_div_multiples_vanish};

verus! {

/// All keys have exactly `PRIMARY_KEY_SIZE` bytes.
pub open spec fn all_keys_sized(ks: Seq<PrimaryKey>) -> bool {
    forall|i: int| 0 <= i < ks.len() ==> (#[trigger] ks[i])@.len() == PRIMARY_KEY_SIZE
}

/// The 64-bit values of a key list.
pub open spec fn key_values(ks: Seq<PrimaryKey>) -> Seq<u64> {
    ks.map_values(|k: PrimaryKey| key_value(k@))
}

/// The clear-text role object: the sender's records, the sender's one-time
/// pads, and the pseudorandom miss draws standing in for the OPPRF's
/// outputs on unprogrammed points.
pub struct ClearPsi {
    /// The sender's primary keys.
    pub sender_keys: Vec<PrimaryKey>,
    /// The sender's payloads, one per sender key.
    pub sender_payloads: Vec<Payload>,
    /// The sender's one-time pads, one per sender key.
    pub sender_masks: Vec<u64>,
    /// The OPPRF miss draws, at least one per receiver key.
    pub misses: OpprfMisses,
}

/// Whether a run of the protocol succeeds: every length check passes.
pub open spec fn run_ok(
    s: ClearPsi,
    receiver_keys: Seq<PrimaryKey>,
    receiver_payloads: Option<Seq<Payload>>,
) -> bool {
    &&& all_keys_sized(receiver_keys)
    &&& all_keys_sized(s.sender_keys@)
    &&& s.sender_payloads@.len() == s.sender_keys@.len()
    &&& s.sender_masks@.len() == s.sender_keys@.len()
    &&& (match receiver_payloads {
        Some(p) => p.len() == receiver_keys.len(),
        None => true,
    })
    &&& s.misses.sender_tags@.len() >= receiver_keys.len()
    &&& s.misses.receiver_tags@.len() >= receiver_keys.len()
    &&& s.misses.masks@.len() >= receiver_keys.len()
    &&& s.misses.payloads@.len() >= receiver_keys.len()
}

/// The error a failing run reports, checks made in this order.
pub open spec fn run_error(
    s: ClearPsi,
    receiver_keys: Seq<PrimaryKey>,
    receiver_payloads: Option<Seq<Payload>>,
) -> Error {
    if !all_keys_sized(receiver_keys) || !all_keys_sized(s.sender_keys@) {
        Error::InvalidKeyLength
    } else if s.sender_payloads@.len() != s.sender_keys@.len() {
        Error::PayloadLengthMismatch
    } else if s.sender_masks@.len() != s.sender_keys@.len() {
        Error::MaskLengthMismatch
    } else if (match receiver_payloads {
        Some(p) => p.len() != receiver_keys.len(),
        None => false,
    }) {
        Error::PayloadLengthMismatch
    } else {
        Error::MissLengthMismatch
    }
}

/// Check that every key has exactly `PRIMARY_KEY_SIZE` bytes.
fn check_keys_sized(keys: &Vec<PrimaryKey>) -> (ok: bool)
    ensures
        ok == all_keys_sized(keys@),
{
    let n = keys.len();
    let mut i: usize = 0;
    while i < n
        invariant
            n == keys@.len(),
            0 <= i <= n,
            forall|k: int| 0 <= k < i ==> (#[trigger] keys@[k])@.len() == PRIMARY_KEY_SIZE,
        decreases n - i,
    {
        if keys[i].len() != PRIMARY_KEY_SIZE {
            return false;
        }
        i = i + 1;
    }
    true
}

/// Read a key list as its 64-bit values.
fn keys_to_values(keys: &Vec<PrimaryKey>) -> (r: Vec<u64>)
    requires
        all_keys_sized(keys@),
    ensures
        r@ =~= key_values(keys@),
{
    let n = keys.len();
    let mut r: Vec<u64> = Vec::new();
    let mut i: usize = 0;
    while i < n
        invariant
            all_keys_sized(keys@),
            n == keys@.len(),
            0 <= i <= n,
            r@.len() == i,
            forall|k: int| 0 <= k < i ==> r@[k] == key_value((#[trigger] keys@[k])@),
        decreases n - i,
    {
        let v = primary_key_value(&keys[i]);
        r.push(v);
        i = i + 1;
    }
    proof {
        assert(r@ =~= key_values(keys@));
    }
    r
}

/// A vector of `n` zero payloads, standing in when none were requested.
fn zero_payloads(n: usize) -> (r: Vec<u64>)
    ensures
        r@.len() == n,
{
    let mut r: Vec<u64> = Vec::new();
    let mut i: usize = 0;
    while i < n
        invariant
            0 <= i <= n,
            r@.len() == i,
        decreases n - i,
    {
        r.push(0);
        i = i + 1;
    }
    r
}

impl CircuitPsi for ClearPsi {
    /// Runs the whole pipeline on the receiver's keys and payloads.  On
    /// success, for every candidate key the existence bit is exactly the
    /// tag-agreement bit of the OPPRF model — always 1 for a key in the
    /// sender's set, and 1 for an absent key only if its two miss draws
    /// collide — and the unmasked sender payload bundle carries the
    /// sender's payload for the first matching sender key (the miss draw
    /// for an absent key).
    fn intersect_with_payloads(
        &mut self,
        primary_keys: &Vec<PrimaryKey>,
        payloads: Option<&Vec<Payload>>,
    ) -> (r: Result<Intersection, Error>)
        ensures
            *final(self) == *old(self),
            r is Ok <==> run_ok(
                *old(self),
                primary_keys@,
                match payloads {
                    Some(p) => Some(p@),
                    None => None,
                },
            ),
            r matches Err(e) ==> e == run_error(
                *old(self),
                primary_keys@,
                match payloads {
                    Some(p) => Some(p@),
                    None => None,
                },
            ),
            r matches Ok(out) ==> {
                let ks = key_values(old(self).sender_keys@);
                let n = primary_keys@.len();
                &&& out.intersection.existence_bit_vector@.len() == n
                &&& forall|i: int|
                    0 <= i < n ==> (#[trigger] out.intersection.existence_bit_vector@[i])@
                        == existence_bit(
                        ks,
                        key_value(primary_keys@[i]@),
                        old(self).misses.sender_tags@[i],
                        old(self).misses.receiver_tags@[i],
                    )
                &&& out.intersection.primary_keys@.len() == n
                &&& forall|i: int|
                    0 <= i < n ==> (#[trigger] out.intersection.primary_keys@[i])@ == u64_bits_n(
                        opprf_tag(
                            ks,
                            key_value(primary_keys@[i]@),
                            old(self).misses.sender_tags@[i],
                        ),
                        64,
                    )
                &&& (match payloads {
                    None => out.payloads.sender_payloads@.len() == 0
                        && out.payloads.receiver_payloads@.len() == 0,
                    Some(p) => {
                        &&& out.payloads.sender_payloads@.len() == n
                        &&& forall|i: int|
                            0 <= i < n ==> (#[trigger] out.payloads.sender_payloads@[i])@
                                == u64_bits_n(
                                opprf_value(
                                    ks,
                                    old(self).sender_payloads@,
                                    key_value(primary_keys@[i]@),
                                    old(self).misses.payloads@[i],
                                ),
                                64,
                            )
                        &&& out.payloads.receiver_payloads@.len() == n
                        &&& forall|i: int|
                            0 <= i < n ==> (#[trigger] out.payloads.receiver_payloads@[i])@
                                == u64_bits_n(p@[i], 64)
                    },
                })
            },
    {
        let n = primary_keys.len();
        if !check_keys_sized(primary_keys) || !check_keys_sized(&self.sender_keys) {
            return Err(Error::InvalidKeyLength);
        }
        if self.sender_payloads.len() != self.sender_keys.len() {
            return Err(Error::PayloadLengthMismatch);
        }
        if self.sender_masks.len() != self.sender_keys.len() {
            return Err(Error::MaskLengthMismatch);
        }
        match payloads {
            Some(p) => {
                if p.len() != n {
                    return Err(Error::PayloadLengthMismatch);
                }
            },
            None => {},
        }
        if self.misses.sender_tags.len() < n || self.misses.receiver_tags.len() < n
            || self.misses.masks.len() < n || self.misses.payloads.len() < n {
            return Err(Error::MissLengthMismatch);
        }
        let sender_key_vals = keys_to_values(&self.sender_keys);
        let receiver_key_vals = keys_to_values(primary_keys);
        let zeros_vec: Vec<u64>;
        let rp: &Vec<u64> = match payloads {
            Some(p) => p,
            None => {
                zeros_vec = zero_payloads(n);
                &zeros_vec
            },
        };
        let mut f = ClearFancy::new();
        let ci = exchange(
            &mut f,
            &sender_key_vals,
            &self.sender_payloads,
            &self.sender_masks,
            &receiver_key_vals,
            rp,
            &self.misses,
        );
        let ghost ks = key_values(self.sender_keys@);
        proof {
            assert(sender_key_vals@ == ks);
            assert((64 * n as int) % 64 == 0) by {
                lemma_mod_multiples_basic(n as int, 64);
            }
            assert((64 * n as int) / 64 == n as int) by {
                lemma_div_multiples_vanish(n as int, 64);
            }
        }
        let sender_bundles = bundle_primary_keys(&ci);
        let receiver_bundles = wires_to_bundle(&ci.receiver_primary_keys, 8 * PRIMARY_KEY_SIZE);
        proof {
            assert forall|i: int| 0 <= i < n implies (#[trigger] sender_bundles@[i])@
                == u64_bits_n(
                opprf_tag(ks, receiver_key_vals@[i], self.misses.sender_tags@[i]),
                64,
            ) by {
                assert(sender_bundles@[i]@ == chunk_bits(ci.sender_primary_keys@, i));
                assert(chunk_bits(ci.sender_primary_keys@, i) =~= u64_bits_n(
                    opprf_tag(ks, receiver_key_vals@[i], self.misses.sender_tags@[i]),
                    64,
                ));
            }
            assert forall|i: int| 0 <= i < n implies (#[trigger] receiver_bundles@[i])@
                == u64_bits_n(
                opprf_tag(ks, receiver_key_vals@[i], self.misses.receiver_tags@[i]),
                64,
            ) by {
                assert(receiver_bundles@[i]@ == chunk_bits(ci.receiver_primary_keys@, i));
                assert(chunk_bits(ci.receiver_primary_keys@, i) =~= u64_bits_n(
                    opprf_tag(ks, receiver_key_vals@[i], self.misses.receiver_tags@[i]),
                    64,
                ));
            }
        }
        let mut ebits: Vec<Wire> = Vec::new();
        let mut i: usize = 0;
        while i < n
            invariant
                n == primary_keys@.len(),
                n == receiver_key_vals@.len(),
                ks == key_values(self.sender_keys@),
                self.misses.sender_tags@.len() >= n,
                self.misses.receiver_tags@.len() >= n,
                sender_bundles@.len() == n,
                receiver_bundles@.len() == n,
                forall|k: int|
                    0 <= k < n ==> (#[trigger] sender_bundles@[k])@ == u64_bits_n(
                        opprf_tag(ks, receiver_key_vals@[k], self.misses.sender_tags@[k]),
                        64,
                    ),
                forall|k: int|
                    0 <= k < n ==> (#[trigger] receiver_bundles@[k])@ == u64_bits_n(
                        opprf_tag(ks, receiver_key_vals@[k], self.misses.receiver_tags@[k]),
                        64,
                    ),
                0 <= i <= n,
                ebits@.len() == i,
                forall|k: int|
                    0 <= k < i ==> (#[trigger] ebits@[k])@ == existence_bit(
                        ks,
                        receiver_key_vals@[k],
                        self.misses.sender_tags@[k],
                        self.misses.receiver_tags@[k],
                    ),
            decreases n - i,
        {
            let w = bin_eq_bundles(&mut f, &sender_bundles[i], &receiver_bundles[i]);
            proof {
                let ts = opprf_tag(ks, receiver_key_vals@[i as int], self.misses.sender_tags@[i as int]);
                let tr = opprf_tag(
                    ks,
                    receiver_key_vals@[i as int],
                    self.misses.receiver_tags@[i as int],
                );
                if sender_bundles@[i as int]@ == receiver_bundles@[i as int]@ {
                    lemma_u64_bits_injective(ts, tr);
                }
                assert(w@ == existence_bit(
                    ks,
                    receiver_key_vals@[i as int],
                    self.misses.sender_tags@[i as int],
                    self.misses.receiver_tags@[i as int],
                ));
            }
            ebits.push(w);
            i = i + 1;
        }
        let payloads_out: PrivateIntersectionPayloads = match payloads {
            Some(_) => {
                let (sp, rpb) = bundle_payloads(&mut f, &ci);
                proof {
                    assert forall|k: int| 0 <= k < n implies (#[trigger] sp@[k])@ == u64_bits_n(
                        opprf_value(
                            ks,
                            self.sender_payloads@,
                            receiver_key_vals@[k],
                            self.misses.payloads@[k],
                        ),
                        64,
                    ) by {
                        let pv = u64_bits_n(
                            opprf_value(
                                ks,
                                self.sender_payloads@,
                                receiver_key_vals@[k],
                                self.misses.payloads@[k],
                            ),
                            64,
                        );
                        let mv = u64_bits_n(
                            opprf_value(
                                ks,
                                self.sender_masks@,
                                receiver_key_vals@[k],
                                self.misses.masks@[k],
                            ),
                            64,
                        );
                        assert(chunk_bits(ci.sender_payloads_masked@, k) =~= bits_xor(pv, mv));
                        assert(chunk_bits(ci.masks@, k) =~= mv);
                        assert(sp@[k]@ =~= bits_xor(chunk_bits(ci.sender_payloads_masked@, k), chunk_bits(ci.masks@, k)));
                        lemma_bits_xor_involution(pv, mv);
                        assert(bits_xor(bits_xor(pv, mv), mv) =~= pv);
                        assert(sp@[k]@ =~= pv);
                    }
                    assert forall|k: int| 0 <= k < n implies (#[trigger] rpb@[k])@ == u64_bits_n(
                        rp@[k],
                        64,
                    ) by {
                        assert(rpb@[k]@ == chunk_bits(ci.receiver_payloads@, k));
                        assert(chunk_bits(ci.receiver_payloads@, k) =~= u64_bits_n(rp@[k], 64));
                    }
                }
                PrivateIntersectionPayloads { sender_payloads: sp, receiver_payloads: rpb }
            },
            None => PrivateIntersectionPayloads {
                sender_payloads: Vec::new(),
                receiver_payloads: Vec::new(),
            },
        };
        proof {
            assert forall|i2: int| 0 <= i2 < n implies key_value(
                (#[trigger] primary_keys@[i2])@,
            ) == receiver_key_vals@[i2] by {
            }
        }
        Ok(
            Intersection {
                intersection: PrivateIntersection {
                    existence_bit_vector: ebits,
                    primary_keys: sender_bundles,
                },
                payloads: payloads_out,
            },
        )
    }

    /// Computes the circuit PSI on the parties' inputs with no payloads:
    /// the same contract as `intersect_with_payloads` with none requested,
    /// so the payload bundles come back empty.
    fn intersect(&mut self, primary_keys: &Vec<PrimaryKey>) -> (r: Result<Intersection, Error>)
        ensures
            *final(self) == *old(self),
            r is Ok <==> run_ok(*old(self), primary_keys@, None),
            r matches Err(e) ==> e == run_error(*old(self), primary_keys@, None),
            r matches Ok(out) ==> {
                let ks = key_values(old(self).sender_keys@);
                let n = primary_keys@.len();
                &&& out.intersection.existence_bit_vector@.len() == n
                &&& forall|i: int|
                    0 <= i < n ==> (#[trigger] out.intersection.existence_bit_vector@[i])@
                        == existence_bit(
                        ks,
                        key_value(primary_keys@[i]@),
                        old(self).misses.sender_tags@[i],
                        old(self).misses.receiver_tags@[i],
                    )
                &&& out.payloads.sender_payloads@.len() == 0
                &&& out.payloads.receiver_payloads@.len() == 0
            },
    {
        self.intersect_with_payloads(primary_keys, None)
    }
}

/// Membership of a key's value among the sender key values is membership
/// of the key itself: full-length keys with equal values are equal keys,
/// so the existence bit speaks of the byte keys, not just their values.
pub proof fn lemma_key_membership(ks: Seq<PrimaryKey>, k: Seq<u8>)
    requires
        all_keys_sized(ks),
        k.len() == PRIMARY_KEY_SIZE,
    ensures
        key_values(ks).contains(key_value(k)) <==> (exists|j: int|
            0 <= j < ks.len() && (#[trigger] ks[j])@ == k),
{
    if key_values(ks).contains(key_value(k)) {
        let j = choose|j: int|
            0 <= j < key_values(ks).len() && key_values(ks)[j] == key_value(k);
        crate::base_psi::lemma_key_value_injective(ks[j]@, k);
        assert(ks[j]@ == k);
    }
    if exists|j: int| 0 <= j < ks.len() && (#[trigger] ks[j])@ == k {
        let j = choose|j: int| 0 <= j < ks.len() && (#[trigger] ks[j])@ == k;
        assert(key_values(ks)[j] == key_value(k));
    }
}

/// No false negatives: a key present in both sets always gets existence
/// bit 1, whatever the miss draws are.
pub proof fn lemma_no_false_negatives(
    sender_keys: Seq<u64>,
    k: u64,
    sender_miss: u64,
    receiver_miss: u64,
)
    requires
        sender_keys.contains(k),
    ensures
        existence_bit(sender_keys, k, sender_miss, receiver_miss),
{
}

/// The existence bit is the exact membership indicator whenever the two
/// miss draws differ; a false positive needs a miss-draw collision.
pub proof fn lemma_existence_bit_indicator(
    sender_keys: Seq<u64>,
    k: u64,
    sender_miss: u64,
    receiver_miss: u64,
)
    requires
        sender_miss != receiver_miss,
    ensures
        existence_bit(sender_keys, k, sender_miss, receiver_miss) == sender_keys.contains(k),
{
}

/// Disjoint key sets give an all-zero existence bit vector, provided no
/// miss-draw pair collides.
pub proof fn lemma_empty_intersection(
    sender_keys: Seq<u64>,
    receiver_keys: Seq<u64>,
    sender_miss_tags: Seq<u64>,
    receiver_miss_tags: Seq<u64>,
)
    requires
        forall|i: int|
            0 <= i < receiver_keys.len() ==> !sender_keys.contains(#[trigger] receiver_keys[i]),
        sender_miss_tags.len() >= receiver_keys.len(),
        receiver_miss_tags.len() >= receiver_keys.len(),
        forall|i: int|
            0 <= i < receiver_keys.len() ==> #[trigger] sender_miss_tags[i]
                != receiver_miss_tags[i],
    ensures
        forall|i: int|
            0 <= i < receiver_keys.len() ==> !existence_bit(
                sender_keys,
                #[trigger] receiver_keys[i],
                sender_miss_tags[i],
                receiver_miss_tags[i],
            ),
{
}

/// Mask agreement: for a key in the sender's set the receiver obtains the
/// sender's own one-time pad for that key (the one the masked payload was
/// padded with), so unmasking recovers the payload; for an absent key it
/// obtains only the miss draw.
pub proof fn lemma_mask_agreement(
    sender_keys: Seq<u64>,
    sender_masks: Seq<u64>,
    k: u64,
    miss: u64,
)
    requires
        sender_masks.len() == sender_keys.len(),
    ensures
        sender_keys.contains(k) ==> exists|j: int|
            0 <= j < sender_keys.len() && sender_keys[j] == k && opprf_value(
                sender_keys,
                sender_masks,
                k,
                miss,
            ) == sender_masks[j],
        !sender_keys.contains(k) ==> opprf_value(sender_keys, sender_masks, k, miss) == miss,
{
    sender_keys.index_of_first_ensures(k);
}

} // verus!
