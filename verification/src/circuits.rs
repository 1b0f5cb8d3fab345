//! Circuit composition: pure functions over wire bundles.
//!
//! Everything here is generic over the [`FancyBinary`] gate trait and
//! therefore runs identically under every gate implementation.  The
//! contracts state the plaintext semantics of each composed circuit: bundle
//! equality, bit-conditional multiplexing, carry-less binary addition,
//! unmasking by exclusive-or, and the linear oblivious-RAM lookup built from
//! them.

use vstd::prelude::*;
use crate::bits::{
    u64_bits_n,
    bits_value,
    bits_xor,
    u64_to_bits,
    lemma_bits_value_push,
    lemma_bits_value_take_succ,
    lemma_bits_value_bound,
    lemma_bits_value_injective,
    lemma_bits_xor_involution,
    lemma_u64_bits_n_value,
};
use crate::fancy::{Wire, wire_bits, FancyBinary};
use vstd::arithmetic::power2::*;
use vstd::arithmetic::div_mod::*;

verus! {

/// An ordered group of wires read as a fixed-width unsigned binary value,
/// bit 0 least significant.  The width is fixed at construction and public.
#[derive(Debug)]
pub struct BinaryBundle {
    wires: Vec<Wire>,
}

impl View for BinaryBundle {
    type V = Seq<bool>;

    closed spec fn view(&self) -> Seq<bool> {
        wire_bits(self.wires@)
    }
}

impl BinaryBundle {
    /// Group a vector of wires into one bundle.
    pub fn new(wires: Vec<Wire>) -> (b: BinaryBundle)
        ensures
            b@ == wire_bits(wires@),
    {
        BinaryBundle { wires }
    }

    /// The bundle's width in bits.
    pub fn size(&self) -> (n: usize)
        ensures
            n == self@.len(),
    {
        self.wires.len()
    }

    /// The wire at bit position `i`.
    pub fn wire(&self, i: usize) -> (w: Wire)
        requires
            i < self@.len(),
        ensures
            w@ == self@[i as int],
    {
        self.wires[i]
    }

    /// The bundle's wires, least significant first.
    pub fn wires(&self) -> (w: &Vec<Wire>)
        ensures
            wire_bits(w@) == self@,
    {
        &self.wires
    }
}

/// Group a flat wire list into bundles of `size` wires each, in order.
pub fn wires_to_bundle(x: &Vec<Wire>, size: usize) -> (r: Vec<BinaryBundle>)
    requires
        size > 0,
        (x@.len() as int) % (size as int) == 0,
    ensures
        r@.len() == (x@.len() as int) / (size as int),
        forall|i: int|
            0 <= i < r@.len() ==> r@[i]@ =~= wire_bits(
                x@.subrange(size * i, size * (i + 1)),
            ),
{
    let n = x.len();
    let mut r: Vec<BinaryBundle> = Vec::new();
    let mut i: usize = 0;
    proof {
        lemma_div_nonincreasing(n as int, size as int);
        lemma_div_pos_is_pos(n as int, size as int);
        lemma_fundamental_div_mod(n as int, size as int);
    }
    while i < n / size
        invariant
            size > 0,
            n == x@.len(),
            (x@.len() as int) % (size as int) == 0,
            0 <= i as int <= (n as int) / (size as int),
            ((n as int) / (size as int)) * (size as int) == n as int,
            r@.len() == i,
            forall|k: int|
                0 <= k < i ==> r@[k]@ =~= wire_bits(x@.subrange(size * k, size * (k + 1))),
        decreases n / size - i,
    {
        proof {
            assert((i as int + 1) * (size as int) <= ((n as int) / (size as int)) * (size as int)) by (nonlinear_arith)
                requires
                    i as int + 1 <= (n as int) / (size as int),
                    size > 0,
            ;
            assert((i as int) * (size as int) >= 0) by (nonlinear_arith)
                requires
                    i >= 0,
                    size > 0,
            ;
            assert((i as int + 1) * (size as int) == (i as int) * (size as int) + (size as int))
                by (nonlinear_arith);
        }
        let mut chunk: Vec<Wire> = Vec::new();
        let mut j: usize = 0;
        while j < size
            invariant
                size > 0,
                n == x@.len(),
                0 <= j <= size,
                0 <= size * i,
                size * i + size <= n,
                chunk@.len() == j,
                chunk@ =~= x@.subrange(size * i, size * i + j),
            decreases size - j,
        {
            chunk.push(x[i * size + j]);
            j = j + 1;
            proof {
                assert(chunk@ =~= x@.subrange(size * i, size * i + j));
            }
        }
        proof {
            assert(size * (i + 1) == size * i + size) by (nonlinear_arith);
            assert(chunk@ =~= x@.subrange(size * i, size * (i + 1)));
        }
        r.push(BinaryBundle::new(chunk));
        i = i + 1;
    }
    proof {
    }
    r
}

/// A bundle of public constant wires carrying the low `width` bits of `val`.
pub fn bin_constant_bundle<F: FancyBinary>(f: &mut F, val: u64, width: usize) -> (r: BinaryBundle)
    ensures
        r@ =~= u64_bits_n(val, width as nat),
{
    let bits = u64_to_bits(val, width);
    let mut wires: Vec<Wire> = Vec::new();
    let mut j: usize = 0;
    while j < width
        invariant
            bits@ =~= u64_bits_n(val, width as nat),
            bits@.len() == width,
            0 <= j <= width,
            wires@.len() == j,
            forall|l: int| 0 <= l < j ==> wire_bits(wires@)[l] == bits@[l],
        decreases width - j,
    {
        let w = f.constant(bits[j]);
        proof {
            assert(wire_bits(wires@.push(w)) =~= wire_bits(wires@).push(w@));
        }
        wires.push(w);
        j = j + 1;
    }
    proof {
        assert(wire_bits(wires@) =~= u64_bits_n(val, width as nat));
    }
    BinaryBundle::new(wires)
}

/// One wire that is 1 iff the two bundles are bitwise equal.  No partial
/// comparison result is ever revealed: the reduction stays on wires.
pub fn bin_eq_bundles<F: FancyBinary>(f: &mut F, a: &BinaryBundle, b: &BinaryBundle) -> (r: Wire)
    requires
        a@.len() == b@.len(),
    ensures
        r@ <==> a@ == b@,
{
    let n = a.size();
    let mut acc = f.constant(true);
    let mut i: usize = 0;
    while i < n
        invariant
            n == a@.len() == b@.len(),
            0 <= i <= n,
            acc@ <==> (forall|j: int| 0 <= j < i ==> a@[j] == b@[j]),
        decreases n - i,
    {
        let ai = a.wire(i);
        let bi = b.wire(i);
        let d = f.xor(&ai, &bi);
        let e = f.negate(&d);
        acc = f.and(&acc, &e);
        i = i + 1;
    }
    proof {
        if acc@ {
            assert(a@ =~= b@);
        }
    }
    acc
}

/// Element-wise selection between two equal-width bundles by one control
/// wire: the result is `if_false` when the selector is 0 and `if_true` when
/// it is 1, computed obliviously and in constant time.
pub fn bin_multiplex<F: FancyBinary>(
    f: &mut F,
    sel: &Wire,
    if_false: &BinaryBundle,
    if_true: &BinaryBundle,
) -> (r: BinaryBundle)
    requires
        if_false@.len() == if_true@.len(),
    ensures
        r@ =~= (if sel@ {
            if_true@
        } else {
            if_false@
        }),
{
    let n = if_false.size();
    let mut wires: Vec<Wire> = Vec::new();
    let mut i: usize = 0;
    while i < n
        invariant
            n == if_false@.len() == if_true@.len(),
            0 <= i <= n,
            wires@.len() == i,
            forall|j: int|
                0 <= j < i ==> wire_bits(wires@)[j] == (if sel@ {
                    if_true@[j]
                } else {
                    if_false@[j]
                }),
        decreases n - i,
    {
        let ai = if_false.wire(i);
        let bi = if_true.wire(i);
        let d = f.xor(&ai, &bi);
        let t = f.and(sel, &d);
        let o = f.xor(&ai, &t);
        proof {
            assert(wire_bits(wires@.push(o)) =~= wire_bits(wires@).push(o@));
        }
        wires.push(o);
        i = i + 1;
    }
    proof {
        if sel@ {
            assert(wire_bits(wires@) =~= if_true@);
        } else {
            assert(wire_bits(wires@) =~= if_false@);
        }
    }
    BinaryBundle::new(wires)
}

/// Carry-less binary addition: the bundle of `(a + b) mod 2^width`, the carry
/// out of the top bit discarded.
pub fn bin_addition_no_carry<F: FancyBinary>(
    f: &mut F,
    a: &BinaryBundle,
    b: &BinaryBundle,
) -> (r: BinaryBundle)
    requires
        a@.len() == b@.len(),
    ensures
        r@.len() == a@.len(),
        bits_value(r@) == (bits_value(a@) + bits_value(b@)) % pow2(a@.len()),
{
    let n = a.size();
    let mut wires: Vec<Wire> = Vec::new();
    let mut carry = f.constant(false);
    let mut i: usize = 0;
    proof {
        assert(a@.take(0) =~= Seq::<bool>::empty());
        assert(b@.take(0) =~= Seq::<bool>::empty());
        assert(pow2(0) == 1) by {
            lemma2_to64();
        }
    }
    while i < n
        invariant
            n == a@.len() == b@.len(),
            0 <= i <= n,
            wires@.len() == i,
            bits_value(wire_bits(wires@)) + pow2(i as nat) * (if carry@ {
                1nat
            } else {
                0nat
            }) == bits_value(a@.take(i as int)) + bits_value(b@.take(i as int)),
        decreases n - i,
    {
        let ai = a.wire(i);
        let bi = b.wire(i);
        let axb = f.xor(&ai, &bi);
        let s = f.xor(&axb, &carry);
        let aab = f.and(&ai, &bi);
        let cax = f.and(&carry, &axb);
        let new_carry = f.xor(&aab, &cax);
        proof {
            let av: nat = if a@[i as int] {
                1nat
            } else {
                0nat
            };
            let bv: nat = if b@[i as int] {
                1nat
            } else {
                0nat
            };
            let cv: nat = if carry@ {
                1nat
            } else {
                0nat
            };
            let sv: nat = if s@ {
                1nat
            } else {
                0nat
            };
            let cv2: nat = if new_carry@ {
                1nat
            } else {
                0nat
            };
            assert(sv + 2 * cv2 == av + bv + cv);
            lemma_bits_value_take_succ(a@, i as int);
            lemma_bits_value_take_succ(b@, i as int);
            lemma_bits_value_push(wire_bits(wires@), s@);
            assert(wire_bits(wires@.push(s)) =~= wire_bits(wires@).push(s@));
            lemma_pow2_unfold((i + 1) as nat);
            let p = pow2(i as nat);
            assert(p * (sv + 2 * cv2) == p * sv + 2 * p * cv2) by (nonlinear_arith);
            assert(p * (av + bv + cv) == p * av + p * bv + p * cv) by (nonlinear_arith);
            assert((2 * p) * cv2 == 2 * p * cv2) by (nonlinear_arith);
        }
        wires.push(s);
        carry = new_carry;
        i = i + 1;
    }
    proof {
        assert(a@.take(n as int) =~= a@);
        assert(b@.take(n as int) =~= b@);
        lemma_bits_value_bound(wire_bits(wires@));
        lemma_pow2_pos(n as nat);
        let out = bits_value(wire_bits(wires@));
        let cb: nat = if carry@ {
            1nat
        } else {
            0nat
        };
        assert((bits_value(a@) + bits_value(b@)) % pow2(n as nat) == out) by {
            lemma_fundamental_div_mod_converse(
                (bits_value(a@) + bits_value(b@)) as int,
                pow2(n as nat) as int,
                cb as int,
                out as int,
            );
        }
    }
    BinaryBundle::new(wires)
}

/// Exclusive-or of two equal-width bundles, wire by wire.
pub fn bin_xor_bundles<F: FancyBinary>(f: &mut F, x: &BinaryBundle, y: &BinaryBundle) -> (r:
    BinaryBundle)
    requires
        x@.len() == y@.len(),
    ensures
        r@ =~= bits_xor(x@, y@),
{
    let n = x.size();
    let mut wires: Vec<Wire> = Vec::new();
    let mut i: usize = 0;
    while i < n
        invariant
            n == x@.len() == y@.len(),
            0 <= i <= n,
            wires@.len() == i,
            forall|j: int| 0 <= j < i ==> wire_bits(wires@)[j] == (x@[j] != y@[j]),
        decreases n - i,
    {
        let xi = x.wire(i);
        let yi = y.wire(i);
        let o = f.xor(&xi, &yi);
        proof {
            assert(wire_bits(wires@.push(o)) =~= wire_bits(wires@).push(o@));
        }
        wires.push(o);
        i = i + 1;
    }
    proof {
        assert(wire_bits(wires@) =~= bits_xor(x@, y@));
    }
    BinaryBundle::new(wires)
}

/// Remove the one-time pads from masked payload bundles: each masked bundle
/// is exclusive-ored with its mask bundle, yielding the plaintext payload
/// wires (still unrevealed).
pub fn fancy_unmask<F: FancyBinary>(
    f: &mut F,
    masked: &Vec<BinaryBundle>,
    masks: &Vec<BinaryBundle>,
) -> (r: Vec<BinaryBundle>)
    requires
        masked@.len() == masks@.len(),
        forall|i: int| 0 <= i < masked@.len() ==> masked@[i]@.len() == masks@[i]@.len(),
    ensures
        r@.len() == masked@.len(),
        forall|i: int| 0 <= i < r@.len() ==> r@[i]@ =~= bits_xor(masked@[i]@, masks@[i]@),
{
    let n = masked.len();
    let mut r: Vec<BinaryBundle> = Vec::new();
    let mut i: usize = 0;
    while i < n
        invariant
            n == masked@.len() == masks@.len(),
            forall|k: int| 0 <= k < n ==> masked@[k]@.len() == masks@[k]@.len(),
            0 <= i <= n,
            r@.len() == i,
            forall|k: int| 0 <= k < i ==> r@[k]@ =~= bits_xor(masked@[k]@, masks@[k]@),
        decreases n - i,
    {
        let u = bin_xor_bundles(f, &masked[i], &masks[i]);
        r.push(u);
        i = i + 1;
    }
    r
}

/// Unmask correctness: masking a payload and unmasking with the same mask
/// gives the payload back, bit-width preserved.  Together with the contract
/// of [`fancy_unmask`] this pins the mask/unmask round trip.
pub proof fn lemma_unmask_round_trip(payload: Seq<bool>, mask: Seq<bool>)
    requires
        payload.len() == mask.len(),
    ensures
        bits_xor(bits_xor(payload, mask), mask) =~= payload,
{
    lemma_bits_xor_involution(payload, mask);
}

/// Oblivious linear-RAM lookup: traverse the RAM, compare the query against
/// each index, multiplex the matching element and accumulate with carry-less
/// addition.  Exactly one index matches an in-range query, so the sum is the
/// queried element.
pub fn fancy_linear_oram<F: FancyBinary>(
    f: &mut F,
    ram: &Vec<BinaryBundle>,
    query: &BinaryBundle,
) -> (r: BinaryBundle)
    requires
        forall|i: int| 0 <= i < ram@.len() ==> ram@[i]@.len() == query@.len(),
        bits_value(query@) < ram@.len(),
        ram@.len() <= pow2(query@.len()),
        ram@.len() <= u64::MAX,
    ensures
        r@.len() == query@.len(),
        bits_value(r@) == bits_value(ram@[bits_value(query@) as int]@),
{
    let w = query.size();
    let n = ram.len();
    let ghost q = bits_value(query@);
    let mut result = bin_constant_bundle(f, 0, w);
    let zero = bin_constant_bundle(f, 0, w);
    proof {
        lemma_u64_bits_n_value(0, w as nat);
        lemma_pow2_pos(w as nat);
        assert((0 as nat) % pow2(w as nat) == 0) by {
            lemma_small_mod(0, pow2(w as nat));
        }
        assert(bits_value(zero@) == 0);
        assert(bits_value(result@) == 0);
    }
    let mut i: usize = 0;
    while i < n
        invariant
            n == ram@.len() <= u64::MAX,
            n <= pow2(query@.len()),
            forall|k: int| 0 <= k < n ==> ram@[k]@.len() == query@.len(),
            w == query@.len(),
            q == bits_value(query@),
            q < n,
            0 <= i <= n,
            bits_value(zero@) == 0,
            zero@.len() == w,
            result@.len() == w,
            bits_value(result@) == (if q < i {
                bits_value(ram@[q as int]@)
            } else {
                0nat
            }),
        decreases n - i,
    {
        let current_index = bin_constant_bundle(f, i as u64, w);
        proof {
            lemma_u64_bits_n_value(i as u64, w as nat);
            lemma_pow2_pos(w as nat);
            assert((i as nat) < pow2(w as nat));
            lemma_small_mod(i as nat, pow2(w as nat));
            assert(bits_value(current_index@) == i as nat);
            if q == i as nat {
                lemma_bits_value_injective(query@, current_index@);
            }
        }
        let mux_bit = bin_eq_bundles(f, query, &current_index);
        proof {
            assert(mux_bit@ <==> q == i as nat);
        }
        let mux = bin_multiplex(f, &mux_bit, &zero, &ram[i]);
        proof {
            lemma_bits_value_bound(ram@[i as int]@);
            lemma_bits_value_bound(result@);
            lemma_pow2_pos(w as nat);
        }
        let new_result = bin_addition_no_carry(f, &result, &mux);
        proof {
            if mux_bit@ {
                lemma_small_mod(bits_value(ram@[i as int]@), pow2(w as nat));
            } else {
                lemma_small_mod(bits_value(result@), pow2(w as nat));
            }
        }
        result = new_result;
        i = i + 1;
    }
    result
}

} // verus!
