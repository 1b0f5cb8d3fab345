//! Little-endian bit sequences and their numeric values.
//!
//! Wire bundles represent unsigned integers with bit 0 least significant;
//! these spec functions and lemmas relate such bit sequences to arithmetic.

use vstd::prelude::*;
use vstd::arithmetic::power2::*;
use vstd::arithmetic::div_mod::*;

verus! {

/// Bit `i` of `v` (bit 0 is least significant).
pub open spec fn nth_bit(v: u64, i: nat) -> bool {
    ((v as nat) / pow2(i)) % 2 == 1
}

/// The first `n` bits of `v`, least significant first.
pub open spec fn u64_bits_n(v: u64, n: nat) -> Seq<bool> {
    Seq::new(n, |j: int| nth_bit(v, j as nat))
}

/// The unsigned value of a bit sequence, index 0 least significant.
pub open spec fn bits_value(s: Seq<bool>) -> nat
    decreases s.len(),
{
    if s.len() == 0 {
        0
    } else {
        (if s[0] {
            1nat
        } else {
            0nat
        }) + 2 * bits_value(s.drop_first())
    }
}

/// Pointwise exclusive-or of two bit sequences of equal length.
pub open spec fn bits_xor(a: Seq<bool>, b: Seq<bool>) -> Seq<bool> {
    Seq::new(a.len(), |j: int| a[j] != b[j])
}

/// Appending a bit at the top adds its weighted value.
pub proof fn lemma_bits_value_push(s: Seq<bool>, b: bool)
    ensures
        bits_value(s.push(b)) == bits_value(s) + pow2(s.len()) * (if b {
            1nat
        } else {
            0nat
        }),
    decreases s.len(),
{
    if s.len() == 0 {
        assert(s.push(b).drop_first() =~= Seq::<bool>::empty());
        assert(s.push(b)[0] == b);
        assert(bits_value(Seq::<bool>::empty()) == 0);
        assert(pow2(0) == 1) by {
            lemma2_to64();
        }
    } else {
        assert(s.push(b).drop_first() =~= s.drop_first().push(b));
        lemma_bits_value_push(s.drop_first(), b);
        lemma_pow2_unfold(s.len());
        let t = s.drop_first();
        let bv: nat = if b {
            1nat
        } else {
            0nat
        };
        assert(s.push(b)[0] == s[0]);
        assert(bits_value(s.push(b)) == (if s[0] {
            1nat
        } else {
            0nat
        }) + 2 * (bits_value(t) + pow2(t.len()) * bv));
        assert(2 * (bits_value(t) + pow2(t.len()) * bv) == 2 * bits_value(t) + 2 * (pow2(t.len())
            * bv)) by (nonlinear_arith);
        assert(2 * (pow2(t.len()) * bv) == (2 * pow2(t.len())) * bv) by (nonlinear_arith);
    }
}

/// A bit sequence's value is below `pow2` of its length.
pub proof fn lemma_bits_value_bound(s: Seq<bool>)
    ensures
        bits_value(s) < pow2(s.len()),
    decreases s.len(),
{
    if s.len() == 0 {
        assert(pow2(0) == 1) by {
            lemma2_to64();
        }
    } else {
        lemma_bits_value_bound(s.drop_first());
        lemma_pow2_unfold(s.len());
    }
}

/// Extending a prefix by one bit adds its weighted value.
pub proof fn lemma_bits_value_take_succ(s: Seq<bool>, i: int)
    requires
        0 <= i < s.len(),
    ensures
        bits_value(s.take(i + 1)) == bits_value(s.take(i)) + pow2(i as nat) * (if s[i] {
            1nat
        } else {
            0nat
        }),
{
    assert(s.take(i + 1) =~= s.take(i).push(s[i]));
    lemma_bits_value_push(s.take(i), s[i]);
}

/// Peeling the lowest remaining bit off a suffix.
pub proof fn lemma_bits_value_skip(s: Seq<bool>, m: int)
    requires
        0 <= m < s.len(),
    ensures
        bits_value(s.skip(m)) == (if s[m] {
            1nat
        } else {
            0nat
        }) + 2 * bits_value(s.skip(m + 1)),
{
    assert(s.skip(m).drop_first() =~= s.skip(m + 1));
    assert(s.skip(m)[0] == s[m]);
}

/// The first `n` bits of `v` have value `v % pow2(n)`.
pub proof fn lemma_u64_bits_n_value(v: u64, n: nat)
    ensures
        bits_value(u64_bits_n(v, n)) == (v as nat) % pow2(n),
    decreases n,
{
    if n == 0 {
        assert(u64_bits_n(v, 0) =~= Seq::<bool>::empty());
        assert(pow2(0) == 1) by {
            lemma2_to64();
        }
        assert((v as nat) % 1 == 0) by {
            lemma_mod_self_0(1);
            lemma_mod_multiples_basic(v as int, 1);
        }
    } else {
        let m = (n - 1) as nat;
        lemma_u64_bits_n_value(v, m);
        assert(u64_bits_n(v, n) =~= u64_bits_n(v, m).push(nth_bit(v, m)));
        lemma_bits_value_push(u64_bits_n(v, m), nth_bit(v, m));
        lemma_pow2_pos(m);
        lemma_pow2_unfold(n);
        assert((v as int) % (pow2(m) as int * 2) == pow2(m) as int * (((v as int) / pow2(m) as int)
            % 2) + (v as int) % pow2(m) as int) by {
            lemma_mod_breakdown(v as int, pow2(m) as int, 2);
        }
        assert((v as nat) / pow2(m) == ((v as int) / pow2(m) as int)) by {
            lemma_div_pos_is_pos(v as int, pow2(m) as int);
        }
    }
}

/// The full 64 bits of `v` have value exactly `v`.
pub proof fn lemma_u64_bits_value(v: u64)
    ensures
        bits_value(u64_bits_n(v, 64)) == v as nat,
{
    lemma_u64_bits_n_value(v, 64);
    assert(pow2(64) == 0x10000000000000000) by {
        lemma2_to64_rest();
    }
    lemma_small_mod(v as nat, pow2(64));
}

/// Equal 64-bit encodings come from equal values.
pub proof fn lemma_u64_bits_injective(v: u64, w: u64)
    requires
        u64_bits_n(v, 64) == u64_bits_n(w, 64),
    ensures
        v == w,
{
    lemma_u64_bits_value(v);
    lemma_u64_bits_value(w);
}

/// The lowest bit and the rest of the value, read off a bit sequence.
pub proof fn lemma_bits_value_parity(s: Seq<bool>)
    requires
        s.len() > 0,
    ensures
        bits_value(s) % 2 == (if s[0] {
            1nat
        } else {
            0nat
        }),
        bits_value(s) / 2 == bits_value(s.drop_first()),
{
    let b: nat = if s[0] {
        1nat
    } else {
        0nat
    };
    let w = bits_value(s.drop_first());
    assert(bits_value(s) == b + 2 * w);
    assert((b + 2 * w) % 2 == b && (b + 2 * w) / 2 == w) by {
        lemma_fundamental_div_mod_converse((b + 2 * w) as int, 2, w as int, b as int);
    }
}

/// Bit sequences of one length with the same value are the same sequence.
pub proof fn lemma_bits_value_injective(s: Seq<bool>, t: Seq<bool>)
    requires
        s.len() == t.len(),
        bits_value(s) == bits_value(t),
    ensures
        s =~= t,
    decreases s.len(),
{
    if s.len() > 0 {
        lemma_bits_value_parity(s);
        lemma_bits_value_parity(t);
        lemma_bits_value_injective(s.drop_first(), t.drop_first());
        assert(forall|k: int|
            0 <= k < s.len() ==> s[k] == t[k]) by {
            assert(s[0] == t[0]);
            assert(forall|k: int|
                1 <= k < s.len() ==> s[k] == s.drop_first()[k - 1] && t[k] == t.drop_first()[k
                    - 1]);
        }
    }
}

/// Reading one bit back out of a sequence's value.
pub proof fn lemma_bits_value_nth(s: Seq<bool>, j: int)
    requires
        0 <= j < s.len(),
    ensures
        (bits_value(s) / pow2(j as nat)) % 2 == (if s[j] {
            1nat
        } else {
            0nat
        }),
    decreases j,
{
    if j == 0 {
        assert(pow2(0) == 1) by {
            lemma2_to64();
        }
        lemma_div_basics(bits_value(s) as int);
        lemma_bits_value_parity(s);
    } else {
        lemma_bits_value_parity(s);
        lemma_pow2_unfold(j as nat);
        lemma_pow2_pos((j - 1) as nat);
        assert(bits_value(s) as int / (2 * pow2((j - 1) as nat) as int) == (bits_value(s) as int
            / 2) / pow2((j - 1) as nat) as int) by {
            lemma_div_denominator(bits_value(s) as int, 2, pow2((j - 1) as nat) as int);
        }
        lemma_bits_value_nth(s.drop_first(), j - 1);
    }
}

/// Extract the low `width` bits of `val`, least significant first.
pub fn u64_to_bits(val: u64, width: usize) -> (r: Vec<bool>)
    ensures
        r@ =~= u64_bits_n(val, width as nat),
{
    let mut out: Vec<bool> = Vec::new();
    let mut cur: u64 = val;
    let mut i: usize = 0;
    proof {
        assert(pow2(0) == 1) by {
            lemma2_to64();
        }
    }
    while i < width
        invariant
            0 <= i <= width,
            out@.len() == i,
            cur as nat == (val as nat) / pow2(i as nat),
            out@ =~= u64_bits_n(val, i as nat),
        decreases width - i,
    {
        let b: bool = cur % 2 == 1;
        proof {
            lemma_pow2_pos(i as nat);
            assert(b == nth_bit(val, i as nat));
            assert((val as nat) / pow2(i as nat) / 2 == (val as nat) / (pow2(i as nat) * 2)) by {
                lemma_div_denominator(val as int, pow2(i as nat) as int, 2);
            }
            lemma_pow2_adds(i as nat, 1);
            assert(pow2(1) == 2) by {
                lemma2_to64();
            }
        }
        out.push(b);
        cur = cur / 2;
        i = i + 1;
        proof {
            assert(out@ =~= u64_bits_n(val, i as nat));
        }
    }
    out
}

/// Masking twice with the same bit sequence gives the plaintext back.
pub proof fn lemma_bits_xor_involution(p: Seq<bool>, m: Seq<bool>)
    requires
        p.len() == m.len(),
    ensures
        bits_xor(bits_xor(p, m), m) =~= p,
{
}

} // verus!
