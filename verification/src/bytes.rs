//! Little-endian byte sequences and their numeric values.
//!
//! Primary keys and serialized headers are fixed-width little-endian
//! integers; these routines encode and decode them with explicit, checked
//! arithmetic rather than raw memory reinterpretation.

use vstd::prelude::*;
use vstd::arithmetic::power2::*;
use vstd::arithmetic::div_mod::*;

verus! {

/// The unsigned value of a byte sequence, index 0 least significant.
pub open spec fn le_bytes_value(s: Seq<u8>) -> nat
    decreases s.len(),
{
    if s.len() == 0 {
        0
    } else {
        (s[0] as nat) + 256 * le_bytes_value(s.drop_first())
    }
}

/// A byte sequence's value is below `pow2` of eight times its length.
pub proof fn lemma_le_bytes_value_bound(s: Seq<u8>)
    ensures
        le_bytes_value(s) < pow2(8 * s.len()),
    decreases s.len(),
{
    if s.len() == 0 {
        assert(pow2(0) == 1) by {
            lemma2_to64();
        }
    } else {
        let w = le_bytes_value(s.drop_first());
        lemma_le_bytes_value_bound(s.drop_first());
        lemma_pow2_adds(8, 8 * (s.len() - 1) as nat);
        assert(pow2(8) == 256) by {
            lemma2_to64();
        }
        assert(256 * w <= 256 * (pow2(8 * (s.len() - 1) as nat) - 1)) by (nonlinear_arith)
            requires
                w <= pow2(8 * (s.len() - 1) as nat) - 1,
        ;
    }
}

/// Appending a byte at the top adds its weighted value.
pub proof fn lemma_le_bytes_value_push(s: Seq<u8>, b: u8)
    ensures
        le_bytes_value(s.push(b)) == le_bytes_value(s) + pow2(8 * s.len()) * (b as nat),
    decreases s.len(),
{
    if s.len() == 0 {
        assert(s.push(b).drop_first() =~= Seq::<u8>::empty());
        assert(s.push(b)[0] == b);
        assert(le_bytes_value(Seq::<u8>::empty()) == 0);
        assert(pow2(0) == 1) by {
            lemma2_to64();
        }
        assert(pow2(0) * (b as nat) == b as nat) by (nonlinear_arith)
            requires
                pow2(0) == 1,
        ;
    } else {
        assert(s.push(b).drop_first() =~= s.drop_first().push(b));
        assert(s.push(b)[0] == s[0]);
        lemma_le_bytes_value_push(s.drop_first(), b);
        assert(le_bytes_value(s.push(b)) == (s[0] as nat) + 256 * le_bytes_value(
            s.drop_first().push(b),
        ));
        lemma_pow2_adds(8, 8 * (s.len() - 1) as nat);
        assert(pow2(8) == 256) by {
            lemma2_to64();
        }
        let t = s.drop_first();
        let p = pow2(8 * t.len());
        assert(256 * (le_bytes_value(t) + p * (b as nat)) == 256 * le_bytes_value(t) + (256 * p)
            * (b as nat)) by (nonlinear_arith);
        assert(le_bytes_value(t.push(b)) == le_bytes_value(t) + p * (b as nat));
        assert(pow2(8 * s.len()) == 256 * p);
        assert(le_bytes_value(s.push(b)) == (s[0] as nat) + 256 * le_bytes_value(t) + (256 * p) * (
        b as nat));
        assert(le_bytes_value(s) == (s[0] as nat) + 256 * le_bytes_value(t));
        assert((256 * p) * (b as nat) == pow2(8 * s.len()) * (b as nat)) by (nonlinear_arith)
            requires
                pow2(8 * s.len()) == 256 * p,
        ;
    }
}

/// Peeling the lowest remaining byte off a suffix.
pub proof fn lemma_le_bytes_value_skip(s: Seq<u8>, m: int)
    requires
        0 <= m < s.len(),
    ensures
        le_bytes_value(s.skip(m)) == (s[m] as nat) + 256 * le_bytes_value(s.skip(m + 1)),
{
    assert(s.skip(m).drop_first() =~= s.skip(m + 1));
    assert(s.skip(m)[0] == s[m]);
}

/// The lowest byte and the rest of the value, read off a byte sequence.
pub proof fn lemma_le_bytes_value_parity(s: Seq<u8>)
    requires
        s.len() > 0,
    ensures
        le_bytes_value(s) % 256 == s[0] as nat,
        le_bytes_value(s) / 256 == le_bytes_value(s.drop_first()),
{
    let b = s[0] as nat;
    let w = le_bytes_value(s.drop_first());
    assert(le_bytes_value(s) == b + 256 * w);
    assert((b + 256 * w) % 256 == b && (b + 256 * w) / 256 == w) by {
        lemma_fundamental_div_mod_converse((b + 256 * w) as int, 256, w as int, b as int);
    }
}

/// Byte sequences of one length with the same value are the same sequence.
pub proof fn lemma_le_bytes_value_injective(s: Seq<u8>, t: Seq<u8>)
    requires
        s.len() == t.len(),
        le_bytes_value(s) == le_bytes_value(t),
    ensures
        s =~= t,
    decreases s.len(),
{
    if s.len() > 0 {
        lemma_le_bytes_value_parity(s);
        lemma_le_bytes_value_parity(t);
        lemma_le_bytes_value_injective(s.drop_first(), t.drop_first());
        assert(forall|k: int|
            0 <= k < s.len() ==> s[k] == t[k]) by {
            assert(s[0] == t[0]);
            assert(forall|k: int|
                1 <= k < s.len() ==> s[k] == s.drop_first()[k - 1] && t[k] == t.drop_first()[k
                    - 1]);
        }
    }
}

/// The `n` low little-endian bytes of `v`.
pub open spec fn u64_le_bytes_n(v: u64, n: nat) -> Seq<u8> {
    Seq::new(n, |i: int| (((v as nat) / pow2(8 * i as nat)) % 256) as u8)
}

/// Read the eight-byte little-endian value starting at `start`.
pub fn le_u64_at(bytes: &Vec<u8>, start: usize) -> (r: u64)
    requires
        start + 8 <= bytes@.len(),
    ensures
        r as nat == le_bytes_value(bytes@.subrange(start as int, start as int + 8)),
{
    let ghost s = bytes@.subrange(start as int, start as int + 8);
    let n = bytes.len();
    let mut r: u64 = 0;
    let mut k: usize = 0;
    proof {
        assert(s.skip(8) =~= Seq::<u8>::empty());
        assert(pow2(0) == 1) by {
            lemma2_to64();
        }
    }
    while k < 8
        invariant
            start + 8 <= bytes@.len(),
            n == bytes@.len(),
            s == bytes@.subrange(start as int, start as int + 8),
            0 <= k <= 8,
            r as nat == le_bytes_value(s.skip(8 - k)),
            (r as nat) < pow2(8 * k as nat),
        decreases 8 - k,
    {
        let b = bytes[start + (7 - k)];
        proof {
            assert(s[8 - k - 1] == bytes@[start + (7 - k)]);
            lemma_le_bytes_value_skip(s, 8 - k - 1);
            lemma_pow2_adds(8 * k as nat, 8);
            assert(pow2(8) == 256) by {
                lemma2_to64();
            }
            assert(pow2(8 * (k + 1) as nat) <= pow2(64)) by {
                if 8 * (k + 1) < 64 {
                    lemma_pow2_strictly_increases(8 * (k + 1) as nat, 64);
                }
            }
            assert(pow2(64) == 0x10000000000000000) by {
                lemma2_to64_rest();
            }
            assert(256 * (r as nat) <= 256 * (pow2(8 * k as nat) - 1)) by (nonlinear_arith)
                requires
                    (r as nat) <= pow2(8 * k as nat) - 1,
            ;
            assert(pow2(8 * k as nat) * 256 == 256 * pow2(8 * k as nat)) by (nonlinear_arith);
        }
        r = 256 * r + (b as u64);
        k = k + 1;
    }
    proof {
        assert(s.skip(0) =~= s);
    }
    r
}

/// The eight little-endian bytes of `v`.
pub fn u64_to_le_bytes_vec(v: u64) -> (r: Vec<u8>)
    ensures
        r@.len() == 8,
        le_bytes_value(r@) == v as nat,
        r@ =~= u64_le_bytes_n(v, 8),
{
    let mut out: Vec<u8> = Vec::new();
    let mut cur: u64 = v;
    let mut i: usize = 0;
    proof {
        assert(out@ =~= Seq::<u8>::empty());
        assert(le_bytes_value(out@) == 0);
        assert(pow2(0) == 1) by {
            lemma2_to64();
        }
        assert(pow2(0) * (v as nat) == v as nat) by (nonlinear_arith)
            requires
                pow2(0) == 1,
        ;
        lemma_div_basics(v as int);
    }
    while i < 8
        invariant
            0 <= i <= 8,
            out@.len() == i,
            cur as nat == (v as nat) / pow2(8 * i as nat),
            le_bytes_value(out@) + pow2(8 * i as nat) * (cur as nat) == v as nat,
            out@ =~= u64_le_bytes_n(v, i as nat),
        decreases 8 - i,
    {
        let b: u8 = (cur % 256) as u8;
        let next: u64 = cur / 256;
        proof {
            lemma_le_bytes_value_push(out@, b);
            lemma_pow2_adds(8 * i as nat, 8);
            assert(pow2(8) == 256) by {
                lemma2_to64();
            }
            assert(cur as nat == 256 * (next as nat) + (b as nat));
            let p = pow2(8 * i as nat);
            assert(p * (256 * (next as nat) + (b as nat)) == (p * 256) * (next as nat) + p
                * (b as nat)) by (nonlinear_arith);
            lemma_pow2_pos(8 * i as nat);
            assert((v as nat) / pow2(8 * i as nat) / 256 == (v as nat) / (pow2(8 * i as nat)
                * 256)) by {
                lemma_div_denominator(v as int, pow2(8 * i as nat) as int, 256);
            }
            assert(out@.push(b) =~= u64_le_bytes_n(v, (i + 1) as nat));
        }
        out.push(b);
        cur = next;
        i = i + 1;
    }
    proof {
        assert(pow2(64) == 0x10000000000000000) by {
            lemma2_to64_rest();
        }
        if cur as nat >= 1 {
            assert(pow2(64) * (cur as nat) >= pow2(64)) by (nonlinear_arith)
                requires
                    cur as nat >= 1,
                    pow2(64) > 0,
            ;
        }
        assert(cur as nat == 0);
        assert(pow2(64) * (cur as nat) == 0) by (nonlinear_arith)
            requires
                cur as nat == 0,
        ;
        assert(le_bytes_value(out@) == v as nat);
    }
    out
}

} // verus!
