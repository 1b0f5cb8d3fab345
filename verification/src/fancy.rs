//! Wires and gates.
//!
//! A [`Wire`] stands for one secret bit; its view is the plaintext bit.
//! [`ClearFancy`] computes each gate directly on the bit values.

use vstd::prelude::*;
use crate::bits::{nth_bit, u64_bits_n, bits_value, lemma_bits_value_skip};
use vstd::arithmetic::power2::*;
use vstd::arithmetic::div_mod::*;

verus! {

/// One secret bit of circuit state.  The bit itself is module-private:
/// circuit code may only combine wires through a [`FancyBinary`]
/// implementation.
#[derive(Clone, Copy, Debug)]
pub struct Wire {
    bit: bool,
}

impl View for Wire {
    type V = bool;

    closed spec fn view(&self) -> bool {
        self.bit
    }
}

impl Wire {
    /// Internal constructor used by gate implementations.
    fn make(bit: bool) -> (w: Wire)
        ensures
            w@ == bit,
    {
        Wire { bit }
    }
}

/// The views of a sequence of wires.
pub open spec fn wire_bits(s: Seq<Wire>) -> Seq<bool> {
    s.map_values(|w: Wire| w@)
}

/// Gate-level operations on single wires.  A circuit description generic over
/// this trait runs identically under every implementation; the contracts pin
/// the plaintext semantics of each gate.
pub trait FancyBinary: Sized {
    /// A public constant wire.
    fn constant(&mut self, b: bool) -> (w: Wire)
        ensures
            w@ == b,
    ;

    /// Exclusive-or of two wires.
    fn xor(&mut self, x: &Wire, y: &Wire) -> (w: Wire)
        ensures
            w@ == (x@ != y@),
    ;

    /// Conjunction of two wires.
    fn and(&mut self, x: &Wire, y: &Wire) -> (w: Wire)
        ensures
            w@ == (x@ && y@),
    ;

    /// Negation of a wire.
    fn negate(&mut self, x: &Wire) -> (w: Wire)
        ensures
            w@ == !x@,
    ;
}

/// Output revelation: turning a wire back into its plaintext bit.
pub trait FancyReveal: Sized {
    /// Reveal the plaintext bit of `x`.
    fn reveal_wire(&mut self, x: &Wire) -> (b: bool)
        ensures
            b == x@,
    ;
}

/// The clear-text role: gates are computed directly on the bit values.
pub struct ClearFancy {
    /// Number of gates issued so far.
    pub gate_count: u64,
}

impl ClearFancy {
    /// A fresh clear-text gate evaluator.
    pub fn new() -> (f: ClearFancy) {
        ClearFancy { gate_count: 0 }
    }

    fn count_gate(&mut self) {
        if self.gate_count < u64::MAX {
            self.gate_count = self.gate_count + 1;
        }
    }

    /// Encode the low `width` bits of `val` as wires, least significant first.
    pub fn encode(&mut self, val: u64, width: usize) -> (r: Vec<Wire>)
        ensures
            r@.len() == width,
            wire_bits(r@) =~= u64_bits_n(val, width as nat),
    {
        let mut out: Vec<Wire> = Vec::new();
        let mut cur: u64 = val;
        let mut i: usize = 0;
        proof {
            assert(pow2(0) == 1) by {
                lemma2_to64();
            }
        }
        while i < width
            invariant
                0 <= i <= width,
                out@.len() == i,
                cur as nat == (val as nat) / pow2(i as nat),
                wire_bits(out@) =~= u64_bits_n(val, i as nat),
            decreases width - i,
        {
            let b: bool = cur % 2 == 1;
            proof {
                lemma_pow2_pos(i as nat);
                assert(b == nth_bit(val, i as nat));
                assert((val as nat) / pow2(i as nat) / 2 == (val as nat) / (pow2(i as nat) * 2))
                    by {
                    lemma_div_denominator(val as int, pow2(i as nat) as int, 2);
                }
                lemma_pow2_adds(i as nat, 1);
                assert(pow2(1) == 2) by {
                    lemma2_to64();
                }
                let ghost prev = out@;
                assert(wire_bits(prev.push(Wire { bit: b })) =~= wire_bits(prev).push(b));
            }
            out.push(Wire::make(b));
            cur = cur / 2;
            i = i + 1;
            proof {
                assert(wire_bits(out@) =~= u64_bits_n(val, i as nat));
            }
        }
        out
    }

    /// Reveal a sequence of wires as the unsigned value of its bits.
    pub fn reveal_value(&mut self, wires: &Vec<Wire>) -> (r: u64)
        requires
            wires@.len() <= 64,
        ensures
            r as nat == bits_value(wire_bits(wires@)),
    {
        let ghost s = wire_bits(wires@);
        let n = wires.len();
        let mut r: u64 = 0;
        let mut k: usize = 0;
        proof {
            assert(s.skip(n as int) =~= Seq::<bool>::empty());
            assert(pow2(0) == 1) by {
                lemma2_to64();
            }
        }
        while k < n
            invariant
                0 <= k <= n,
                n == wires@.len() <= 64,
                s == wire_bits(wires@),
                r as nat == bits_value(s.skip(n - k)),
                (r as nat) < pow2(k as nat),
            decreases n - k,
        {
            let b = wires[n - 1 - k].bit;
            proof {
                assert(s[n - k - 1] == b);
                lemma_bits_value_skip(s, n - k - 1);
                lemma_pow2_unfold((k + 1) as nat);
                assert(pow2((k + 1) as nat) <= pow2(64)) by {
                    if ((k + 1) as nat) < 64 {
                        lemma_pow2_strictly_increases((k + 1) as nat, 64);
                    }
                }
                assert(pow2(64) == 0x10000000000000000) by {
                    lemma2_to64_rest();
                }
            }
            r = 2 * r + (if b {
                1u64
            } else {
                0u64
            });
            k = k + 1;
        }
        proof {
            assert(s.skip(0) =~= s);
        }
        r
    }
}

impl FancyBinary for ClearFancy {
    fn constant(&mut self, b: bool) -> (w: Wire) {
        self.count_gate();
        Wire::make(b)
    }

    fn xor(&mut self, x: &Wire, y: &Wire) -> (w: Wire) {
        self.count_gate();
        Wire::make(x.bit != y.bit)
    }

    fn and(&mut self, x: &Wire, y: &Wire) -> (w: Wire) {
        self.count_gate();
        Wire::make(x.bit && y.bit)
    }

    fn negate(&mut self, x: &Wire) -> (w: Wire) {
        self.count_gate();
        Wire::make(!x.bit)
    }
}

impl FancyReveal for ClearFancy {
    fn reveal_wire(&mut self, x: &Wire) -> (b: bool) {
        x.bit
    }
}

} // verus!
