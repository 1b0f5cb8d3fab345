//! Circuit private set intersection with payloads.
//!
//! Two parties jointly compute the intersection of private keyed record sets
//! so that each learns only which of the receiver's primary keys the sender
//! also holds, and the payloads attached to matching keys.  An oblivious
//! programmable PRF exchange produces masked wire representations of keys,
//! payloads and one-time pads; a circuit composed of equality, multiplex,
//! exclusive-or and carry-less addition gates then computes the result on
//! wires, and only the intended outputs are revealed.
//!
//! The clear-text role in [`clear`] runs the whole pipeline on plaintext
//! bits.

use vstd::prelude::*;

pub mod base_psi;
pub mod bits;
pub mod bloomfilter;
pub mod bytes;
pub mod circuits;
pub mod clear;
pub mod errors;
pub mod fancy;
pub mod hash_aes;

use crate::circuits::{BinaryBundle, wires_to_bundle, fancy_unmask};
use crate::fancy::{Wire, FancyBinary, wire_bits};
use crate::bits::bits_xor;
use crate::errors::Error;

verus! {

/// The number of bytes representing a set primary key.
pub const PRIMARY_KEY_SIZE: usize = 8;

/// The number of bytes representing a payload value.
pub const PAYLOAD_SIZE: usize = 8;

/// The type of set primary keys to be used.
pub type PrimaryKey = Vec<u8>;

/// The type of payloads to be used: a `PAYLOAD_SIZE`-byte unsigned value.
pub type Payload = u64;

/// The raw (un-bundled) wire sets produced by base PSI, one
/// `8 * PRIMARY_KEY_SIZE`- or `8 * PAYLOAD_SIZE`-wire group per candidate
/// key.  Produced by the base-PSI exchange and consumed by the circuit
/// composition layer.
#[derive(Debug)]
pub struct CircuitInputs {
    /// The sender's primary-key wires.
    pub sender_primary_keys: Vec<Wire>,
    /// The receiver's primary-key wires.
    pub receiver_primary_keys: Vec<Wire>,
    /// The sender's payloads, masked (one-time padded) with the masks below.
    pub sender_payloads_masked: Vec<Wire>,
    /// The receiver's payload wires.
    pub receiver_payloads: Vec<Wire>,
    /// The masks: the receiver holds the correct one-time pad exactly when
    /// it shares the key with the sender, and an uncorrelated value
    /// otherwise.
    pub masks: Vec<Wire>,
}

/// The unmasked payload bundles of an intersection, empty when payloads were
/// not requested.
#[derive(Debug)]
pub struct PrivateIntersectionPayloads {
    /// The sender's unmasked payload wires.
    pub sender_payloads: Vec<BinaryBundle>,
    /// The receiver's payload wires.
    pub receiver_payloads: Vec<BinaryBundle>,
}

impl Default for PrivateIntersectionPayloads {
    /// The empty state used when payloads are not requested.
    fn default() -> (r: PrivateIntersectionPayloads)
        ensures
            r.sender_payloads@.len() == 0,
            r.receiver_payloads@.len() == 0,
    {
        PrivateIntersectionPayloads { sender_payloads: Vec::new(), receiver_payloads: Vec::new() }
    }
}

/// The existence bits and bundled primary keys of an intersection.
#[derive(Debug)]
pub struct PrivateIntersection {
    /// One wire per candidate key: 1 iff that key is in the intersection.
    pub existence_bit_vector: Vec<Wire>,
    /// The sender's primary-key wires, bundled per candidate key.
    pub primary_keys: Vec<BinaryBundle>,
}

impl Default for PrivateIntersection {
    /// The empty state, before any keys were matched.
    fn default() -> (r: PrivateIntersection)
        ensures
            r.existence_bit_vector@.len() == 0,
            r.primary_keys@.len() == 0,
    {
        PrivateIntersection { existence_bit_vector: Vec::new(), primary_keys: Vec::new() }
    }
}

/// The result of a circuit-PSI run: the intersection bit vector with its key
/// bundles, and the unmasked payloads.  After revelation its wires carry the
/// locally-reconstructed plaintext values.
#[derive(Debug)]
pub struct Intersection {
    /// The set of primary keys and the intersection bit vector.
    pub intersection: PrivateIntersection,
    /// The unmasked payloads.
    pub payloads: PrivateIntersectionPayloads,
}

/// Group the payload wires of `circuit_inputs` into bundles of
/// `8 * PAYLOAD_SIZE` wires and unmask the sender's payloads by
/// exclusive-oring each masked bundle with its mask bundle.  Returns the
/// sender's unmasked payload bundles and the receiver's payload bundles.
pub fn bundle_payloads<F: FancyBinary>(f: &mut F, circuit_inputs: &CircuitInputs) -> (r: (
    Vec<BinaryBundle>,
    Vec<BinaryBundle>,
))
    requires
        circuit_inputs.sender_payloads_masked@.len() == circuit_inputs.masks@.len(),
        (circuit_inputs.sender_payloads_masked@.len() as int) % (8 * PAYLOAD_SIZE as int) == 0,
        (circuit_inputs.receiver_payloads@.len() as int) % (8 * PAYLOAD_SIZE as int) == 0,
    ensures
        r.0@.len() == (circuit_inputs.sender_payloads_masked@.len() as int) / (8 * PAYLOAD_SIZE as int),
        forall|i: int|
            0 <= i < r.0@.len() ==> r.0@[i]@ =~= bits_xor(
                wire_bits(
                    circuit_inputs.sender_payloads_masked@.subrange(
                        64 * i,
                        64 * i + 64,
                    ),
                ),
                wire_bits(circuit_inputs.masks@.subrange(64 * i, 64 * i + 64)),
            ),
        r.1@.len() == (circuit_inputs.receiver_payloads@.len() as int) / (8 * PAYLOAD_SIZE as int),
        forall|i: int|
            0 <= i < r.1@.len() ==> r.1@[i]@ =~= wire_bits(
                circuit_inputs.receiver_payloads@.subrange(64 * i, 64 * i + 64),
            ),
{
    let masked = wires_to_bundle(&circuit_inputs.sender_payloads_masked, 8 * PAYLOAD_SIZE);
    let masks = wires_to_bundle(&circuit_inputs.masks, 8 * PAYLOAD_SIZE);
    let sender_payloads = fancy_unmask(f, &masked, &masks);
    let receiver_payloads = wires_to_bundle(&circuit_inputs.receiver_payloads, 8 * PAYLOAD_SIZE);
    (sender_payloads, receiver_payloads)
}

/// Group the sender's primary-key wires of `circuit_inputs` into bundles of
/// `8 * PRIMARY_KEY_SIZE` wires, one bundle per candidate key.
pub fn bundle_primary_keys(circuit_inputs: &CircuitInputs) -> (r: Vec<BinaryBundle>)
    requires
        (circuit_inputs.sender_primary_keys@.len() as int) % (8 * PRIMARY_KEY_SIZE as int) == 0,
    ensures
        r@.len() == (circuit_inputs.sender_primary_keys@.len() as int) / (8 * PRIMARY_KEY_SIZE as int),
        forall|i: int|
            0 <= i < r@.len() ==> r@[i]@ =~= wire_bits(
                circuit_inputs.sender_primary_keys@.subrange(64 * i, 64 * i + 64),
            ),
{
    wires_to_bundle(&circuit_inputs.sender_primary_keys, 8 * PRIMARY_KEY_SIZE)
}

/// The parties participating in the circuit-PSI protocol.  A role object
/// holds its own state; `intersect` and `intersect_with_payloads` run a
/// whole protocol run on the calling party's keys (and payloads) and return
/// the revealed intersection, or abort with an error.
pub trait CircuitPsi: Sized {
    /// Computes the circuit PSI on the parties' inputs, with payloads
    /// attached to the primary keys.
    fn intersect_with_payloads(
        &mut self,
        primary_keys: &Vec<PrimaryKey>,
        payloads: Option<&Vec<Payload>>,
    ) -> (r: Result<Intersection, Error>);

    /// Computes the circuit PSI on the parties' inputs with no payloads.
    fn intersect(&mut self, primary_keys: &Vec<PrimaryKey>) -> (r: Result<Intersection, Error>);
}

} // verus!
