//! An interactive argument of knowledge for layered arithmetic circuits.
//!
//! A prover evaluates a layered circuit of addition and multiplication
//! gates over a prime field and convinces a verifier of the output values
//! without the verifier re-executing the circuit.  The argument reduces a
//! claim about each layer to a claim about the layer below it through a
//! sumcheck sub-protocol bound by a Fiat-Shamir transcript.  A
//! zero-knowledge variant additionally hides the witness behind a
//! Pedersen-style commitment.

pub mod circuit;
pub mod commitment;
pub mod evaluate;
pub mod field;
pub mod libra_linear_gkr;
pub mod libra_zk_linear_gkr;
pub mod params;
pub mod sumcheck;
pub mod transcript;

use vstd::prelude::*;

verus! {

/// A construction-time failure: no proof object is ever built from a
/// description that is rejected here.
#[derive(Clone, Copy, Debug, PartialEq, Eq, Structural)]
pub enum Error {
    /// The circuit description holds no layers.
    EmptyCircuit,
    /// Some layer of the circuit description holds no gates.
    EmptyLayer,
    /// A gate carries a tag that names neither gate kind.
    InvalidGate,
    /// A gate names a wire position that the layer below does not have.
    WireOutOfRange,
    /// A value vector does not have the declared length.
    LengthMismatch,
}

} // verus!
