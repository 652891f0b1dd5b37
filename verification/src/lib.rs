//! A Groth16 zero-knowledge proof system for the MiMC permutation over the
//! BLS12-381 scalar field.
//!
//! The library holds the permutation itself, the arithmetic-circuit
//! description of it (a rank-1 constraint system plan that a prover or a
//! parameter generator replays into `bellman`), the canonical byte encodings
//! of keys and proofs, and the verification entry point. Field and pairing
//! arithmetic come from `bls12_381` and `bellman` through a small set of
//! trusted wrappers; everything around those calls is verified.

use vstd::prelude::*;

pub mod circuit;
pub mod field;
pub mod keys;
pub mod mimc;
pub mod snark;

verus! {

/// The failure classes of the library.
///
/// Decode failures are always reported apart from verification rejection:
/// a proof that merely fails the pairing check is a normal `false`, never
/// an error.
#[derive(Clone, Copy, Debug, PartialEq, Eq, Structural)]
pub enum ZkError {
    /// Malformed transport encoding, wrong buffer length, or a byte string
    /// that is not a canonical field-element or curve-point encoding.
    DecodeError,
    /// A witness that does not satisfy the synthesized constraint system.
    WitnessMismatch,
    /// A public-input count that does not match the verifying key's shape.
    KeyTopologyMismatch,
}

} // verus!
