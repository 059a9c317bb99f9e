//! Additively homomorphic arithmetic over encrypted tensors.
//!
//! A `Cipherblock` is a shape-tagged, flat buffer of ciphertext slots tied to
//! one public key.  A party holding only the public key can add two
//! cipherblocks, add or multiply a cipherblock by plaintext values, run matrix
//! multiplication against plaintext operands, and reduce a cipherblock to its
//! sum or mean; decrypting the result with the matching secret key yields the
//! same answer as running the arithmetic on the plaintext tensors.
//!
//! Numeric values are bridged into the scheme's algebraic domain by a
//! fixed-point codec (`fixedpoint`); the per-slot homomorphic primitive lives
//! beside it, the tensor catalogue in `ops`, the reductions in `reduce`, and
//! the algebraic laws that tie encryption, arithmetic and decryption together
//! in `laws`.

use vstd::prelude::*;

pub mod block;
pub mod codec;
pub mod fixedpoint;
pub mod laws;
pub mod ops;
pub mod reduce;
pub mod tensor;

verus! {

/// Failures surfaced by the operation catalogue, the reductions and the key
/// pair interface.  Every operation either fully succeeds or fails atomically
/// with one of these; nothing partially computed is ever published.
#[derive(Clone, Copy, Debug, PartialEq, Eq, Structural)]
pub enum CbError {
    /// Operand shapes violate the operation's dimension contract.
    ShapeMismatch,
    /// The two ciphertext operands were produced under different public keys,
    /// or a secret key was applied to a cipherblock of another key pair.
    KeyMismatch,
    /// A value cannot be represented at the codec's configured precision:
    /// a mantissa or exponent left the representable fixed-point domain.
    EncodingOverflow,
    /// A decrypted slot does not fit the numeric type requested at decrypt
    /// time; no silently truncated result is ever returned.
    DecodeMismatch,
}

} // verus!
