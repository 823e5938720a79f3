//! Error kinds surfaced by signing, verification and trace construction.

use vstd::prelude::*;

verus! {

/// Errors that can occur during signing, verification, and witness trace
/// construction.
#[derive(Debug, Clone, Copy, PartialEq, Eq)]
pub enum SchnorrError {
    /// A point at infinity was met where a finite curve point was required:
    /// a verifying key, a signature commitment, or a nonce commitment.
    InvalidPoint,
    /// A trace row cannot be satisfied: an inversion intermediate does not
    /// exist, so no valid witness can be produced.
    InvalidWitness,
    /// The downstream proof system rejected a proof.
    VerificationFailure,
}

} // verus!
