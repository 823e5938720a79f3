//! Fixed sizes of the signature scheme.

use vstd::prelude::*;

verus! {

/// Size of a serialized public verifying key in bytes.
pub const PK_SIZE: usize = 40;

/// Size of a serialized secret signing key in bytes.
pub const SK_SIZE: usize = 32;

/// Size of a serialized signature in bytes.
pub const SIG_SIZE: usize = 72;

/// State width of the Poseidon2 sponge.
pub const POSEIDON2_WIDTH: usize = 16;

/// Elements absorbed per permutation call.
pub const POSEIDON2_RATE: usize = 8;

/// Digest elements squeezed from the sponge.
pub const POSEIDON2_OUT: usize = 8;

} // verus!
