//! Schnorr signatures over a prime-order elliptic curve whose coordinates live
//! in a degree-8 binomial extension of a 31-bit prime field, together with the
//! AIR trace layout and polynomial constraint system that encode signature
//! verification for a STARK prover.

pub mod basefield;
pub mod scalarfield;
pub mod group;
pub mod affine;
pub mod msm;
pub mod projective;
pub mod point_ops;
pub mod scalar_arithmetic;
pub mod errors;
pub mod scalar_mul_air;
pub mod constants;
pub mod signatures;
pub mod keys;
pub mod signature_witness;
pub mod schnorr_air;

pub use affine::Affine;
pub use basefield::Fp8;
pub use group::{Group, ScalarBits};
pub use msm::{double_scalar_mul_basepoint_affine, mul_generator_affine};
pub use point_ops::{scalar_to_bits, CircuitPoint};
pub use projective::Projective;
pub use scalar_arithmetic::CircuitScalar;
pub use errors::SchnorrError;
pub use scalar_mul_air::{ScalarMulAir, ScalarMulTrace};
pub use keys::{SigningKey, VerifyingKey};
pub use signatures::Signature;
pub use signature_witness::SignatureWitness;
pub use schnorr_air::{SchnorrAir, SchnorrTrace};
pub use scalarfield::ScalarField;
