//! Scalar-field arithmetic for the BN254 curve's prime field.
//!
//! The crate offers a field-element type with canonical big-endian
//! encoding, the ring operations, exponentiation, inversion, and a
//! Montgomery batch-inversion routine, each with a full contract over
//! the mathematical residue the element represents.

pub mod arith;
pub mod backend;
pub mod batch;
pub mod encoding;
pub mod field;

pub use arith::p;
pub use batch::batch_inverse;
pub use field::normalize_hex;
pub use field::FieldError;
pub use field::Fr;
