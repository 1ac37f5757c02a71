//! Prime-field arithmetic over a fixed modulus.
//!
//! The field element type [`field::Fp`] wraps a single `u64` and carries its
//! modulus `P` as a const parameter. Operands are not required to be reduced
//! into `[0, P)`: every operator reduces its own result, and equality compares
//! residues, so two elements are equal exactly when their stored integers are
//! congruent modulo `P`. Division rests on the extended Euclidean algorithm
//! and fails with [`field::FieldError::InverseUndefined`] when no inverse
//! exists.

pub mod euclid;
pub mod field;
pub mod laws;
pub mod modular;
