//! Constant-modulus arithmetic with Barrett reduction.
//!
//! A modulus is fixed once; its bit length and a reciprocal-like constant are
//! derived from it. Addition, subtraction and multiplication of residues then
//! need no division. Every operation is proved to return the canonical residue
//! of the exact integer result.
//!
//! Two pairs of scalar and doubled-width type are provided: `u64` with `u128`
//! in [`scalar64`], and `u32` with `u64` in [`scalar32`].
pub mod model;
mod cast;
pub mod lemmas;
pub mod laws;
pub mod scalar64;
pub mod scalar32;

pub use crate::model::BarrettParams;
pub use crate::scalar32::{BarrettBackend32, BarrettModulus32};
pub use crate::scalar64::{BarrettBackend, BarrettModulus};
