//! The rules the inference pipeline applies to candidate object types.
//!
//! Definitive constraints name a winner outright, hard constraints remove candidates,
//! soft constraints score them, and overrides replace the inference altogether.
use vstd::prelude::*;

pub mod definitive;
pub mod hard;
pub mod overrides;
pub mod soft;

pub use definitive::DefinitiveConstraints;
pub use definitive::ENUM_VARIANT_COUNT as DEFINITIVE_ENUM_VARIANT_COUNT;
pub use hard::HardConstraints;
pub use hard::ENUM_VARIANT_COUNT as HARD_ENUM_VARIANT_COUNT;
pub use soft::SoftConstraints;
pub use soft::ENUM_VARIANT_COUNT as SOFT_ENUM_VARIANT_COUNT;

verus! {

/// Marks a type as a constraint of the inference pipeline.
pub trait Constraint {}

/// A discriminant that names no constraint of a kind.
#[derive(Debug, Clone, Copy, PartialEq, Eq, Structural)]
pub enum CastError {
    ConstraintCastError(usize),
}

} // verus!
