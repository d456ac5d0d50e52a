//! Deterministic structural fingerprints for data-type shapes.
//!
//! A type's shape — its name, layout hints, and the ordered fields or
//! variants it declares — is captured in a shape descriptor, built from
//! layout-hint tokens parsed by [`repr`] and per-field annotations resolved
//! into field plans.  The emitter then walks the descriptor and produces the
//! deterministic sequence of accumulator calls whose digest is the type's
//! fingerprint.

pub mod descriptor;
pub mod emit;
pub mod laws;
pub mod plan;
pub mod repr;
mod text;
