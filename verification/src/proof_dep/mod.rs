//! Genuine dependency reference checker (kernel tranche 0.2).
//!
//! Direct recursive evaluation with de Bruijn levels and fuel over a bounded
//! buffer of term cells. The checker only corroborates: it recomputes a
//! diagnostic verdict and never creates proof authority. Exhausted fuel is
//! always UNKNOWN, never PASS; structural violations are always FAIL.

pub mod terms;
pub mod shape;
pub mod value;
pub mod eval;
pub mod infer;
pub mod check;
pub mod artifact;
