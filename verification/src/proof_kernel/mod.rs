//! The proof-core bootstrap: canonical proof artifacts, the independent
//! table-driven reference checker, and proof bindings that tie a checked
//! verdict to the exact obligation, kernel, assumptions and dependencies.

pub mod artifact;
pub mod reference;
pub mod range;
pub mod rules;
