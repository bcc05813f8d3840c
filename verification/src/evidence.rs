//! Evidence freshness: whether recorded evidence still describes its subject.

use vstd::prelude::*;

verus! {

/// Whether recorded evidence still describes the exact subject it was
/// produced for.
#[derive(Debug, Clone, Copy, PartialEq, Eq, Structural)]
pub enum EvidenceFreshness {
    Current,
    Stale,
    Unknown,
}

/// What is known of the evidence for a diagnostic's property.
#[derive(Debug, Clone, Copy, PartialEq, Eq, Structural)]
pub enum EvidenceState {
    Current,
    Stale,
    Unknown,
}

} // verus!
