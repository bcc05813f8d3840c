//! Evidence-aware physical representation choices for one protected logical
//! value. These records do not participate in logical type identity: they
//! are late-bound candidates whose eligibility is decided from exact spatial
//! facts and current capabilities.

use vstd::prelude::*;
use vstd::string::*;

use crate::identity::SemanticId;
use crate::machine_intent::{AlignmentCapability, ObligationStatus};
use crate::text::{decimal, push_decimal, text_eq};

verus! {

#[derive(Debug, Clone, PartialEq, Eq, Structural)]
pub enum LayoutFamily {
    ArrayOfStructures,
    StructureOfArrays,
    ArrayOfStructuresOfArrays { chunk_lanes: u32 },
}

#[derive(Debug, Clone, Copy, PartialEq, Eq, Structural)]
pub enum RepresentationObservation {
    LogicalValues,
    PhysicalFieldOrder,
    StableAddress,
    ExactSize,
    ExactAlignment,
    Abi,
    SerializedBytes,
}

#[derive(Debug, Clone, PartialEq, Eq)]
pub struct SpatialFacts {
    pub subject: SemanticId,
    pub scope: String,
    pub contiguous: bool,
    pub stride_bytes: Option<u64>,
    pub established_alignment: Option<u64>,
    pub field_order: Vec<String>,
    pub packed: bool,
    pub stable_address: bool,
    pub address_space: String,
}

#[derive(Debug, Clone, PartialEq, Eq)]
pub struct RepresentationCandidate {
    pub identity: SemanticId,
    pub logical_type: SemanticId,
    pub family: LayoutFamily,
    pub applicable_targets: Vec<String>,
    pub requires_contiguous: bool,
    pub required_alignment: Option<u64>,
    pub preserves: Vec<RepresentationObservation>,
}

#[derive(Debug, Clone, PartialEq, Eq)]
pub struct RepresentationContext {
    pub logical_type: SemanticId,
    pub target: String,
    pub spatial: SpatialFacts,
    pub alignment: Option<AlignmentCapability>,
    pub protected_observations: Vec<RepresentationObservation>,
}

#[derive(Debug, Clone, PartialEq, Eq)]
pub struct RepresentationDecision {
    pub status: ObligationStatus,
    pub selected: SemanticId,
    pub fallback_used: bool,
    pub reasons: Vec<String>,
}

pub open spec fn observation_name(observation: RepresentationObservation) -> Seq<char> {
    match observation {
        RepresentationObservation::LogicalValues => "LogicalValues"@,
        RepresentationObservation::PhysicalFieldOrder => "PhysicalFieldOrder"@,
        RepresentationObservation::StableAddress => "StableAddress"@,
        RepresentationObservation::ExactSize => "ExactSize"@,
        RepresentationObservation::ExactAlignment => "ExactAlignment"@,
        RepresentationObservation::Abi => "Abi"@,
        RepresentationObservation::SerializedBytes => "SerializedBytes"@,
    }
}

fn observation_text(observation: RepresentationObservation) -> (r: &'static str)
    ensures
        r@ == observation_name(observation),
{
    match observation {
        RepresentationObservation::LogicalValues => "LogicalValues",
        RepresentationObservation::PhysicalFieldOrder => "PhysicalFieldOrder",
        RepresentationObservation::StableAddress => "StableAddress",
        RepresentationObservation::ExactSize => "ExactSize",
        RepresentationObservation::ExactAlignment => "ExactAlignment",
        RepresentationObservation::Abi => "Abi",
        RepresentationObservation::SerializedBytes => "SerializedBytes",
    }
}

/// The candidate names the target, or names no target at all.
pub open spec fn applies_to(targets: Seq<String>, target: Seq<char>) -> bool {
    targets.len() == 0 || exists|i: int| 0 <= i < targets.len() && (#[trigger] targets[i])@ == target
}

/// Alignment evidence for the exact spatial subject and scope.
pub open spec fn alignment_evidenced(context: RepresentationContext, required: u64) -> bool {
    match context.alignment {
        None => false,
        Some(capability) => {
            &&& capability.subject.0@ == context.spatial.subject.0@
            &&& capability.scope@ == context.spatial.scope@
            &&& capability.alignment >= required
            &&& capability.evidence.subject.0@ == context.spatial.subject.0@
            &&& capability.evidence.freshness == crate::evidence::EvidenceFreshness::Current
            &&& capability.evidence.status == ObligationStatus::Pass
        },
    }
}

/// The first protected observation the candidate does not preserve.
pub open spec fn first_unpreserved(protected: Seq<RepresentationObservation>, preserves: Seq<RepresentationObservation>) -> Option<
    RepresentationObservation,
>
    decreases protected.len(),
{
    if protected.len() == 0 {
        None
    } else if !preserves.contains(protected[0]) {
        Some(protected[0])
    } else {
        first_unpreserved(protected.drop_first(), preserves)
    }
}

/// Why a candidate is ineligible in a context, or `Ok` when it is eligible;
/// the checks apply in order and the first failure is reported.
pub open spec fn eligibility(candidate: RepresentationCandidate, context: RepresentationContext) -> Result<(), Seq<char>> {
    if candidate.logical_type.0@ != context.logical_type.0@ {
        Err("candidate is bound to another logical type"@)
    } else if !applies_to(candidate.applicable_targets@, context.target@) {
        Err("candidate does not apply to the selected target"@)
    } else if candidate.family == (LayoutFamily::ArrayOfStructuresOfArrays { chunk_lanes: 0 }) {
        Err("AoSoA chunk size must be nonzero"@)
    } else if candidate.requires_contiguous && !context.spatial.contiguous {
        Err("contiguity is not established"@)
    } else if candidate.required_alignment is Some && !alignment_evidenced(context, candidate.required_alignment->0) {
        Err("alignment<"@ + decimal(candidate.required_alignment->0 as nat) + "> is not currently evidenced"@)
    } else {
        match first_unpreserved(context.protected_observations@, candidate.preserves@) {
            Some(observation) => Err("candidate does not preserve "@ + observation_name(observation)),
            None => Ok(()),
        }
    }
}

fn targets_contain(targets: &Vec<String>, target: &String) -> (r: bool)
    ensures
        r == exists|i: int| 0 <= i < targets@.len() && (#[trigger] targets@[i])@ == target@,
{
    let mut i: usize = 0;
    while i < targets.len()
        invariant
            i <= targets@.len(),
            forall|j: int| 0 <= j < i ==> (#[trigger] targets@[j])@ != target@,
        decreases targets@.len() - i,
    {
        if text_eq(targets[i].as_str(), target.as_str()) {
            return true;
        }
        i = i + 1;
    }
    false
}

fn observations_contain(observations: &Vec<RepresentationObservation>, observation: RepresentationObservation) -> (r: bool)
    ensures
        r == observations@.contains(observation),
{
    let mut i: usize = 0;
    while i < observations.len()
        invariant
            i <= observations@.len(),
            forall|j: int| 0 <= j < i ==> observations@[j] != observation,
        decreases observations@.len() - i,
    {
        if observations[i] == observation {
            return true;
        }
        i = i + 1;
    }
    false
}

fn find_unpreserved(protected: &Vec<RepresentationObservation>, preserves: &Vec<RepresentationObservation>) -> (r: Option<
    RepresentationObservation,
>)
    ensures
        r == first_unpreserved(protected@, preserves@),
{
    let mut i: usize = 0;
    assert(protected@.skip(0) =~= protected@);
    while i < protected.len()
        invariant
            i <= protected@.len(),
            first_unpreserved(protected@, preserves@) == first_unpreserved(protected@.skip(i as int), preserves@),
        decreases protected@.len() - i,
    {
        assert(protected@.skip(i as int)[0] == protected@[i as int]);
        assert(protected@.skip(i as int).drop_first() =~= protected@.skip(i as int + 1));
        if !observations_contain(preserves, protected[i]) {
            return Some(protected[i]);
        }
        i = i + 1;
    }
    None
}

impl RepresentationCandidate {
    fn eligible(&self, context: &RepresentationContext) -> (r: Result<(), String>)
        ensures
            match r {
                Ok(()) => eligibility(*self, *context) is Ok,
                Err(reason) => eligibility(*self, *context) == Err::<(), Seq<char>>(reason@),
            },
    {
        if !self.logical_type.same(&context.logical_type) {
            return Err(String::from_str("candidate is bound to another logical type"));
        }
        if self.applicable_targets.len() != 0 && !targets_contain(&self.applicable_targets, &context.target) {
            return Err(String::from_str("candidate does not apply to the selected target"));
        }
        if matches!(self.family, LayoutFamily::ArrayOfStructuresOfArrays { chunk_lanes: 0 }) {
            return Err(String::from_str("AoSoA chunk size must be nonzero"));
        }
        if self.requires_contiguous && !context.spatial.contiguous {
            return Err(String::from_str("contiguity is not established"));
        }
        if let Some(required) = self.required_alignment {
            let permitted = match &context.alignment {
                Some(alignment) => alignment.permits(&context.spatial.subject, context.spatial.scope.as_str(), required),
                None => false,
            };
            if !permitted {
                let mut reason = String::from_str("alignment<");
                push_decimal(&mut reason, required);
                reason.append("> is not currently evidenced");
                return Err(reason);
            }
        }
        if let Some(observation) = find_unpreserved(&context.protected_observations, &self.preserves) {
            return Err(String::from_str("candidate does not preserve ").concat(observation_text(observation)));
        }
        Ok(())
    }
}

/// The reason recorded for an ineligible candidate: `<identity>: <why>`.
pub open spec fn reason_line(candidate: RepresentationCandidate, why: Seq<char>) -> Seq<char> {
    candidate.identity.0@ + ": "@ + why
}

/// Reasons for the first `k` preferred candidates, all ineligible.
pub open spec fn rejections(preferred: Seq<RepresentationCandidate>, context: RepresentationContext, k: int) -> Seq<Seq<char>>
    decreases k,
{
    if k <= 0 {
        seq![]
    } else {
        rejections(preferred, context, k - 1).push(
            match eligibility(preferred[k - 1], context) {
                Err(why) => reason_line(preferred[k - 1], why),
                Ok(_) => seq![],
            },
        )
    }
}

/// The position of the first eligible preferred candidate.
pub open spec fn first_eligible(preferred: Seq<RepresentationCandidate>, context: RepresentationContext) -> Option<int> {
    if exists|i: int| 0 <= i < preferred.len() && eligibility(#[trigger] preferred[i], context) is Ok {
        Some(choose|i: int|
            0 <= i < preferred.len() && eligibility(#[trigger] preferred[i], context) is Ok && forall|j: int|
                0 <= j < i ==> eligibility(#[trigger] preferred[j], context) is Err)
    } else {
        None
    }
}

fn reason_for(identity: &SemanticId, why: String) -> (r: String)
    ensures
        r@ == identity.0@ + ": "@ + why@,
{
    identity.0.clone().concat(": ").concat(why.as_str())
}

/// Select the first eligible preferred candidate (PASS). Without one, the
/// explicit fallback is retained: UNKNOWN when it is eligible, FAIL when it
/// is not. Every rejected candidate contributes its reason, in order.
pub fn select_representation(
    preferred: &[RepresentationCandidate],
    fallback: &RepresentationCandidate,
    context: &RepresentationContext,
) -> (r: RepresentationDecision)
    ensures
        match first_eligible(preferred@, *context) {
            Some(i) => {
                &&& r.status == ObligationStatus::Pass
                &&& r.selected.0@ == preferred@[i].identity.0@
                &&& !r.fallback_used
                &&& r.reasons@.map_values(|s: String| s@) == rejections(preferred@, *context, i)
            },
            None => {
                &&& r.selected.0@ == fallback.identity.0@
                &&& r.fallback_used
                &&& match eligibility(*fallback, *context) {
                    Ok(_) => r.status == ObligationStatus::Unknown && r.reasons@.map_values(|s: String| s@) == rejections(
                        preferred@,
                        *context,
                        preferred@.len() as int,
                    ),
                    Err(why) => r.status == ObligationStatus::Fail && r.reasons@.map_values(|s: String| s@) == rejections(
                        preferred@,
                        *context,
                        preferred@.len() as int,
                    ).push(reason_line(*fallback, why)),
                }
            },
        },
{
    let mut reasons: Vec<String> = Vec::new();
    let mut i: usize = 0;
    while i < preferred.len()
        invariant
            i <= preferred@.len(),
            forall|j: int| 0 <= j < i ==> eligibility(#[trigger] preferred@[j], *context) is Err,
            reasons@.map_values(|s: String| s@) == rejections(preferred@, *context, i as int),
        decreases preferred@.len() - i,
    {
        match preferred[i].eligible(context) {
            Ok(()) => {
                proof {
                    assert(eligibility(preferred@[i as int], *context) is Ok);
                    assert(first_eligible(preferred@, *context) == Some(i as int));
                }
                return RepresentationDecision {
                    status: ObligationStatus::Pass,
                    selected: preferred[i].identity.duplicate(),
                    fallback_used: false,
                    reasons,
                };
            },
            Err(reason) => {
                let line = reason_for(&preferred[i].identity, reason);
                let ghost before = reasons@;
                reasons.push(line);
                assert(reasons@.map_values(|s: String| s@) =~= rejections(preferred@, *context, i as int + 1));
            },
        }
        i = i + 1;
    }
    proof {
        assert(first_eligible(preferred@, *context) is None);
    }
    match fallback.eligible(context) {
        Ok(()) => RepresentationDecision {
            status: ObligationStatus::Unknown,
            selected: fallback.identity.duplicate(),
            fallback_used: true,
            reasons,
        },
        Err(reason) => {
            let line = reason_for(&fallback.identity, reason);
            reasons.push(line);
            assert(reasons@.map_values(|s: String| s@) =~= rejections(preferred@, *context, preferred@.len() as int).push(
                reason_line(*fallback, eligibility(*fallback, *context)->Err_0),
            ));
            RepresentationDecision {
                status: ObligationStatus::Fail,
                selected: fallback.identity.duplicate(),
                fallback_used: true,
                reasons,
            }
        },
    }
}

/// Alignment evidence that covers the requirement is no obstacle: when the
/// context holds a current PASS alignment capability for the exact spatial
/// subject and scope, at an alignment of at least what the candidate
/// requires (a larger proven alignment implies every smaller one), the
/// candidate is judged exactly as if it required no alignment at all.
pub proof fn lemma_covering_alignment_is_no_obstacle(
    candidate: RepresentationCandidate,
    context: RepresentationContext,
    capability: AlignmentCapability,
    required: u64,
)
    requires
        candidate.required_alignment == Some(required),
        context.alignment == Some(capability),
        capability.subject.0@ == context.spatial.subject.0@,
        capability.scope@ == context.spatial.scope@,
        required <= capability.alignment,
        capability.evidence.subject.0@ == context.spatial.subject.0@,
        capability.evidence.freshness == crate::evidence::EvidenceFreshness::Current,
        capability.evidence.status == ObligationStatus::Pass,
    ensures
        eligibility(candidate, context) == eligibility(
            RepresentationCandidate { required_alignment: None, ..candidate },
            context,
        ),
{
}

/// Without any alignment capability in the context, a candidate that
/// requires an alignment is never eligible.
pub proof fn lemma_unevidenced_alignment_is_never_eligible(candidate: RepresentationCandidate, context: RepresentationContext)
    requires
        candidate.required_alignment is Some,
        context.alignment is None,
    ensures
        eligibility(candidate, context) is Err,
{
}

proof fn lemma_first_unpreserved_none(protected: Seq<RepresentationObservation>, preserves: Seq<RepresentationObservation>)
    ensures
        first_unpreserved(protected, preserves) is None <==> forall|i: int|
            0 <= i < protected.len() ==> preserves.contains(#[trigger] protected[i]),
    decreases protected.len(),
{
    if protected.len() > 0 {
        lemma_first_unpreserved_none(protected.drop_first(), preserves);
        if preserves.contains(protected[0]) && first_unpreserved(protected.drop_first(), preserves) is None {
            assert forall|i: int| 0 <= i < protected.len() implies preserves.contains(#[trigger] protected[i]) by {
                if i > 0 {
                    assert(protected[i] == protected.drop_first()[i - 1]);
                }
            }
        }
        if forall|i: int| 0 <= i < protected.len() ==> preserves.contains(#[trigger] protected[i]) {
            assert(preserves.contains(protected[0]));
            assert forall|i: int| 0 <= i < protected.drop_first().len() implies preserves.contains(
                #[trigger] protected.drop_first()[i],
            ) by {
                assert(protected.drop_first()[i] == protected[i + 1]);
            }
        }
    }
}

/// A candidate is eligible exactly when it is bound to the context's logical
/// type, names the target (or no target), is not an AoSoA layout of zero
/// lanes, finds contiguity established if it needs it, finds its alignment
/// (if any) covered by a current PASS capability for the exact subject and
/// scope at that alignment or more, and preserves every protected
/// observation.
pub proof fn lemma_eligibility_conditions(candidate: RepresentationCandidate, context: RepresentationContext)
    ensures
        eligibility(candidate, context) is Ok <==> {
            &&& candidate.logical_type.0@ == context.logical_type.0@
            &&& (candidate.applicable_targets@.len() == 0 || exists|i: int|
                0 <= i < candidate.applicable_targets@.len() && (#[trigger] candidate.applicable_targets@[i])@
                    == context.target@)
            &&& candidate.family != (LayoutFamily::ArrayOfStructuresOfArrays { chunk_lanes: 0 })
            &&& (candidate.requires_contiguous ==> context.spatial.contiguous)
            &&& (candidate.required_alignment matches Some(required) ==> (context.alignment matches Some(capability)
                && capability.subject.0@ == context.spatial.subject.0@ && capability.scope@ == context.spatial.scope@
                && required <= capability.alignment && capability.evidence.subject.0@ == context.spatial.subject.0@
                && capability.evidence.freshness == crate::evidence::EvidenceFreshness::Current
                && capability.evidence.status == ObligationStatus::Pass))
            &&& forall|i: int|
                0 <= i < context.protected_observations@.len() ==> candidate.preserves@.contains(
                    #[trigger] context.protected_observations@[i],
                )
        },
{
    lemma_first_unpreserved_none(context.protected_observations@, candidate.preserves@);
}

} // verus!
