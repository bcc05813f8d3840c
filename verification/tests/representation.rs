use mncs_model::{
    select_representation, AlignmentCapability, EvidenceFreshness, LayoutFamily, Obligation,
    ObligationStatus, RepresentationCandidate, RepresentationContext, RepresentationObservation,
    SemanticId, SpatialFacts,
};

fn candidate(identity: &str, family: LayoutFamily, alignment: Option<u64>) -> RepresentationCandidate {
    RepresentationCandidate {
        identity: SemanticId(identity.to_owned()),
        logical_type: SemanticId("logical:particle-window".to_owned()),
        family,
        applicable_targets: vec!["host".to_owned()],
        requires_contiguous: true,
        required_alignment: alignment,
        preserves: vec![RepresentationObservation::LogicalValues],
    }
}

fn context(aligned: bool) -> RepresentationContext {
    let subject = SemanticId("region:particles".to_owned());
    let scope = "epoch:7:bytes:0..256".to_owned();
    let alignment = if aligned {
        Some(AlignmentCapability {
            identity: SemanticId("alignment:particles:64".to_owned()),
            subject: subject.clone(),
            scope: scope.clone(),
            alignment: 64,
            evidence: Obligation {
                identity: SemanticId("obligation:alignment".to_owned()),
                subject: subject.clone(),
                requirement: SemanticId("requirement:alignment:64".to_owned()),
                status: ObligationStatus::Pass,
                freshness: EvidenceFreshness::Current,
                method: "exact-region-alignment-test".to_owned(),
            },
        })
    } else {
        None
    };
    RepresentationContext {
        logical_type: SemanticId("logical:particle-window".to_owned()),
        target: "host".to_owned(),
        spatial: SpatialFacts {
            subject,
            scope,
            contiguous: true,
            stride_bytes: Some(16),
            established_alignment: if aligned { Some(64) } else { None },
            field_order: vec!["x".to_owned(), "y".to_owned()],
            packed: false,
            stable_address: false,
            address_space: "host".to_owned(),
        },
        alignment,
        protected_observations: vec![RepresentationObservation::LogicalValues],
    }
}

#[test]
fn aligned_aosoa_is_selected_without_changing_logical_identity() {
    let fallback = candidate("rep:aos", LayoutFamily::ArrayOfStructures, None);
    let preferred = candidate("rep:aosoa:8", LayoutFamily::ArrayOfStructuresOfArrays { chunk_lanes: 8 }, Some(64));
    let decision = select_representation(&[preferred], &fallback, &context(true));
    assert_eq!(decision.status, ObligationStatus::Pass);
    assert_eq!(decision.selected, SemanticId("rep:aosoa:8".to_owned()));
    assert!(!decision.fallback_used);
}

#[test]
fn unknown_alignment_withholds_aosoa_and_keeps_aos_fallback() {
    let fallback = candidate("rep:aos", LayoutFamily::ArrayOfStructures, None);
    let preferred = candidate("rep:soa", LayoutFamily::StructureOfArrays, Some(64));
    let decision = select_representation(&[preferred], &fallback, &context(false));
    assert_eq!(decision.status, ObligationStatus::Unknown);
    assert_eq!(decision.selected, SemanticId("rep:aos".to_owned()));
    assert!(decision.fallback_used);
}

#[test]
fn physical_observation_blocks_an_incompatible_layout_change() {
    let fallback = candidate("rep:aos", LayoutFamily::ArrayOfStructures, None);
    let preferred = candidate("rep:soa", LayoutFamily::StructureOfArrays, None);
    let mut constrained = context(true);
    constrained.protected_observations.push(RepresentationObservation::PhysicalFieldOrder);
    let decision = select_representation(&[preferred], &fallback, &constrained);
    assert_eq!(decision.status, ObligationStatus::Fail);
}

#[test]
fn rejection_reasons_name_each_candidate_in_order() {
    let fallback = candidate("rep:aos", LayoutFamily::ArrayOfStructures, None);
    let mut other_type = candidate("rep:other", LayoutFamily::StructureOfArrays, None);
    other_type.logical_type = SemanticId("logical:else".to_owned());
    let mut other_target = candidate("rep:gpu", LayoutFamily::StructureOfArrays, None);
    other_target.applicable_targets = vec!["gpu".to_owned()];
    let zero_lanes = candidate("rep:aosoa:0", LayoutFamily::ArrayOfStructuresOfArrays { chunk_lanes: 0 }, None);
    let unaligned = candidate("rep:soa", LayoutFamily::StructureOfArrays, Some(64));
    let decision = select_representation(&[other_type, other_target, zero_lanes, unaligned], &fallback, &context(false));
    assert_eq!(decision.status, ObligationStatus::Unknown);
    assert_eq!(
        decision.reasons,
        vec![
            "rep:other: candidate is bound to another logical type".to_owned(),
            "rep:gpu: candidate does not apply to the selected target".to_owned(),
            "rep:aosoa:0: AoSoA chunk size must be nonzero".to_owned(),
            "rep:soa: alignment<64> is not currently evidenced".to_owned(),
        ]
    );
}

#[test]
fn failing_fallback_adds_its_own_reason() {
    let mut fallback = candidate("rep:aos", LayoutFamily::ArrayOfStructures, None);
    fallback.preserves = vec![];
    let mut ctx = context(true);
    ctx.spatial.contiguous = true;
    let decision = select_representation(&[], &fallback, &ctx);
    assert_eq!(decision.status, ObligationStatus::Fail);
    assert!(decision.fallback_used);
    assert_eq!(decision.reasons, vec!["rep:aos: candidate does not preserve LogicalValues".to_owned()]);
    let mut loose = context(true);
    loose.spatial.contiguous = false;
    let contiguous = candidate("rep:aos", LayoutFamily::ArrayOfStructures, None);
    let refused = select_representation(&[], &contiguous, &loose);
    assert_eq!(refused.reasons, vec!["rep:aos: contiguity is not established".to_owned()]);
}

#[test]
fn first_eligible_preferred_candidate_wins() {
    let fallback = candidate("rep:aos", LayoutFamily::ArrayOfStructures, None);
    let first = candidate("rep:soa", LayoutFamily::StructureOfArrays, None);
    let second = candidate("rep:aosoa:4", LayoutFamily::ArrayOfStructuresOfArrays { chunk_lanes: 4 }, None);
    let decision = select_representation(&[first, second], &fallback, &context(true));
    assert_eq!(decision.selected, SemanticId("rep:soa".to_owned()));
    assert!(decision.reasons.is_empty());
}
