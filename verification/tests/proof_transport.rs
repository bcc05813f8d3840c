use mncs_model::{
    attach_proof_relationship, proof_binding_refs, record_proof_evidence, validate_relationship_for_use,
    DepAssumptionSet, DepCorroboration, DepVerdict, EvidenceFreshness, ObligationRecord,
    ObligationStatus, ProofAdmissionEvidence, ProofRelationship, SemanticId, TransportMismatch,
    OBLIGATION_SCHEMA_VERSION, PROOF_EVIDENCE_RULE, PROOF_RELATIONSHIP_SCHEMA_VERSION,
};

fn synthetic_relationship() -> ProofRelationship {
    ProofRelationship {
        schema_version: PROOF_RELATIONSHIP_SCHEMA_VERSION.to_owned(),
        proof_identity: "mncs:proof-dep:test".to_owned(),
        obligation: "mncs:obligation:test".to_owned(),
        kernel: "mncs:proof-kernel:0.2".to_owned(),
        assumptions: DepAssumptionSet { uses: Vec::new(), valid: true },
        mncs_verdict: DepVerdict::Pass,
        sealed_binding: Vec::new(),
        admission: ProofAdmissionEvidence { program_fingerprint: "test".to_owned(), seal_steps: 1 },
        corroboration: DepCorroboration::AgreePass,
        dependencies: vec!["aa".to_owned(), "bb".to_owned()],
    }
}

#[test]
fn consumable_requires_every_leg() {
    let base = synthetic_relationship();
    assert!(base.consumable());
    let mut stale_schema = base.clone();
    stale_schema.schema_version = "0.0".to_owned();
    assert!(!stale_schema.consumable());
    let mut disputed = base.clone();
    disputed.corroboration = DepCorroboration::Disagree { mncs: DepVerdict::Pass, rust: DepVerdict::Fail };
    assert!(!disputed.consumable());
    let mut unavailable = base.clone();
    unavailable.corroboration = DepCorroboration::CheckerUnavailable;
    assert!(!unavailable.consumable());
    let mut non_pass = base.clone();
    non_pass.mncs_verdict = DepVerdict::Unknown;
    non_pass.corroboration = DepCorroboration::AgreeNonPass { verdict: DepVerdict::Unknown };
    assert!(!non_pass.consumable());
    let mut invalid_set = base.clone();
    invalid_set.assumptions.valid = false;
    assert!(!invalid_set.consumable());
}

#[test]
fn validation_rejects_each_drift_leg() {
    let base = synthetic_relationship();
    let deps = vec!["aa".to_owned(), "bb".to_owned()];
    assert!(validate_relationship_for_use(&base, "mncs:obligation:test", "mncs:proof-kernel:0.2", &deps).is_ok());
    assert_eq!(
        validate_relationship_for_use(&base, "mncs:obligation:other", "mncs:proof-kernel:0.2", &deps),
        Err(TransportMismatch::ObligationMismatch)
    );
    assert_eq!(
        validate_relationship_for_use(&base, "mncs:obligation:test", "mncs:proof-kernel:9.9", &deps),
        Err(TransportMismatch::KernelMismatch)
    );
    assert_eq!(
        validate_relationship_for_use(&base, "mncs:obligation:test", "mncs:proof-kernel:0.2", &["aa".to_owned()]),
        Err(TransportMismatch::DependencyMismatch)
    );
    let mut disputed = base.clone();
    disputed.corroboration = DepCorroboration::CheckerUnavailable;
    assert_eq!(
        validate_relationship_for_use(&disputed, "mncs:obligation:test", "mncs:proof-kernel:0.2", &deps),
        Err(TransportMismatch::NotConsumable)
    );
}

#[test]
fn consumability_is_checked_before_any_identity_leg() {
    let mut disputed = synthetic_relationship();
    disputed.mncs_verdict = DepVerdict::Fail;
    assert_eq!(
        validate_relationship_for_use(&disputed, "mncs:obligation:other", "other-kernel", &[]),
        Err(TransportMismatch::NotConsumable)
    );
    let base = synthetic_relationship();
    let swapped = vec!["bb".to_owned(), "aa".to_owned()];
    assert_eq!(
        validate_relationship_for_use(&base, "mncs:obligation:test", "mncs:proof-kernel:0.2", &swapped),
        Err(TransportMismatch::DependencyMismatch)
    );
}

#[test]
fn binding_ref_carries_the_exact_fields() {
    let base = synthetic_relationship();
    let reference = base.binding_ref("ffee");
    assert_eq!(reference.schema_version, PROOF_RELATIONSHIP_SCHEMA_VERSION);
    assert_eq!(reference.proof_identity, "mncs:proof-dep:test");
    assert_eq!(reference.obligation, "mncs:obligation:test");
    assert_eq!(reference.kernel, "mncs:proof-kernel:0.2");
    assert_eq!(reference.dependencies, vec!["aa".to_owned(), "bb".to_owned()]);
    assert_eq!(reference.ssa_fingerprint, "ffee");
}

#[test]
fn mismatch_messages_name_the_leg() {
    assert_eq!(TransportMismatch::NotConsumable.message(), "relationship is not consumable");
}

fn obligation(identity: &str) -> ObligationRecord {
    ObligationRecord {
        schema_version: OBLIGATION_SCHEMA_VERSION.to_owned(),
        identity: SemanticId(identity.to_owned()),
        subject: SemanticId("operation:add".to_owned()),
        requirement: SemanticId("requirement:no-overflow".to_owned()),
        status: ObligationStatus::Unknown,
        method: "test".to_owned(),
        assumptions: Vec::new(),
        dependencies: Vec::new(),
        freshness: EvidenceFreshness::Unknown,
        fallback: None,
    }
}

#[test]
fn attachment_requires_a_live_obligation_and_replaces_by_proof() {
    let deps = vec!["aa".to_owned(), "bb".to_owned()];
    let mut attached: Vec<ProofRelationship> = Vec::new();
    assert_eq!(
        attach_proof_relationship(&mut attached, &[], synthetic_relationship(), &deps),
        Err(TransportMismatch::ObligationAbsent)
    );
    assert!(attached.is_empty());
    let live = [obligation("mncs:obligation:test")];
    assert_eq!(attach_proof_relationship(&mut attached, &live, synthetic_relationship(), &deps), Ok(()));
    assert_eq!(attached.len(), 1);
    let mut newer = synthetic_relationship();
    newer.admission.seal_steps = 9;
    assert_eq!(attach_proof_relationship(&mut attached, &live, newer, &deps), Ok(()));
    assert_eq!(attached.len(), 1);
    assert_eq!(attached[0].admission.seal_steps, 9);
    let mut other = synthetic_relationship();
    other.proof_identity = "mncs:proof-dep:other".to_owned();
    assert_eq!(attach_proof_relationship(&mut attached, &live, other.clone(), &deps), Ok(()));
    assert_eq!(attached.len(), 2);
    assert_eq!(
        attach_proof_relationship(&mut attached, &live, other, &["aa".to_owned()]),
        Err(TransportMismatch::DependencyMismatch)
    );
    assert_eq!(attached.len(), 2);
}

#[test]
fn evidence_is_recorded_only_when_every_leg_agrees() {
    let stage = SemanticId("mncs:test:ssa".to_owned());
    let operation = SemanticId("operation:add".to_owned());
    let deps = vec!["aa".to_owned(), "bb".to_owned()];
    let attached = vec![synthetic_relationship()];
    let mut transformations = Vec::new();
    let recorded = record_proof_evidence(
        &stage, &attached, &mut transformations, "mncs:proof-dep:test", &operation, "mncs:obligation:test", &deps, true,
    );
    assert!(recorded.recorded);
    assert_eq!(recorded.reason, "MNCS-admitted proof mncs:proof-dep:test corroborated and current; evidence recorded");
    assert_eq!(recorded.record.evidence_consumed, vec![SemanticId("mncs:proof-dep:test".to_owned())]);
    assert_eq!(recorded.record.rule, PROOF_EVIDENCE_RULE);
    assert_eq!(recorded.record.obligations_required, vec![SemanticId("mncs:obligation:test".to_owned())]);
    assert_eq!(transformations.len(), 1);
    assert_eq!(transformations[0], recorded.record);
    let refused = record_proof_evidence(
        &stage, &attached, &mut transformations, "mncs:proof-dep:test", &operation, "mncs:obligation:test", &deps, false,
    );
    assert!(!refused.recorded);
    assert_eq!(refused.reason, "MNCS reuse check refused; evidence withheld");
    assert_eq!(refused.record.invalidated_evidence, vec![SemanticId("mncs:proof-dep:test".to_owned())]);
    let drifted = record_proof_evidence(
        &stage, &attached, &mut transformations, "mncs:proof-dep:test", &operation, "mncs:obligation:other", &deps, true,
    );
    assert!(!drifted.recorded);
    assert_eq!(drifted.reason, "proof relationship drifted from the current use; evidence withheld");
    let absent = record_proof_evidence(
        &stage, &attached, &mut transformations, "mncs:proof-dep:none", &operation, "mncs:obligation:test", &deps, true,
    );
    assert!(!absent.recorded);
    assert_eq!(absent.reason, "no such proof relationship is attached to this SSA");
    assert_eq!(transformations.len(), 4);
    assert_eq!(recorded.record.identity, refused.record.identity);
}

#[test]
fn binding_refs_are_sorted_deduped_and_ssa_bound() {
    let mut second = synthetic_relationship();
    second.proof_identity = "mncs:proof-dep:b".to_owned();
    let mut first = synthetic_relationship();
    first.proof_identity = "mncs:proof-dep:a".to_owned();
    // Out of order with a duplicate: the refs must canonicalize.
    let fingerprint = "ssa-fingerprint";
    let refs = proof_binding_refs(&[second.clone(), first.clone(), second.clone()], fingerprint);
    assert_eq!(refs.len(), 2, "duplicate refs collapse");
    assert_eq!(refs[0].proof_identity, "mncs:proof-dep:a");
    assert_eq!(refs[1].proof_identity, "mncs:proof-dep:b");
    for reference in &refs {
        assert_eq!(reference.schema_version, PROOF_RELATIONSHIP_SCHEMA_VERSION);
        assert_eq!(reference.ssa_fingerprint, fingerprint);
        assert_eq!(reference.obligation, "mncs:obligation:test");
        assert_eq!(reference.kernel, "mncs:proof-kernel:0.2");
    }
    // Proof-free stages yield no refs, so proof-free artifacts are untouched.
    assert!(proof_binding_refs(&[], fingerprint).is_empty());
}

#[test]
fn binding_refs_order_by_every_key_and_keep_distinct_schemas() {
    let mut a = synthetic_relationship();
    a.dependencies = vec!["aa".to_owned(), "cc".to_owned()];
    let mut b = synthetic_relationship();
    b.dependencies = vec!["aa".to_owned(), "bb".to_owned()];
    let mut c = synthetic_relationship();
    c.dependencies = vec!["aa".to_owned()];
    let mut older = synthetic_relationship();
    older.schema_version = "0.0".to_owned();
    older.dependencies = vec!["aa".to_owned()];
    let refs = proof_binding_refs(&[a, b, c.clone(), older, c], "fp");
    let deps: Vec<Vec<String>> = refs.iter().map(|r| r.dependencies.clone()).collect();
    assert_eq!(
        deps,
        vec![
            vec!["aa".to_owned()],
            vec!["aa".to_owned()],
            vec!["aa".to_owned(), "bb".to_owned()],
            vec!["aa".to_owned(), "cc".to_owned()],
        ]
    );
    let schemas: Vec<&str> = refs.iter().take(2).map(|r| r.schema_version.as_str()).collect();
    assert_eq!(schemas, vec!["0.0", PROOF_RELATIONSHIP_SCHEMA_VERSION]);
    // Equal references separated by another schema still appear once.
    let mut other = synthetic_relationship();
    other.schema_version = "0.0".to_owned();
    let base = synthetic_relationship();
    let refs = proof_binding_refs(&[base.clone(), other, base], "fp");
    assert_eq!(refs.len(), 2);
    assert_ne!(refs[0], refs[1]);
}
