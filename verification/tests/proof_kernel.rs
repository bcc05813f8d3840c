use mncs_model::{
    kernel_backed_range_result, ArithmeticIntent, EvidenceFreshness, IntegerOperation, IntegerType,
    ObligationRecord, ObligationStatus, RangeQuery, OBLIGATION_SCHEMA_VERSION,
};
use mncs_model::{
    reference_check, ProofArtifact, ProofBinding, ProofCell, ProofTag, ProofVerdict, SemanticId,
    PROOF_BUFFER_CAPACITY, PROOF_KERNEL_ID,
};

fn test_cells() -> Vec<ProofCell> {
    // Eq Nat Zero Zero by Refl, padded to the buffer capacity.
    let mut cells = vec![
        ProofCell::new(ProofTag::Nat, [0, 0, 0, 0]),
        ProofCell::new(ProofTag::Zero, [0, 0, 0, 0]),
        ProofCell::new(ProofTag::Eq, [0, 1, 1, 0]),
        ProofCell::new(ProofTag::Refl, [1, 2, 0, 0]),
    ];
    while cells.len() < PROOF_BUFFER_CAPACITY {
        cells.push(ProofCell::new(ProofTag::Nat, [0, 0, 0, 0]));
    }
    cells
}

fn test_artifact(cells: Vec<ProofCell>, count: usize, proof: usize, proposition: usize) -> ProofArtifact {
    ProofArtifact::new(
        PROOF_KERNEL_ID,
        SemanticId("mncs:test:obligation".to_owned()),
        Vec::new(),
        vec![SemanticId("mncs:test:dependency".to_owned())],
        cells,
        count,
        proof,
        proposition,
    )
}

#[test]
fn reference_accepts_minimal_closed_theorem() {
    let artifact = test_artifact(test_cells(), 4, 3, 2);
    assert!(artifact.identity_is_valid());
    assert_eq!(reference_check(&artifact), ProofVerdict::Pass);
}

#[test]
fn reference_computes_closed_plus() {
    // 2 + 3 = 5 witnessed by Refl over a kernel-computed Plus.
    let mut cells = vec![
        ProofCell::new(ProofTag::Nat, [0, 0, 0, 0]),  // 0
        ProofCell::new(ProofTag::Zero, [0, 0, 0, 0]), // 1
        ProofCell::new(ProofTag::Succ, [1, 0, 0, 0]), // 2
        ProofCell::new(ProofTag::Succ, [2, 0, 0, 0]), // 3
        ProofCell::new(ProofTag::Succ, [3, 0, 0, 0]), // 4
        ProofCell::new(ProofTag::Succ, [4, 0, 0, 0]), // 5
        ProofCell::new(ProofTag::Succ, [5, 0, 0, 0]), // 6
        ProofCell::new(ProofTag::Plus, [3, 4, 0, 0]), // 7
        ProofCell::new(ProofTag::Eq, [0, 7, 6, 0]),   // 8
        ProofCell::new(ProofTag::Refl, [7, 8, 0, 0]), // 9
    ];
    while cells.len() < PROOF_BUFFER_CAPACITY {
        cells.push(ProofCell::new(ProofTag::Nat, [0, 0, 0, 0]));
    }
    let artifact = test_artifact(cells, 10, 9, 8);
    assert_eq!(reference_check(&artifact), ProofVerdict::Pass);
}

#[test]
fn reference_rejects_wrong_equality_sides() {
    let mut cells = test_cells();
    cells[2] = ProofCell::new(ProofTag::Eq, [0, 1, 1, 0]);
    cells[3] = ProofCell::new(ProofTag::Refl, [1, 2, 0, 0]);
    cells.insert(2, ProofCell::new(ProofTag::Succ, [1, 0, 0, 0]));
    cells.pop();
    // Buffer: Nat, Zero, Succ(Zero), Eq Nat Zero (Succ Zero), Refl(Zero).
    cells[3] = ProofCell::new(ProofTag::Eq, [0, 1, 2, 0]);
    cells[4] = ProofCell::new(ProofTag::Refl, [1, 3, 0, 0]);
    let artifact = test_artifact(cells, 5, 4, 3);
    assert_eq!(reference_check(&artifact), ProofVerdict::Fail);
}

#[test]
fn reference_rejects_forward_references_and_cycles() {
    let mut cells = test_cells();
    cells[1] = ProofCell::new(ProofTag::Succ, [5, 0, 0, 0]);
    let artifact = test_artifact(cells, 2, 1, 0);
    assert_eq!(reference_check(&artifact), ProofVerdict::Fail);
}

#[test]
fn reference_rejects_universe_ceiling_breach() {
    let mut cells = test_cells();
    cells[0] = ProofCell::new(ProofTag::Universe, [3, 0, 0, 0]);
    let artifact = test_artifact(vec![cells[0].clone()], 1, 0, 0);
    assert_eq!(reference_check(&artifact), ProofVerdict::Fail);
}

#[test]
fn reference_holds_unknown_for_unsupported_terms() {
    let mut cells = test_cells();
    cells[1] = ProofCell::new(ProofTag::Unsupported, [0, 0, 0, 0]);
    let artifact = test_artifact(cells, 4, 3, 2);
    // The unsupported cell poisons the pass, but the mismatched claim
    // also fails: FAIL dominates UNKNOWN in the join.
    assert_eq!(reference_check(&artifact), ProofVerdict::Fail);
}

#[test]
fn reference_holds_pure_unknown_for_open_dependent_claim() {
    // Dependent lambda over an Eq motive: per-cell rules pass, the open
    // proof term keeps the verdict at UNKNOWN.
    let mut cells = vec![
        ProofCell::new(ProofTag::Universe, [0, 0, 0, 0]), // 0
        ProofCell::new(ProofTag::Nat, [0, 0, 0, 0]),      // 1
        ProofCell::new(ProofTag::Pi, [1, 1, 0, 0]),       // 2
        ProofCell::new(ProofTag::Var, [2, 0, 0, 0]),      // 3
        ProofCell::new(ProofTag::Eq, [1, 3, 3, 0]),       // 4
        ProofCell::new(ProofTag::Pi, [4, 4, 0, 0]),       // 5
        ProofCell::new(ProofTag::Var, [5, 0, 0, 0]),      // 6
        ProofCell::new(ProofTag::Lambda, [4, 6, 5, 0]),   // 7
    ];
    while cells.len() < PROOF_BUFFER_CAPACITY {
        cells.push(ProofCell::new(ProofTag::Nat, [0, 0, 0, 0]));
    }
    let artifact = test_artifact(cells, 8, 7, 5);
    assert_eq!(reference_check(&artifact), ProofVerdict::Unknown);
}

#[test]
fn artifact_identity_tampering_fails_closed() {
    let mut artifact = test_artifact(test_cells(), 4, 3, 2);
    artifact.cells[1] = ProofCell::new(ProofTag::Succ, [1, 0, 0, 0]);
    assert!(!artifact.identity_is_valid());
    assert!(ProofBinding::bind(&artifact, Vec::new()).is_none());
}

#[test]
fn binding_requires_exact_kernel_and_pass() {
    let artifact = test_artifact(test_cells(), 4, 3, 2);
    let dependencies = vec![(
        SemanticId("mncs:test:dependency".to_owned()),
        "fingerprint".to_owned(),
    )];
    let binding = ProofBinding::bind(&artifact, dependencies.clone()).expect("bind");
    assert!(binding.reusable_if(
        &artifact.identity,
        PROOF_KERNEL_ID,
        &artifact.obligation,
        &[],
        &dependencies,
        ProofVerdict::Pass,
    ));
    // Wrong kernel version invalidates reuse.
    assert!(!binding.reusable_if(
        &artifact.identity,
        "mncs:proof-kernel:9.9",
        &artifact.obligation,
        &[],
        &dependencies,
        ProofVerdict::Pass,
    ));
    // Changed obligation identity invalidates reuse.
    assert!(!binding.reusable_if(
        &artifact.identity,
        PROOF_KERNEL_ID,
        &SemanticId("mncs:test:other-obligation".to_owned()),
        &[],
        &dependencies,
        ProofVerdict::Pass,
    ));
    // Changed dependency fingerprints invalidate reuse.
    let changed = vec![(
        SemanticId("mncs:test:dependency".to_owned()),
        "changed".to_owned(),
    )];
    assert!(!binding.reusable_if(
        &artifact.identity,
        PROOF_KERNEL_ID,
        &artifact.obligation,
        &[],
        &changed,
        ProofVerdict::Pass,
    ));
}

#[test]
fn oversized_buffer_and_out_of_range_indices_fail() {
    let mut cells = test_cells();
    cells.push(ProofCell::new(ProofTag::Nat, [0, 0, 0, 0]));
    assert_eq!(reference_check(&test_artifact(cells, 4, 3, 2)), ProofVerdict::Fail);
    assert_eq!(reference_check(&test_artifact(test_cells(), PROOF_BUFFER_CAPACITY + 1, 3, 2)), ProofVerdict::Fail);
    assert_eq!(reference_check(&test_artifact(test_cells(), 4, 4, 2)), ProofVerdict::Fail);
    assert_eq!(reference_check(&test_artifact(test_cells(), 4, 3, 7)), ProofVerdict::Fail);
}

#[test]
fn binding_refuses_other_kernels_and_failed_proofs() {
    let foreign = ProofArtifact::new(
        "mncs:proof-kernel:9.9",
        SemanticId("mncs:test:obligation".to_owned()),
        Vec::new(),
        Vec::new(),
        test_cells(),
        4,
        3,
        2,
    );
    assert!(foreign.identity_is_valid());
    assert!(ProofBinding::bind(&foreign, Vec::new()).is_none());
    let mut cells = test_cells();
    cells[1] = ProofCell::new(ProofTag::Succ, [5, 0, 0, 0]);
    let failing = test_artifact(cells, 2, 1, 0);
    assert!(ProofBinding::bind(&failing, Vec::new()).is_none());
}

#[test]
fn binding_compares_assumptions_as_a_set() {
    let artifact = ProofArtifact::new(
        PROOF_KERNEL_ID,
        SemanticId("mncs:test:obligation".to_owned()),
        vec![SemanticId("b".to_owned()), SemanticId("a".to_owned()), SemanticId("b".to_owned())],
        Vec::new(),
        test_cells(),
        4,
        3,
        2,
    );
    let binding = ProofBinding::bind(&artifact, Vec::new()).expect("bind");
    assert_eq!(binding.assumptions, vec![SemanticId("a".to_owned()), SemanticId("b".to_owned())]);
    let expected = [SemanticId("a".to_owned()), SemanticId("b".to_owned())];
    assert!(binding.reusable_if(&artifact.identity, PROOF_KERNEL_ID, &artifact.obligation, &expected, &[], ProofVerdict::Pass));
    assert!(!binding.reusable_if(&artifact.identity, PROOF_KERNEL_ID, &artifact.obligation, &expected, &[], ProofVerdict::Unknown));
    assert!(!binding.reusable_if(&artifact.identity, PROOF_KERNEL_ID, &artifact.obligation, &[], &[], ProofVerdict::Pass));
}

#[test]
fn artifact_sorts_and_dedups_its_identity_sets() {
    let artifact = ProofArtifact::new(
        PROOF_KERNEL_ID,
        SemanticId("mncs:test:obligation".to_owned()),
        vec![SemanticId("z".to_owned()), SemanticId("a".to_owned()), SemanticId("z".to_owned())],
        vec![SemanticId("d2".to_owned()), SemanticId("d1".to_owned())],
        test_cells(),
        4,
        3,
        2,
    );
    assert_eq!(artifact.assumptions, vec![SemanticId("a".to_owned()), SemanticId("z".to_owned())]);
    assert_eq!(artifact.dependencies, vec![SemanticId("d1".to_owned()), SemanticId("d2".to_owned())]);
    let again = ProofArtifact::new(
        PROOF_KERNEL_ID,
        SemanticId("mncs:test:obligation".to_owned()),
        vec![SemanticId("a".to_owned()), SemanticId("z".to_owned())],
        vec![SemanticId("d1".to_owned()), SemanticId("d2".to_owned())],
        test_cells(),
        4,
        3,
        2,
    );
    assert_eq!(artifact.identity, again.identity);
}

#[test]
fn reference_types_lambda_application_but_keeps_open_terms_unknown() {
    let cells = vec![
        ProofCell::new(ProofTag::Universe, [0, 0, 0, 0]), // 0
        ProofCell::new(ProofTag::Nat, [0, 0, 0, 0]),      // 1
        ProofCell::new(ProofTag::Pi, [1, 1, 0, 0]),       // 2: Nat -> Nat
        ProofCell::new(ProofTag::Zero, [0, 0, 0, 0]),     // 3
        ProofCell::new(ProofTag::Var, [2, 0, 0, 0]),      // 4: bound by 2, of type Nat
        ProofCell::new(ProofTag::Lambda, [1, 4, 2, 0]),   // 5: identity on Nat
        ProofCell::new(ProofTag::Apply, [5, 3, 0, 0]),    // 6: (identity Zero) : Nat
    ];
    // The application is well typed, but its term mentions a bound variable.
    assert_eq!(reference_check(&test_artifact(cells.clone(), 7, 6, 1)), ProofVerdict::Unknown);
    // The lambda inhabits its Pi claim only up to that same openness.
    assert_eq!(reference_check(&test_artifact(cells.clone(), 7, 5, 2)), ProofVerdict::Unknown);
    // A closed term of the right type passes.
    assert_eq!(reference_check(&test_artifact(cells.clone(), 7, 3, 1)), ProofVerdict::Pass);
    // A Nat is no inhabitant of a universe-level claim it does not match.
    assert_eq!(reference_check(&test_artifact(cells, 7, 3, 0)), ProofVerdict::Fail);
}

#[test]
fn kernel_backed_range_result_is_fail_closed() {
    let operation = IntegerOperation {
        operator: "add".to_owned(),
        operand_type: IntegerType { bits: 64, signed: true },
        left: 2,
        right: 3,
        intent: ArithmeticIntent::Checked,
    };
    let subject = operation.identity();
    let obligation = ObligationRecord {
        schema_version: OBLIGATION_SCHEMA_VERSION.to_owned(),
        identity: SemanticId("mncs:test:obligation".to_owned()),
        subject: subject.clone(),
        requirement: SemanticId("requirement:no-overflow".to_owned()),
        status: ObligationStatus::Unknown,
        method: "test".to_owned(),
        assumptions: Vec::new(),
        dependencies: vec![subject.clone()],
        freshness: EvidenceFreshness::Unknown,
        fallback: None,
    };
    let fingerprints = vec![(subject.clone(), "operation".to_owned())];
    let request = RangeQuery {
        obligation: obligation.clone(),
        subject: subject.clone(),
        scope: "test".to_owned(),
        assumptions: Vec::new(),
        dependencies: vec![subject.clone()],
        dependency_fingerprints: fingerprints.clone(),
    };
    let artifact = ProofArtifact::new(
        PROOF_KERNEL_ID,
        obligation.identity.clone(),
        Vec::new(),
        vec![subject.clone()],
        test_cells(),
        4,
        3,
        2,
    );
    let binding = ProofBinding::bind(&artifact, fingerprints.clone()).expect("bind test proof");
    let result = kernel_backed_range_result(&request, &operation, &binding);
    assert_eq!(result.status, ObligationStatus::Pass);
    assert_eq!(result.verifier.name, "mncs-proof-kernel");
    assert_eq!(result.authority, mncs_model::EvidenceAuthorityClass::KernelProof);
    assert_eq!(result.method, mncs_model::VerifierMethod::KernelProof);
    assert_eq!(result.verifier.independence, mncs_model::VerifierIndependence::IndependentImplementation);
    assert_eq!(result.limitations.len(), 3);
    let mut wrong = request.clone();
    wrong.obligation.identity = SemanticId("mncs:test:other".to_owned());
    assert_eq!(kernel_backed_range_result(&wrong, &operation, &binding).status, ObligationStatus::Fail);
    let mut overflowing = operation.clone();
    overflowing.left = i64::MAX as i128;
    overflowing.right = 1;
    assert_eq!(kernel_backed_range_result(&request, &overflowing, &binding).status, ObligationStatus::Fail);
    let mut elsewhere = request.clone();
    elsewhere.subject = SemanticId("mncs:test:elsewhere".to_owned());
    assert_eq!(kernel_backed_range_result(&elsewhere, &operation, &binding).status, ObligationStatus::Fail);
}
