use mncs_model::{
    CapabilityUse, MachineIntentLinks, PathKind,
    EvidenceAuthorityClass, VerifierIdentity, VerifierIndependence, VerifierMethod, VerifierResult,
    DepAssumptionSet, DepCorroboration, DepVerdict, ProofAdmissionEvidence, ProofRelationship,
    TransportMismatch, PROOF_RELATIONSHIP_SCHEMA_VERSION,
    ArithmeticIntent, BodyCyclePolicy, EvidenceFreshness, IntegerType, IrType, IterationCeilings,
    IterationDomain, ObligationRecord, ObligationStatus, SemanticId, SsaBlock, SsaBoundedIteration,
    SsaFunction, SsaInstruction, SsaInstructionKind, SsaModule, SsaTerminator, SsaTraceEntry, SsaTraceMap,
    SsaValue, OBLIGATION_SCHEMA_VERSION, SSA_SCHEMA_VERSION,
};

const CEILINGS: IterationCeilings = IterationCeilings { attempts: 64, sequence: 1024 };

fn id(text: &str) -> SemanticId {
    SemanticId(text.to_owned())
}

fn ids(texts: &[&str]) -> Vec<SemanticId> {
    texts.iter().map(|t| id(t)).collect()
}

fn value(identity: &str, ty: &str) -> SsaValue {
    SsaValue {
        identity: id(identity),
        semantic_identity: None,
        ty: IrType::Named(ty.to_owned()),
        producer: None,
        block: id("f"),
    }
}

fn other(identity: &str, inputs: &[&str], outputs: Vec<SsaValue>) -> SsaInstruction {
    SsaInstruction {
        identity: id(identity),
        semantic_identity: None,
        hir_identity: None,
        kind: SsaInstructionKind::Other { kind: "copy".to_owned() },
        inputs: ids(inputs),
        outputs,
        effects: Vec::new(),
        capability_uses: Vec::new(),
        contracts: Vec::new(),
        assumptions: Vec::new(),
        evidence: Vec::new(),
        machine_intent: None,
        obligations: Vec::new(),
    }
}

fn block(identity: &str, instructions: Vec<SsaInstruction>, terminator: SsaTerminator) -> SsaBlock {
    SsaBlock {
        identity: id(identity),
        semantic_identity: None,
        path: PathKind::Normal,
        parameters: Vec::new(),
        instructions,
        terminator,
        failure_target: None,
    }
}

fn links(operation: &str, obligations: &[&str]) -> MachineIntentLinks {
    MachineIntentLinks {
        operation_identity: id(operation),
        intent_identity: id("intent:checked"),
        fact_identities: Vec::new(),
        preference_identities: Vec::new(),
        requirement_identities: Vec::new(),
        obligation_identities: ids(obligations),
        capability_identities: Vec::new(),
    }
}

fn uses(capabilities: &[&str]) -> Vec<CapabilityUse> {
    capabilities.iter().map(|c| CapabilityUse { capability: id(c), semantic_declaration: None }).collect()
}

fn ret(values: &[&str]) -> SsaTerminator {
    SsaTerminator::Return { values: ids(values) }
}

fn branch(target: &str, arguments: &[&str]) -> SsaTerminator {
    SsaTerminator::Branch { target: id(target), arguments: ids(arguments) }
}

fn function(identity: &str, blocks: Vec<SsaBlock>) -> SsaFunction {
    SsaFunction {
        identity: id(identity),
        semantic_identity: id(&format!("{identity}:semantic")),
        inputs: vec![value("x", "u64")],
        outputs: vec![value("result", "u64")],
        cycle_policy: BodyCyclePolicy::Legacy,
        bounded_iterations: Vec::new(),
        blocks,
    }
}

fn module(functions: Vec<SsaFunction>) -> SsaModule {
    let trace = functions
        .iter()
        .map(|f| SsaTraceEntry {
            semantic_identity: f.semantic_identity.clone(),
            hir_identities: Vec::new(),
            ssa_identities: vec![f.identity.clone()],
        })
        .collect();
    SsaModule {
        schema_version: SSA_SCHEMA_VERSION.to_owned(),
        identity: id("ssa:module"),
        semantic_identity: id("mncs:0.2:program:Example"),
        hir_fingerprint: "hir".to_owned(),
        record_types: Vec::new(),
        functions,
        obligations: Vec::new(),
        trace: SsaTraceMap { entries: trace },
        transformations: Vec::new(),
        proof_relationships: Vec::new(),
    }
}

fn obligation(identity: &str) -> ObligationRecord {
    ObligationRecord {
        schema_version: OBLIGATION_SCHEMA_VERSION.to_owned(),
        identity: id(identity),
        subject: id("operation:add"),
        requirement: id("requirement:no-overflow"),
        status: ObligationStatus::Unknown,
        method: "test".to_owned(),
        assumptions: Vec::new(),
        dependencies: Vec::new(),
        freshness: EvidenceFreshness::Unknown,
        fallback: None,
    }
}

fn codes(module: &SsaModule) -> Vec<(String, String)> {
    module.validate(CEILINGS).errors.into_iter().map(|d| (d.code, d.path)).collect()
}

fn pair(code: &str, path: &str) -> (String, String) {
    (code.to_owned(), path.to_owned())
}

fn straight_line() -> SsaFunction {
    function("f", vec![block("b0", vec![other("i0", &["x"], vec![value("y", "u64")])], ret(&["y"]))])
}

#[test]
fn ssa_validation_accepts_a_straight_line_function() {
    let report = module(vec![straight_line()]).validate(CEILINGS);
    assert!(report.valid);
    assert!(report.errors.is_empty());
}

#[test]
fn ssa_validation_reports_an_undefined_operand() {
    let f = function("f", vec![block("b0", vec![other("i0", &["missing"], vec![value("y", "u64")])], ret(&["y"]))]);
    let report = module(vec![f]).validate(CEILINGS);
    assert!(!report.valid);
    assert_eq!(report.errors.len(), 1);
    assert_eq!(report.errors[0].code, "SSA006");
    assert_eq!(report.errors[0].path, "functions[0]");
    assert_eq!(report.errors[0].message, "SSA operand is undefined or not dominated");
}

#[test]
fn ssa_validation_reports_a_value_from_a_non_dominating_block() {
    let mut f = function(
        "f",
        vec![
            block(
                "b0",
                Vec::new(),
                SsaTerminator::ConditionalBranch {
                    condition: id("x"),
                    then_target: id("b1"),
                    then_arguments: Vec::new(),
                    else_target: id("b2"),
                    else_arguments: Vec::new(),
                },
            ),
            block("b1", vec![other("i1", &["x"], vec![value("y", "u64")])], branch("b3", &[])),
            block("b2", Vec::new(), branch("b3", &[])),
            block("b3", vec![other("i3", &["y"], vec![value("z", "u64")])], ret(&["z"])),
        ],
    );
    assert_eq!(codes(&module(vec![f.clone()])), vec![pair("SSA006", "functions[0]")]);
    // The same use inside the defining block's dominated successor is fine.
    f.blocks[2].terminator = ret(&["x"]);
    f.blocks[3] = block("b3", vec![other("i3", &["y"], vec![value("z", "u64")])], ret(&["z"]));
    f.blocks[1].terminator = branch("b3", &[]);
    f.blocks[0].terminator = branch("b1", &[]);
    f.blocks.remove(2);
    assert!(module(vec![f]).validate(CEILINGS).valid);
}

#[test]
fn ssa_validation_rejects_an_unbounded_cycle_only_under_the_bounded_policy() {
    let mut f = function("f", vec![block("b0", Vec::new(), branch("b1", &[])), block("b1", Vec::new(), branch("b1", &[]))]);
    assert!(module(vec![f.clone()]).validate(CEILINGS).valid);
    f.cycle_policy = BodyCyclePolicy::BoundedIterationOnly;
    let report = module(vec![f]).validate(CEILINGS);
    assert_eq!(report.errors.len(), 1);
    assert_eq!(report.errors[0].code, "SSA018");
    assert_eq!(report.errors[0].message, "SSA cycle is not an exact semantically bounded iteration backedge");
}

#[test]
fn ssa_validation_reports_duplicate_and_unreachable_blocks() {
    let duplicate = function("f", vec![block("b0", Vec::new(), ret(&["x"])), block("b0", Vec::new(), ret(&["x"]))]);
    assert_eq!(codes(&module(vec![duplicate])), vec![pair("SSA003", "functions[0]")]);
    let unreachable = function("f", vec![block("b0", Vec::new(), ret(&["x"])), block("b1", Vec::new(), ret(&["x"]))]);
    assert_eq!(codes(&module(vec![unreachable])), vec![pair("SSA005", "functions[0]")]);
    let unknown = function("f", vec![block("b0", Vec::new(), branch("nowhere", &[]))]);
    assert_eq!(codes(&module(vec![unknown])), vec![pair("SSA004", "functions[0]")]);
}

#[test]
fn ssa_validation_reports_duplicate_definitions_and_return_arity() {
    let f = function(
        "f",
        vec![block("b0", vec![other("i0", &["x"], vec![value("x", "u64")])], ret(&["x", "x"]))],
    );
    assert_eq!(codes(&module(vec![f])), vec![pair("SSA002", "functions[0]"), pair("SSA009", "functions[0]")]);
}

#[test]
fn ssa_validation_checks_branch_arguments_against_parameters() {
    let mut target = block("b1", Vec::new(), ret(&["p"]));
    target.parameters = vec![value("p", "u64")];
    let arity = function("f", vec![block("b0", Vec::new(), branch("b1", &[])), target.clone()]);
    assert_eq!(codes(&module(vec![arity])), vec![pair("SSA007", "functions[0]")]);
    let mut typed = function("f", vec![block("b0", Vec::new(), branch("b1", &["x"])), target.clone()]);
    typed.inputs = vec![value("x", "bool")];
    assert_eq!(codes(&module(vec![typed])), vec![pair("SSA008", "functions[0]")]);
    let fine = function("f", vec![block("b0", Vec::new(), branch("b1", &["x"])), target]);
    assert!(module(vec![fine]).validate(CEILINGS).valid);
}

#[test]
fn ssa_validation_checks_instruction_kinds() {
    let mut add = other("add", &["x"], vec![value("y", "u64")]);
    add.kind = SsaInstructionKind::Integer {
        operator: "add".to_owned(),
        operand_type: IntegerType { bits: 64, signed: false },
        intent: ArithmeticIntent::Checked,
    };
    let f = function("f", vec![block("b0", vec![add.clone()], ret(&["y"]))]);
    assert_eq!(
        codes(&module(vec![f])),
        vec![pair("SSA012", "functions[0]"), pair("SSA013", "functions[0]")]
    );
    add.machine_intent = Some(links("operation:add", &["obligation:add"]));
    add.obligations = ids(&["obligation:add"]);
    let f = function("f", vec![block("b0", vec![add.clone()], ret(&["y"]))]);
    assert_eq!(codes(&module(vec![f.clone()])), vec![pair("SSA011", "functions[0]")]);
    let mut known = module(vec![f]);
    known.obligations = vec![obligation("obligation:add")];
    assert!(known.validate(CEILINGS).valid);

    let mut effect = other("print", &["x"], Vec::new());
    effect.kind = SsaInstructionKind::Effect;
    let f = function("f", vec![block("b0", vec![effect], ret(&["x"]))]);
    assert_eq!(codes(&module(vec![f])), vec![pair("SSA010", "functions[0]")]);

    let mut call = other("call", &["x"], vec![value("y", "u64")]);
    call.kind = SsaInstructionKind::Call { function: id("g:semantic"), required_capabilities: ids(&["cap:io"]) };
    let f = function("f", vec![block("b0", vec![call.clone()], ret(&["y"]))]);
    assert_eq!(
        codes(&module(vec![f])),
        vec![pair("SSA016", "functions[0]"), pair("SSA017", "functions[0]")]
    );
    call.capability_uses = uses(&["cap:io"]);
    let caller = function("f", vec![block("b0", vec![call], ret(&["y"]))]);
    let callee = function("g", vec![block("b0", Vec::new(), ret(&["x"]))]);
    assert!(module(vec![caller, callee]).validate(CEILINGS).valid);
}

#[test]
fn ssa_validation_checks_bounded_iterations() {
    let mut f = straight_line();
    f.bounded_iterations = vec![SsaBoundedIteration {
        identity: id("loop"),
        bound: 0,
        domain: IterationDomain::Attempts,
        state_type: IrType::Named("u64".to_owned()),
        preheader: id("b0"),
        header: id("missing"),
        body_entry: id("b0"),
        backedge: id("b0"),
        exit: id("b0"),
        body_blocks: Vec::new(),
        callees: Vec::new(),
        required_capabilities: Vec::new(),
        obligations: Vec::new(),
    }];
    assert_eq!(
        codes(&module(vec![f.clone()])),
        vec![pair("SSA019", "functions[0]"), pair("SSA020", "functions[0]")]
    );
    f.bounded_iterations[0].bound = 3;
    f.bounded_iterations[0].header = id("b0");
    assert_eq!(
        codes(&module(vec![f.clone()])),
        vec![pair("SSA021", "functions[0]"), pair("SSA023", "functions[0]")]
    );
    f.bounded_iterations[0].domain = IterationDomain::OverSequence;
    f.bounded_iterations[0].bound = 2000;
    let errors = module(vec![f]).validate(CEILINGS).errors;
    assert_eq!(errors[0].code, "SSA019");
    assert_eq!(errors[0].message, "SSA sequence traversal exceeds the declared profile ceiling");
}

#[test]
fn ssa_validation_reports_module_level_duplicates_with_their_index() {
    let mut m = module(vec![straight_line(), straight_line()]);
    assert_eq!(codes(&m), vec![pair("SSA001", "functions[1]"), pair("SSA014", "trace.entries[1]")]);
    m.trace.entries[1].ssa_identities.clear();
    assert_eq!(
        codes(&m),
        vec![
            pair("SSA001", "functions[1]"),
            pair("SSA014", "trace.entries[1]"),
            pair("SSA015", "trace.entries[1]"),
        ]
    );
}

fn relationship() -> ProofRelationship {
    ProofRelationship {
        schema_version: PROOF_RELATIONSHIP_SCHEMA_VERSION.to_owned(),
        proof_identity: "mncs:proof-dep:test".to_owned(),
        obligation: "obligation:add".to_owned(),
        kernel: "mncs:proof-kernel:0.2".to_owned(),
        assumptions: DepAssumptionSet { uses: Vec::new(), valid: true },
        mncs_verdict: DepVerdict::Pass,
        sealed_binding: Vec::new(),
        admission: ProofAdmissionEvidence { program_fingerprint: "test".to_owned(), seal_steps: 1 },
        corroboration: DepCorroboration::AgreePass,
        dependencies: vec!["aa".to_owned(), "bb".to_owned()],
    }
}

#[test]
fn ssa_module_attaches_and_records_proof_evidence() {
    let deps = vec!["aa".to_owned(), "bb".to_owned()];
    let mut m = module(vec![straight_line()]);
    assert_eq!(m.attach_proof_relationship(relationship(), &deps), Err(TransportMismatch::ObligationAbsent));
    assert!(m.proof_relationships.is_empty());
    m.obligations = vec![obligation("obligation:add")];
    assert_eq!(m.attach_proof_relationship(relationship(), &deps), Ok(()));
    assert_eq!(m.proof_relationships.len(), 1);
    let before = m.clone();
    let outcome = m.record_proof_evidence("mncs:proof-dep:test", &id("operation:add"), "obligation:add", &deps, true);
    assert!(outcome.recorded);
    assert_eq!(outcome.record.obligations_required, vec![id("obligation:add")]);
    assert_eq!(outcome.record.evidence_consumed, vec![id("mncs:proof-dep:test")]);
    assert!(outcome.record.invalidated_evidence.is_empty());
    assert_eq!(m.transformations, vec![outcome.record.clone()]);
    assert_eq!(m.functions, before.functions);
    assert_eq!(m.proof_relationships, before.proof_relationships);
    let refused = m.record_proof_evidence("mncs:proof-dep:test", &id("operation:add"), "obligation:add", &deps, false);
    assert!(!refused.recorded);
    assert!(refused.record.evidence_consumed.is_empty());
    assert_eq!(refused.record.invalidated_evidence, vec![id("mncs:proof-dep:test")]);
    assert_eq!(m.transformations.len(), 2);
    let refs = m.proof_binding_refs("fingerprint");
    assert_eq!(refs.len(), 1);
    assert_eq!(refs[0].ssa_fingerprint, "fingerprint");
}

/// One function whose entry block adds its input to itself with checked
/// arithmetic, copies the sum and returns it.
fn executable_module() -> SsaModule {
    let mut add = other("mncs:instruction:add", &["x", "x"], vec![value("sum", "u64")]);
    add.semantic_identity = Some(id("mncs:operation:add"));
    add.kind = SsaInstructionKind::Integer {
        operator: "add".to_owned(),
        operand_type: IntegerType { bits: 64, signed: false },
        intent: ArithmeticIntent::Checked,
    };
    add.machine_intent = Some(links("mncs:operation:add", &["mncs:obligation:add"]));
    add.obligations = ids(&["mncs:obligation:add"]);
    let copy = other("mncs:instruction:copy", &["sum"], vec![value("result", "u64")]);
    let mut m = module(vec![function("f", vec![block("b0", vec![add, copy], ret(&["result"]))])]);
    m.obligations = vec![obligation("mncs:obligation:add")];
    m
}

fn exact_pass(operation: &SemanticId, obligation: &SemanticId) -> VerifierResult {
    VerifierResult {
        obligation: obligation.clone(),
        subject: operation.clone(),
        scope: operation.0.clone(),
        status: ObligationStatus::Pass,
        verifier: VerifierIdentity {
            identity: id("mncs:verifier:deterministic"),
            name: "deterministic".to_owned(),
            version: "0.2".to_owned(),
            independence: VerifierIndependence::IndependentImplementation,
        },
        authority: EvidenceAuthorityClass::Verifier,
        method: VerifierMethod::IntegerRange,
        assumptions: Vec::new(),
        dependencies: vec![operation.clone()],
        dependency_fingerprints: Vec::new(),
        artifact: Some("evidence://exact".to_owned()),
        limitations: Vec::new(),
        freshness: EvidenceFreshness::Current,
    }
}

#[test]
fn executable_module_is_valid() {
    let report = executable_module().validate(CEILINGS);
    assert!(report.valid, "{:#?}", report.errors);
}

#[test]
fn ssa_validation_rejects_an_undefined_operand() {
    let mut ssa = executable_module();
    ssa.functions[0].blocks[0].instructions[1].inputs.push(SemanticId("mncs:missing-value".to_owned()));
    let report = ssa.validate(CEILINGS);
    assert!(!report.valid);
    assert!(report.errors.iter().any(|error| error.code == "SSA006"));
}

#[test]
fn ssa_validation_rejects_an_unbounded_cycle_without_iteration_metadata() {
    let mut ssa = executable_module();
    ssa.functions[0].cycle_policy = BodyCyclePolicy::BoundedIterationOnly;
    let entry = ssa.functions[0].blocks[0].identity.clone();
    ssa.functions[0].blocks[0].terminator = SsaTerminator::Branch { target: entry, arguments: Vec::new() };
    let report = ssa.validate(CEILINGS);
    assert!(!report.valid);
    assert!(report.errors.iter().any(|error| error.code == "SSA018"));
}

#[test]
fn ssa_preserves_machine_intent_and_rejects_unknown_stronger_transformation() {
    let ssa = executable_module();
    let instruction = ssa.functions[0].blocks[0]
        .instructions
        .iter()
        .find(|instruction| matches!(instruction.kind, SsaInstructionKind::Integer { .. }))
        .expect("integer")
        .clone();
    let obligation = instruction.obligations[0].clone();
    let denied = ssa.clone().attempt_no_overflow_elision(
        instruction.semantic_identity.as_ref().expect("semantic"),
        &obligation,
        &[],
    );
    assert!(!denied.permitted);
    assert!(denied.record.backend_promises_permitted.is_empty());
    assert_eq!(denied.record.backend_promises_withheld, vec!["no-overflow".to_owned()]);
    assert_eq!(denied.module, ssa);
}

#[test]
fn exact_current_verifier_pass_allows_only_the_bound_transformation() {
    let ssa = executable_module();
    let instruction = ssa.functions[0].blocks[0]
        .instructions
        .iter()
        .find(|instruction| matches!(instruction.kind, SsaInstructionKind::Integer { .. }))
        .expect("integer")
        .clone();
    let operation = instruction.semantic_identity.clone().expect("semantic operation");
    let obligation = instruction.obligations[0].clone();
    let mut evidence = exact_pass(&operation, &obligation);
    let allowed = ssa.clone().attempt_no_overflow_elision(&operation, &obligation, &[evidence.clone()]);
    assert!(allowed.permitted);
    assert!(allowed.record.backend_promises_permitted.contains(&"no-overflow".to_owned()));
    evidence.freshness = EvidenceFreshness::Stale;
    let stale = ssa.attempt_no_overflow_elision(&operation, &obligation, &[evidence]);
    assert!(!stale.permitted);
}

#[test]
fn elision_wraps_only_the_bound_operation_and_renames_the_module() {
    let mut ssa = executable_module();
    let mut other_add = ssa.functions[0].blocks[0].instructions[0].clone();
    other_add.semantic_identity = Some(id("mncs:operation:other"));
    other_add.outputs = vec![value("sum2", "u64")];
    ssa.functions[0].blocks[0].instructions.push(other_add);
    let operation = id("mncs:operation:add");
    let obligation = id("mncs:obligation:add");
    let decision = ssa.clone().attempt_no_overflow_elision(&operation, &obligation, &[exact_pass(&operation, &obligation)]);
    assert!(decision.permitted);
    let instructions = &decision.module.functions[0].blocks[0].instructions;
    assert!(matches!(instructions[0].kind, SsaInstructionKind::Integer { intent: ArithmeticIntent::Wrapping, .. }));
    assert!(matches!(instructions[2].kind, SsaInstructionKind::Integer { intent: ArithmeticIntent::Checked, .. }));
    assert_eq!(instructions[1], ssa.functions[0].blocks[0].instructions[1]);
    assert!(decision.module.identity.0.starts_with("mncs:0.4:ssa:transformed:"));
    assert_ne!(decision.module.identity, ssa.identity);
    assert_eq!(decision.record.input_identity, ssa.identity);
    assert_eq!(decision.record.output_identity, decision.module.identity);
    assert_eq!(decision.record.evidence_consumed, vec![id("evidence://exact")]);
    assert_eq!(decision.record.obligations_required, vec![obligation.clone()]);
    assert_eq!(decision.reason, "exact current verifier PASS permits the bounded transformation");
    let again = ssa.attempt_no_overflow_elision(&operation, &obligation, &[exact_pass(&operation, &obligation)]);
    assert_eq!(again.module.identity, decision.module.identity);
}

#[test]
fn elision_keeps_every_validation_error() {
    let operation = id("mncs:operation:add");
    let obligation = id("mncs:obligation:add");
    let valid = executable_module();
    let decision = valid.clone().attempt_no_overflow_elision(&operation, &obligation, &[exact_pass(&operation, &obligation)]);
    assert!(decision.permitted);
    assert!(decision.module.validate(CEILINGS).valid);
    let mut broken = executable_module();
    broken.functions[0].blocks[0].instructions[1].inputs.push(id("mncs:missing-value"));
    broken.functions[0].blocks[0].instructions[0].obligations.push(id("mncs:obligation:unknown"));
    let before = broken.validate(CEILINGS);
    let after = broken.attempt_no_overflow_elision(&operation, &obligation, &[exact_pass(&operation, &obligation)]);
    assert!(after.permitted);
    assert_eq!(after.module.validate(CEILINGS), before);
    assert_eq!(before.errors.len(), 2);
}
