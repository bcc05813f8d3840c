use mncs_model::{
    body_ranges, BodyValue, ScalarType,
    body_operation_facts, constant_value, operation_id, BodyBlock, BodyOperation, BodyOperationKind,
    function_obligations, operation_obligations, ArithmeticIntent, BodyOperationFacts, IntegerType, OperationFacts,
    declaration_obligations, Program, OBLIGATION_SCHEMA_VERSION, DeclaredEffect, FunctionDeclarations, IterationDeclaration,
    bounds_obligation, float_finite_obligation, operation_intent_obligation, runtime_check_obligation,
    view_range_obligation, BoundedAccess, BoundsEvidence,
    assumption_id, block_id, call_authority_obligation, capability_id, contract_evidence_obligation, contract_id,
    declared_effect_obligation, function_id, iteration_id, iteration_obligations, EvidenceFreshness, ObligationStatus,
    SemanticId,
};
use sha2::Digest;

fn digest_of(text: &str) -> String {
    format!("{:x}", sha2::Sha256::digest(text.as_bytes()))
}

fn strings(items: &[&str]) -> Vec<String> {
    items.iter().map(|s| s.to_string()).collect()
}

#[test]
fn scoped_identities_encode_their_components() {
    assert_eq!(assumption_id("m", "a b").0, "mncs:0.2:assumption:m::a%20b");
    assert_eq!(capability_id("m", "f", "fs.read").0, "mncs:0.2:capability:m::f::fs.read");
    assert_eq!(iteration_id("m", "f", "loop").0, "mncs:0.2:iteration:m::f::loop");
    assert_eq!(block_id("m", "f", "entry").0, "mncs:0.2:block:m::f::entry");
}

#[test]
fn contracts_bind_only_to_evidence_that_names_them() {
    let bound = contract_evidence_obligation("m", "f", "c1", &strings(&["other", "c1"]), &strings(&["a"]));
    let property = contract_id("m", "f", "c1");
    assert_eq!(bound.status, ObligationStatus::Pass);
    assert_eq!(bound.subject, property);
    assert_eq!(bound.identity.0, format!("mncs:0.2:requirement:contract-evidence-bound:{}", digest_of(&property.0)));
    assert_eq!(bound.requirement, bound.identity);
    assert_eq!(bound.method, "language-evidence-binding");
    assert_eq!(bound.assumptions, vec![assumption_id("m", "a")]);
    assert_eq!(bound.dependencies, vec![function_id("m", "f"), property]);
    assert_eq!(bound.freshness, EvidenceFreshness::Current);
    assert_eq!(bound.fallback.as_deref(), Some("retain explicit contract without backend promise"));
    let unbound = contract_evidence_obligation("m", "f", "c1", &strings(&["c2"]), &[]);
    assert_eq!(unbound.status, ObligationStatus::Unknown);
    assert!(unbound.assumptions.is_empty());
}

#[test]
fn bounded_iterations_record_six_facts_over_sorted_dependencies() {
    let callee = SemanticId("mncs:0.2:function:m::g".to_owned());
    let records = iteration_obligations(
        "m",
        "f",
        "loop",
        &[callee.clone(), function_id("m", "f")],
        &strings(&["cap"]),
        &strings(&["body", "body"]),
    );
    assert_eq!(records.len(), 6);
    let subject = iteration_id("m", "f", "loop");
    let mut expected = vec![
        function_id("m", "f"),
        subject.clone(),
        callee,
        capability_id("m", "f", "cap"),
        block_id("m", "f", "body"),
    ];
    expected.sort();
    expected.dedup();
    let kinds = [
        "iteration-bound-valid",
        "iteration-resource-ceiling",
        "iteration-exact-resource-cost",
        "iteration-authority-closure",
        "iteration-state-preservation",
        "iteration-completion-modes",
    ];
    for (record, kind) in records.iter().zip(kinds) {
        assert_eq!(record.subject, subject);
        assert_eq!(record.identity.0, format!("mncs:0.2:obligation:body:{kind}:{}", digest_of(&subject.0)));
        assert_eq!(record.dependencies, expected);
        assert!(record.assumptions.is_empty());
    }
    assert_eq!(records[2].status, ObligationStatus::Unknown);
    assert_eq!(records[2].method, "no-exact-body-cost-evidence");
    assert_eq!(records[2].freshness, EvidenceFreshness::Unknown);
    assert_eq!(records[2].fallback.as_deref(), Some("retain the declared iteration ceiling and runtime budget"));
    assert_eq!(records[0].status, ObligationStatus::Pass);
    assert_eq!(records[0].method, "language-profile-0.4-bound-check");
    assert_eq!(records[5].method, "language-iteration-completion-check");
    assert_eq!(records[5].fallback, None);
}

#[test]
fn declared_effects_need_a_named_declared_capability() {
    let effect = SemanticId("mncs:0.2:effect:m::f::x::0".to_owned());
    let granted = declared_effect_obligation("m", "f", &effect, "io", &strings(&["io"]), &strings(&["a"]));
    assert_eq!(granted.status, ObligationStatus::Pass);
    assert_eq!(granted.identity.0, format!("mncs:0.2:obligation:effect-authorized:{}", digest_of(&effect.0)));
    assert_eq!(granted.requirement.0, format!("mncs:0.2:requirement:effect-authorized:{}", digest_of(&effect.0)));
    assert_eq!(granted.method, "language-effect-closure");
    assert_eq!(granted.dependencies, vec![function_id("m", "f"), effect.clone(), capability_id("m", "f", "io")]);
    assert_eq!(granted.assumptions, vec![assumption_id("m", "a")]);
    assert_eq!(declared_effect_obligation("m", "f", &effect, "net", &strings(&["io"]), &[]).status, ObligationStatus::Fail);
    assert_eq!(declared_effect_obligation("m", "f", &effect, "", &strings(&[""]), &[]).status, ObligationStatus::Fail);
}

#[test]
fn calls_stay_within_the_callers_capabilities_and_effects() {
    let subject = SemanticId("mncs:0.2:operation:m::f::b::call".to_owned());
    let callee = function_id("m", "g");
    let io = ("write".to_owned(), "io".to_owned());
    let allowed = call_authority_obligation(
        "m",
        "f",
        &subject,
        &callee,
        &strings(&["io"]),
        &[io.clone()],
        &strings(&["io", "net"]),
        &[io.clone()],
    );
    assert_eq!(allowed.status, ObligationStatus::Pass);
    assert_eq!(allowed.identity.0, format!("mncs:0.2:obligation:body:call-authority-closure:{}", digest_of(&subject.0)));
    assert_eq!(allowed.requirement.0, format!("mncs:0.2:requirement:call-authority-closure:{}", digest_of(&callee.0)));
    assert_eq!(
        allowed.dependencies,
        vec![function_id("m", "f"), callee.clone(), subject.clone(), capability_id("m", "f", "io")]
    );
    let missing_capability =
        call_authority_obligation("m", "f", &subject, &callee, &strings(&["io"]), &[], &strings(&["net"]), &[io.clone()]);
    assert_eq!(missing_capability.status, ObligationStatus::Fail);
    let other_effect = ("read".to_owned(), "io".to_owned());
    let missing_effect =
        call_authority_obligation("m", "f", &subject, &callee, &[], &[other_effect], &strings(&["io"]), &[io]);
    assert_eq!(missing_effect.status, ObligationStatus::Fail);
    assert_eq!(missing_effect.dependencies.len(), 3);
}

#[test]
fn only_unestablished_bounds_keep_an_obligation() {
    let subject = SemanticId("mncs:0.2:operation:m::f::b::op".to_owned());
    let all = [
        BoundsEvidence::StaticExact,
        BoundsEvidence::TraversalDomain,
        BoundsEvidence::CheckedBound,
        BoundsEvidence::RuntimeChecked,
    ];
    let kept = |access: BoundedAccess| -> Vec<bool> {
        all.iter().map(|evidence| bounds_obligation(access, *evidence, &subject).is_some()).collect()
    };
    assert_eq!(kept(BoundedAccess::SequenceCopy), vec![false, true, true, true]);
    assert_eq!(kept(BoundedAccess::SequenceReplace), vec![false, false, true, true]);
    assert_eq!(kept(BoundedAccess::VectorLane), vec![false, false, true, true]);
    assert_eq!(kept(BoundedAccess::SequenceProject), vec![false, false, false, true]);
    let copy = bounds_obligation(BoundedAccess::SequenceCopy, BoundsEvidence::TraversalDomain, &subject).unwrap();
    assert_eq!(copy.identity.0, format!("mncs:0.2:obligation:body:sequence-copy-bounds:{}", digest_of(&subject.0)));
    assert_eq!(copy.status, ObligationStatus::Unknown);
    assert_eq!(copy.method, "runtime-checked-span-copy");
    assert!(copy.dependencies.is_empty());
    assert_eq!(copy.freshness, EvidenceFreshness::Unknown);
    let lane = bounds_obligation(BoundedAccess::VectorLane, BoundsEvidence::CheckedBound, &subject).unwrap();
    assert_eq!(lane.dependencies, vec![subject.clone()]);
    assert_eq!(lane.requirement.0, format!("mncs:0.2:requirement:vector-lane-bounds:{}", digest_of(&subject.0)));
    let index = bounds_obligation(BoundedAccess::SequenceProject, BoundsEvidence::RuntimeChecked, &subject).unwrap();
    assert_eq!(index.method, "runtime-checked-sequence-index");
    assert_eq!(index.fallback.as_deref(), Some("the element is available only on the successful bounds-check path"));
}

#[test]
fn views_floats_checks_and_intents_stay_open() {
    let subject = SemanticId("mncs:0.2:operation:m::f::b::op".to_owned());
    let function = function_id("m", "f");
    let view = view_range_obligation(&subject);
    assert_eq!(view.status, ObligationStatus::Unknown);
    assert_eq!(view.method, "checked-view-range-construction");
    assert_eq!(view.dependencies, vec![subject.clone()]);
    let float = float_finite_obligation(&function, &[assumption_id("m", "a")], &subject);
    assert_eq!(float.identity.0, format!("mncs:0.2:obligation:body:float-finite:{}", digest_of(&subject.0)));
    assert_eq!(float.dependencies, vec![function.clone(), subject.clone()]);
    assert_eq!(float.assumptions, vec![assumption_id("m", "a")]);
    assert_eq!(float.fallback.as_deref(), Some("retain the non-finite trap or prove finiteness upstream"));
    let fact = SemanticId("mncs:0.2:obligation:x".to_owned());
    let check = runtime_check_obligation(&subject, &fact);
    assert_eq!(check.requirement, fact);
    assert_eq!(check.dependencies, vec![fact.clone()]);
    assert_eq!(check.method, "runtime-check-establishment");
    let requirement = SemanticId("mncs:0.2:requirement:r".to_owned());
    let intent = operation_intent_obligation(&subject, &requirement);
    assert_eq!(intent.identity.0, format!("mncs:0.2:obligation:body:machine-intent:{}", digest_of(&requirement.0)));
    assert_eq!(intent.subject, subject);
    assert_eq!(intent.dependencies, vec![subject.clone(), requirement.clone()]);
    assert_eq!(intent.fallback.as_deref(), Some("use the declared conservative realization"));
}

#[test]
fn declarations_yield_effects_then_contracts_then_iteration_facts() {
    let effect = SemanticId("mncs:0.2:effect:m::f::e::0".to_owned());
    let declarations = FunctionDeclarations {
        namespace: "m".to_owned(),
        name: "f".to_owned(),
        capabilities: strings(&["io"]),
        assumptions: strings(&["a"]),
        effects: vec![
            DeclaredEffect { identity: effect.clone(), kind: "write".to_owned(), capability: "io".to_owned() },
            DeclaredEffect { identity: effect.clone(), kind: "send".to_owned(), capability: "net".to_owned() },
        ],
        contracts: strings(&["c1", "c2"]),
        evidence_properties: strings(&["c2"]),
        iterations: vec![IterationDeclaration {
            id: "loop".to_owned(),
            backedge: "latch".to_owned(),
            callees: Vec::new(),
            required_capabilities: Vec::new(),
            body_blocks: strings(&["body"]),
        }],
        parameters: Vec::new(),
        blocks: Vec::new(),
    };
    let records = declaration_obligations(&declarations);
    assert_eq!(records.len(), 2 + 2 + 6);
    assert_eq!(records[0].status, ObligationStatus::Pass);
    assert_eq!(records[1].status, ObligationStatus::Fail);
    assert_eq!(records[1].method, "language-effect-closure");
    assert_eq!(records[2].subject, contract_id("m", "f", "c1"));
    assert_eq!(records[2].status, ObligationStatus::Unknown);
    assert_eq!(records[3].status, ObligationStatus::Pass);
    assert_eq!(records[4].subject, iteration_id("m", "f", "loop"));
    assert_eq!(records[4].method, "language-profile-0.4-bound-check");
    assert_eq!(records[6].status, ObligationStatus::Unknown);
    assert_eq!(records[9].method, "language-iteration-completion-check");
    let mut expected = vec![function_id("m", "f"), iteration_id("m", "f", "loop"), block_id("m", "f", "body")];
    expected.sort();
    assert_eq!(records[9].dependencies, expected);
}

fn declarations(name: &str, contracts: &[&str]) -> FunctionDeclarations {
    FunctionDeclarations {
        namespace: "m".to_owned(),
        name: name.to_owned(),
        capabilities: Vec::new(),
        assumptions: Vec::new(),
        effects: Vec::new(),
        contracts: strings(contracts),
        evidence_properties: Vec::new(),
        iterations: vec![IterationDeclaration {
            id: "loop".to_owned(),
            backedge: "latch".to_owned(),
            callees: Vec::new(),
            required_capabilities: Vec::new(),
            body_blocks: Vec::new(),
        }],
        parameters: Vec::new(),
        blocks: Vec::new(),
    }
}

#[test]
fn program_obligations_are_every_functions_ordered_by_identity() {
    let functions = vec![declarations("f", &["c1", "c2"]), declarations("g", &["c3"])];
    let generation = Program { functions: functions.clone() }.generate_obligations();
    assert_eq!(generation.schema_version, OBLIGATION_SCHEMA_VERSION);
    let mut expected: Vec<_> = functions.iter().flat_map(function_obligations).collect();
    expected.sort_by(|a, b| a.identity.cmp(&b.identity));
    assert_eq!(generation.obligations, expected);
    assert_eq!(generation.obligations.len(), 2 + 6 + 1 + 6);
    assert!(generation.obligations.windows(2).all(|w| w[0].identity <= w[1].identity));
    assert!(Program { functions: Vec::new() }.generate_obligations().obligations.is_empty());
}

fn op(subject: &str, facts: OperationFacts, intents: &[&str]) -> BodyOperationFacts {
    BodyOperationFacts {
        subject: SemanticId(subject.to_owned()),
        facts,
        intent_requirements: intents.iter().map(|r| SemanticId(r.to_string())).collect(),
    }
}

#[test]
fn each_operation_kind_yields_its_obligations_then_its_intents() {
    let function = function_id("m", "f");
    let assumptions = vec![assumption_id("m", "a")];
    let capabilities = strings(&["io"]);
    let effects = vec![("write".to_owned(), "io".to_owned())];
    let run = |facts: OperationFacts, intents: &[&str]| {
        operation_obligations("m", "f", &function, &assumptions, &capabilities, &effects, &op("s", facts, intents))
    };
    assert!(run(OperationFacts::Total, &[]).is_empty());
    let total_with_intent = run(OperationFacts::Total, &["r1", "r2"]);
    assert_eq!(total_with_intent.len(), 2);
    assert_eq!(total_with_intent[1].requirement, SemanticId("r2".to_owned()));
    assert_eq!(total_with_intent[1].method, "body-machine-intent");
    let bounds = run(OperationFacts::Bounds { access: BoundedAccess::SequenceProject, evidence: BoundsEvidence::CheckedBound }, &[]);
    assert!(bounds.is_empty());
    let view = run(OperationFacts::View, &["r"]);
    assert_eq!(view.len(), 2);
    assert_eq!(view[0].method, "checked-view-range-construction");
    let division = run(
        OperationFacts::Division { operand_type: IntegerType { bits: 8, signed: true }, divisor: Some(2), dividend: None },
        &[],
    );
    assert_eq!(division.len(), 2);
    assert_eq!(division[1].status, ObligationStatus::Pass);
    let arithmetic = run(
        OperationFacts::ScalarArithmetic {
            operator: "add".to_owned(),
            operand_type: IntegerType { bits: 16, signed: false },
            intent: ArithmeticIntent::Checked,
            counter_step: false,
            lhs: Some((0, 255)),
            rhs: Some((0, 255)),
        },
        &[],
    );
    assert_eq!(arithmetic[0].status, ObligationStatus::Pass);
    assert_eq!(arithmetic[0].assumptions, assumptions);
    let vector = run(OperationFacts::VectorArithmetic { intent: ArithmeticIntent::Trapping, counter_step: false }, &[]);
    assert_eq!(vector[0].status, ObligationStatus::Unknown);
    let effect = SemanticId("e".to_owned());
    let body_effect = run(OperationFacts::Effect { effect: effect.clone(), capability: "io".to_owned() }, &[]);
    assert_eq!(body_effect[0].status, ObligationStatus::Pass);
    assert_eq!(body_effect[0].method, "body-effect-closure");
    assert_eq!(body_effect[0].dependencies, vec![SemanticId("s".to_owned()), effect.clone()]);
    let host = run(OperationFacts::HostCall { effect, capability: "net".to_owned() }, &[]);
    assert_eq!(host[0].status, ObligationStatus::Fail);
    assert_eq!(host[0].method, "host-call-closure");
    let check = run(OperationFacts::RuntimeCheck { obligation: SemanticId("o".to_owned()) }, &[]);
    assert_eq!(check[0].requirement, SemanticId("o".to_owned()));
    let call = run(
        OperationFacts::Call {
            callee: function_id("m", "g"),
            required_capabilities: strings(&["io"]),
            effects: vec![("write".to_owned(), "io".to_owned())],
        },
        &[],
    );
    assert_eq!(call[0].status, ObligationStatus::Pass);
    let float = run(OperationFacts::Float, &[]);
    assert_eq!(float[0].method, "symbolic-float-finite");
}

fn body_op(id: &str, kind: BodyOperationKind, operands: &[&str], intents: &[&str]) -> BodyOperation {
    BodyOperation {
        id: id.to_owned(),
        kind,
        operands: strings(operands),
        results: vec![BodyValue { id: id.to_owned(), ty: ScalarType::Other }],
        intent_requirements: intents.iter().map(|r| SemanticId(r.to_string())).collect(),
    }
}

fn typed_op(id: &str, kind: BodyOperationKind, operands: &[&str], ty: IntegerType) -> BodyOperation {
    BodyOperation {
        id: id.to_owned(),
        kind,
        operands: strings(operands),
        results: vec![BodyValue { id: id.to_owned(), ty: ScalarType::Integer(ty) }],
        intent_requirements: Vec::new(),
    }
}

fn block(id: &str, operations: Vec<BodyOperation>) -> BodyBlock {
    BodyBlock { id: id.to_owned(), parameters: Vec::new(), operations }
}

#[test]
fn function_obligations_follow_declarations_with_operations_in_order() {
    let mut f = declarations("f", &["c1"]);
    f.blocks = vec![
        block("entry", vec![body_op("op1", BodyOperationKind::View, &[], &[])]),
        block(
            "next",
            vec![
                body_op("op2", BodyOperationKind::Total, &[], &["r"]),
                body_op("op3", BodyOperationKind::Float, &[], &[]),
            ],
        ),
    ];
    let records = function_obligations(&f);
    let declared = declaration_obligations(&f);
    assert_eq!(records.len(), declared.len() + 3);
    assert_eq!(&records[..declared.len()], &declared[..]);
    let tail: Vec<&str> = records[declared.len()..].iter().map(|r| r.method.as_str()).collect();
    assert_eq!(tail, vec!["checked-view-range-construction", "body-machine-intent", "symbolic-float-finite"]);
    assert_eq!(records[declared.len() + 2].subject, operation_id("m", "f", "next", "op3"));
}

#[test]
fn body_facts_read_literals_and_counter_steps_from_the_body() {
    let int = IntegerType { bits: 32, signed: true };
    let integer = |operator: &str| BodyOperationKind::Integer {
        operator: operator.to_owned(),
        operand_type: int,
        intent: ArithmeticIntent::Checked,
    };
    let blocks = vec![
        block(
            "entry",
            vec![
                body_op("k", BodyOperationKind::Constant { value: 9, ty: ScalarType::Integer(int) }, &[], &[]),
                body_op("d", BodyOperationKind::Constant { value: 3, ty: ScalarType::Integer(int) }, &[], &[]),
                body_op("f", BodyOperationKind::Constant { value: 5, ty: ScalarType::Byte }, &[], &[]),
            ],
        ),
        block(
            "latch",
            vec![
                body_op("d", BodyOperationKind::Constant { value: 4, ty: ScalarType::Integer(int) }, &[], &[]),
                body_op("q", integer("div"), &["k", "d"], &[]),
                body_op("r", integer("mod"), &["x", "f"], &[]),
                body_op("$mncs$iteration_decrement$0", integer("sub"), &["k", "k"], &[]),
                body_op("s", integer("add"), &["k", "k"], &[]),
            ],
        ),
    ];
    assert_eq!(constant_value(&blocks, "d"), Some(4));
    assert_eq!(constant_value(&blocks, "k"), Some(9));
    assert_eq!(constant_value(&blocks, "f"), None);
    assert_eq!(constant_value(&blocks, "x"), None);
    let iterations = vec![IterationDeclaration {
        id: "loop".to_owned(),
        backedge: "latch".to_owned(),
        callees: Vec::new(),
        required_capabilities: Vec::new(),
        body_blocks: Vec::new(),
    }];
    let facts = body_operation_facts("m", "f", &Vec::new(), &blocks, &iterations);
    assert_eq!(facts.len(), 8);
    assert_eq!(facts[0].facts, OperationFacts::Total);
    assert_eq!(facts[4].subject, operation_id("m", "f", "latch", "q"));
    assert_eq!(facts[4].facts, OperationFacts::Division { operand_type: int, divisor: Some(4), dividend: Some(9) });
    assert_eq!(facts[5].facts, OperationFacts::Division { operand_type: int, divisor: None, dividend: None });
    assert!(matches!(facts[6].facts, OperationFacts::ScalarArithmetic { counter_step: true, .. }));
    assert!(matches!(facts[7].facts, OperationFacts::ScalarArithmetic { counter_step: false, .. }));
    let elsewhere = body_operation_facts("m", "f", &Vec::new(), &blocks, &Vec::new());
    assert!(matches!(elsewhere[6].facts, OperationFacts::ScalarArithmetic { counter_step: false, .. }));
}

fn bare_function(blocks: Vec<BodyBlock>) -> FunctionDeclarations {
    FunctionDeclarations {
        namespace: "test.division".to_owned(),
        name: "probe".to_owned(),
        capabilities: Vec::new(),
        assumptions: Vec::new(),
        effects: Vec::new(),
        contracts: Vec::new(),
        evidence_properties: Vec::new(),
        iterations: Vec::new(),
        parameters: Vec::new(),
        blocks,
    }
}

fn div_program(divisor: Option<i128>, dividend: Option<i128>, signed: bool) -> Program {
    let int_ty = IntegerType { bits: 64, signed };
    let mut operations = Vec::new();
    let mut next = 0_usize;
    let mut constant = |value: i128| {
        let id = format!("c{next}");
        next += 1;
        operations.push(typed_op(&id, BodyOperationKind::Constant { value, ty: ScalarType::Integer(int_ty) }, &[], int_ty));
        id
    };
    let dividend_id = match dividend {
        Some(value) => constant(value),
        None => "param_x".to_owned(),
    };
    let divisor_id = match divisor {
        Some(value) => constant(value),
        None => "param_y".to_owned(),
    };
    operations.push(typed_op(
        "div0",
        BodyOperationKind::Integer { operator: "div".to_owned(), operand_type: int_ty, intent: ArithmeticIntent::Checked },
        &[&dividend_id, &divisor_id],
        int_ty,
    ));
    Program { functions: vec![bare_function(vec![block("entry", operations)])] }
}

fn obligation_statuses(program: &Program) -> Vec<(String, ObligationStatus, String)> {
    program
        .generate_obligations()
        .obligations
        .iter()
        .map(|obligation| (obligation.identity.0.clone(), obligation.status, obligation.method.clone()))
        .collect()
}

#[test]
fn literal_nonzero_divisor_discharges_both_division_facts() {
    let entries = obligation_statuses(&div_program(Some(255), Some(255), true));
    assert_eq!(entries.len(), 2, "{entries:?}");
    for (identity, status, _) in &entries {
        assert!(
            identity.starts_with("mncs:0.2:obligation:body:divisor-nonzero:")
                || identity.starts_with("mncs:0.2:obligation:body:signed-division-overflow:"),
            "explicit division kinds, got {identity}"
        );
        assert!(!identity.contains("integer-overflow"), "no opaque hash: {identity}");
        assert_eq!(*status, ObligationStatus::Pass, "{identity}");
    }
    assert!(entries.iter().any(|(_, _, method)| method == "language-literal-divisor-nonzero"));
    assert!(entries.iter().any(|(_, _, method)| method == "language-literal-division-bounds"));
}

#[test]
fn unknown_divisor_keeps_both_division_facts_open() {
    let entries = obligation_statuses(&div_program(None, None, true));
    assert_eq!(entries.len(), 2, "{entries:?}");
    for (identity, status, _) in &entries {
        assert_eq!(*status, ObligationStatus::Unknown, "{identity}");
    }
    let generation = div_program(None, None, true).generate_obligations();
    for obligation in &generation.obligations {
        assert!(obligation.fallback.is_some(), "{:?}", obligation.identity);
        assert_eq!(obligation.freshness, EvidenceFreshness::Unknown, "{:?}", obligation.identity);
    }
}

#[test]
fn zero_and_neg_one_divisors_refuse_precisely() {
    let zero = obligation_statuses(&div_program(Some(0), Some(7), true));
    assert!(zero.iter().all(|(_, status, _)| *status == ObligationStatus::Unknown), "{zero:?}");
    let neg_one = obligation_statuses(&div_program(Some(-1), None, true));
    let nonzero = neg_one
        .iter()
        .find(|(identity, _, _)| identity.contains("divisor-nonzero"))
        .expect("divisor-nonzero present");
    assert_eq!(nonzero.1, ObligationStatus::Pass);
    let overflow = neg_one
        .iter()
        .find(|(identity, _, _)| identity.contains("signed-division-overflow"))
        .expect("overflow present");
    assert_eq!(overflow.1, ObligationStatus::Unknown);
    let lit = obligation_statuses(&div_program(Some(-1), Some(10), true));
    assert!(lit.iter().all(|(_, status, _)| *status == ObligationStatus::Pass), "{lit:?}");
}

#[test]
fn unsigned_division_has_no_signed_overflow_obligation() {
    let entries = obligation_statuses(&div_program(None, None, false));
    assert_eq!(entries.len(), 1, "{entries:?}");
    assert!(entries[0].0.contains("divisor-nonzero"), "{entries:?}");
    let lit = obligation_statuses(&div_program(Some(256), Some(10), false));
    assert_eq!(lit.len(), 1, "{lit:?}");
    assert_eq!(lit[0].1, ObligationStatus::Pass);
}

fn checked_index_program(evidence: BoundsEvidence) -> Program {
    let check = body_op("check0", BodyOperationKind::Total, &["seq", "i"], &[]);
    let projection = body_op(
        "project0",
        BodyOperationKind::Bounds { access: BoundedAccess::SequenceProject, evidence },
        &["seq", "i"],
        &[],
    );
    Program { functions: vec![bare_function(vec![block("entry", vec![check, projection])])] }
}

#[test]
fn checked_bound_projection_discharges_after_bound_check() {
    let entries = obligation_statuses(&checked_index_program(BoundsEvidence::CheckedBound));
    assert!(entries.is_empty(), "{entries:?}");
}

#[test]
fn runtime_checked_projection_keeps_index_bounds_open() {
    let entries = obligation_statuses(&checked_index_program(BoundsEvidence::RuntimeChecked));
    assert_eq!(entries.len(), 1, "{entries:?}");
    assert!(entries[0].0.contains("sequence-index-bounds"), "{entries:?}");
    assert_eq!(entries[0].1, ObligationStatus::Unknown);
}

#[test]
fn language_generation_marks_effect_closure_pass_and_missing_contract_evidence_unknown() {
    let mut function = bare_function(Vec::new());
    function.capabilities = strings(&["io"]);
    function.effects = vec![DeclaredEffect {
        identity: SemanticId("mncs:0.2:effect:fixture::f::write::0".to_owned()),
        kind: "write".to_owned(),
        capability: "io".to_owned(),
    }];
    function.contracts = strings(&["post"]);
    let generation = Program { functions: vec![function] }.generate_obligations();
    assert!(generation.obligations.iter().any(|obligation| obligation.status == ObligationStatus::Pass));
    assert!(generation.obligations.iter().any(|obligation| obligation.method == "language-evidence-binding"));
    assert!(generation.obligations.iter().all(|obligation| obligation.freshness == EvidenceFreshness::Current));
}

fn u32_add(id: &str, lhs: &str, rhs: &str, intent: ArithmeticIntent) -> BodyOperation {
    let t = IntegerType { bits: 32, signed: false };
    typed_op(id, BodyOperationKind::Integer { operator: "add".to_owned(), operand_type: t, intent }, &[lhs, rhs], t)
}

#[test]
fn byte_ranges_propagate_through_conversions_and_checked_arithmetic() {
    let u32_ty = IntegerType { bits: 32, signed: false };
    let u8_ty = IntegerType { bits: 8, signed: false };
    let widen = |id: &str, from: &str| BodyOperation {
        id: id.to_owned(),
        kind: BodyOperationKind::Convert { from: ScalarType::Byte, to: ScalarType::Integer(u32_ty) },
        operands: strings(&[from]),
        results: vec![BodyValue { id: id.to_owned(), ty: ScalarType::Integer(u32_ty) }],
        intent_requirements: Vec::new(),
    };
    let params = vec![
        BodyValue { id: "b0".to_owned(), ty: ScalarType::Byte },
        BodyValue { id: "b1".to_owned(), ty: ScalarType::Byte },
    ];
    let blocks = vec![block(
        "entry",
        vec![
            widen("w0", "b0"),
            widen("w1", "b1"),
            u32_add("sum", "w0", "w1", ArithmeticIntent::Checked),
            typed_op("k", BodyOperationKind::Constant { value: 300, ty: ScalarType::Integer(u32_ty) }, &[], u32_ty),
            typed_op(
                "narrow",
                BodyOperationKind::Convert { from: ScalarType::Integer(u32_ty), to: ScalarType::Integer(u8_ty) },
                &["k"],
                u8_ty,
            ),
            u32_add("twice", "sum", "sum", ArithmeticIntent::Trapping),
            u32_add("opaque", "p", "sum", ArithmeticIntent::Checked),
        ],
    )];
    let ranges = body_ranges(&params, &blocks);
    let lookup = |id: &str| ranges.iter().rev().find(|(k, _)| k == id).map(|(_, r)| *r);
    assert_eq!(lookup("b0"), Some((0, 255)));
    assert_eq!(lookup("w0"), Some((0, 255)));
    assert_eq!(lookup("sum"), Some((0, 510)));
    assert_eq!(lookup("k"), Some((300, 300)));
    assert_eq!(lookup("narrow"), Some((0, 255)));
    assert_eq!(lookup("twice"), Some((0, 1020)));
    assert_eq!(lookup("opaque"), Some((0, 4294967295)));
    let mut f = bare_function(blocks);
    f.parameters = params;
    let records = Program { functions: vec![f] }.generate_obligations();
    let overflow: Vec<_> = records.obligations.iter().filter(|o| o.identity.0.contains(":integer-overflow:")).collect();
    assert_eq!(overflow.len(), 3);
    let sum_subject = operation_id("test.division", "probe", "entry", "sum");
    let sum = records.obligations.iter().find(|o| o.subject == sum_subject).unwrap();
    assert_eq!(sum.status, ObligationStatus::Pass);
    assert_eq!(sum.method, "language-range-arithmetic-sound");
    let opaque_subject = operation_id("test.division", "probe", "entry", "opaque");
    let opaque = records.obligations.iter().find(|o| o.subject == opaque_subject).unwrap();
    assert_eq!(opaque.status, ObligationStatus::Unknown);
}

#[test]
fn multiply_defined_values_are_pinned_to_their_whole_type() {
    let u32_ty = IntegerType { bits: 32, signed: false };
    let looped = block(
        "loop",
        vec![
            typed_op("acc", BodyOperationKind::Constant { value: 1, ty: ScalarType::Integer(u32_ty) }, &[], u32_ty),
            u32_add("acc", "acc", "acc", ArithmeticIntent::Checked),
        ],
    );
    let mut header = block("header", Vec::new());
    header.parameters = vec![BodyValue { id: "state".to_owned(), ty: ScalarType::Integer(u32_ty) }];
    let ranges = body_ranges(&Vec::new(), &vec![header, looped]);
    let lookup = |id: &str| ranges.iter().rev().find(|(k, _)| k == id).map(|(_, r)| *r);
    assert_eq!(lookup("acc"), Some((0, 4294967295)));
    assert_eq!(lookup("state"), Some((0, 4294967295)));
}
