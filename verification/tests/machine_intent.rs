use sha2::Digest;
use mncs_model::{
    AlignmentCapability, ArithmeticIntent, BackendPromise, BackendPromiseDecision, CapabilityUse,
    EvidenceFreshness, IntegerOperation, IntegerType, Intent, MachineIntentExpression,
    MachinePreference, Obligation, ObligationStatus, Requirement, SemanticId,
};

fn operation(intent: ArithmeticIntent) -> IntegerOperation {
    IntegerOperation {
        operator: "add".to_owned(),
        operand_type: IntegerType { bits: 8, signed: true },
        left: 127,
        right: 1,
        intent,
    }
}

#[test]
fn arithmetic_intents_have_distinct_explicit_semantics() {
    assert_eq!(operation(ArithmeticIntent::Wrapping).evaluate().value, Some(-128));
    assert_eq!(operation(ArithmeticIntent::Checked).evaluate().value, None);
    assert_eq!(operation(ArithmeticIntent::Saturating).evaluate().value, Some(127));
    assert!(operation(ArithmeticIntent::Trapping).evaluate().trapped);
}

#[test]
fn scalar_integer_operators_have_explicit_edge_behavior() {
    let ty = IntegerType { bits: 8, signed: false };
    let mut subtraction = operation(ArithmeticIntent::Wrapping);
    subtraction.operator = "sub".to_owned();
    subtraction.operand_type = ty;
    subtraction.left = 0;
    subtraction.right = 1;
    assert_eq!(subtraction.evaluate().value, Some(255));

    let mut multiplication = operation(ArithmeticIntent::Saturating);
    multiplication.operator = "mul".to_owned();
    multiplication.operand_type = ty;
    multiplication.left = 255;
    multiplication.right = 2;
    assert_eq!(multiplication.evaluate().value, Some(255));

    let mut bitwise = operation(ArithmeticIntent::Wrapping);
    bitwise.operator = "xor".to_owned();
    bitwise.operand_type = IntegerType { bits: 8, signed: true };
    bitwise.left = -1;
    bitwise.right = 1;
    assert_eq!(bitwise.evaluate().value, Some(-2));
}

#[test]
fn lowering_preserves_operation_and_obligation_identity() {
    let operation = operation(ArithmeticIntent::Checked);
    let expression = MachineIntentExpression {
        operation: operation.clone(),
        intent: Intent {
            identity: SemanticId("intent:add-safe".to_owned()),
            statement: "preserve overflow result".to_owned(),
        },
        preferences: vec![MachinePreference {
            identity: SemanticId("preference:branchless".to_owned()),
            statement: "prefer branchless".to_owned(),
        }],
        facts: vec![],
        requirements: vec![Requirement {
            identity: SemanticId("requirement:no-overflow".to_owned()),
            subject: operation.identity(),
            statement: "no overflow".to_owned(),
        }],
        obligations: vec![Obligation {
            identity: SemanticId("obligation:no-overflow".to_owned()),
            subject: operation.identity(),
            requirement: SemanticId("requirement:no-overflow".to_owned()),
            status: ObligationStatus::Unknown,
            freshness: EvidenceFreshness::Current,
            method: "pilot".to_owned(),
        }],
    };
    let ir = expression.lower_to_high_level_ir();
    assert_eq!(ir.operation_identity, operation.identity());
    assert_eq!(ir.obligation_identities, vec![SemanticId("obligation:no-overflow".to_owned())]);
    assert_eq!(ir.requirement_identities, vec![SemanticId("requirement:no-overflow".to_owned())]);
}

#[test]
fn backend_promises_require_current_pass_for_the_exact_subject() {
    let subject = SemanticId("operation:one".to_owned());
    let obligation = Obligation {
        identity: SemanticId("obligation:no-overflow".to_owned()),
        subject: subject.clone(),
        requirement: SemanticId("requirement:no-overflow".to_owned()),
        status: ObligationStatus::Pass,
        freshness: EvidenceFreshness::Current,
        method: "verifier".to_owned(),
    };
    assert!(
        BackendPromiseDecision::evaluate(BackendPromise::NoOverflow, &subject, std::slice::from_ref(&obligation))
            .permitted
    );
    assert!(
        !BackendPromiseDecision::evaluate(
            BackendPromise::NoOverflow,
            &SemanticId("operation:other".to_owned()),
            std::slice::from_ref(&obligation)
        )
        .permitted
    );
    let mut stale = obligation.clone();
    stale.freshness = EvidenceFreshness::Stale;
    assert!(!BackendPromiseDecision::evaluate(BackendPromise::NoOverflow, &subject, &[stale]).permitted);
    let mut unknown = obligation;
    unknown.status = ObligationStatus::Unknown;
    assert!(!BackendPromiseDecision::evaluate(BackendPromise::NoOverflow, &subject, &[unknown]).permitted);
}

#[test]
fn alignment_capability_rejects_mismatched_subject_or_scope() {
    let subject = SemanticId("allocation:a".to_owned());
    let capability = AlignmentCapability {
        identity: SemanticId("capability:alignment:a".to_owned()),
        subject: subject.clone(),
        scope: "call:one".to_owned(),
        alignment: 64,
        evidence: Obligation {
            identity: SemanticId("obligation:aligned".to_owned()),
            subject: subject.clone(),
            requirement: SemanticId("requirement:aligned".to_owned()),
            status: ObligationStatus::Pass,
            freshness: EvidenceFreshness::Current,
            method: "alignment-verifier".to_owned(),
        },
    };
    assert!(capability.permits(&subject, "call:one", 32));
    assert!(!capability.permits(&SemanticId("allocation:b".to_owned()), "call:one", 32));
    assert!(!capability.permits(&subject, "call:two", 32));
}

#[test]
fn alignment_capability_needs_enough_alignment_and_current_pass() {
    let subject = SemanticId("allocation:a".to_owned());
    let mut capability = AlignmentCapability {
        identity: SemanticId("capability:alignment:a".to_owned()),
        subject: subject.clone(),
        scope: "call:one".to_owned(),
        alignment: 16,
        evidence: Obligation {
            identity: SemanticId("obligation:aligned".to_owned()),
            subject: subject.clone(),
            requirement: SemanticId("requirement:aligned".to_owned()),
            status: ObligationStatus::Pass,
            freshness: EvidenceFreshness::Current,
            method: "alignment-verifier".to_owned(),
        },
    };
    assert!(capability.permits(&subject, "call:one", 16));
    assert!(!capability.permits(&subject, "call:one", 32));
    capability.evidence.freshness = EvidenceFreshness::Stale;
    assert!(!capability.permits(&subject, "call:one", 16));
}

#[test]
fn widening_and_unsupported_operators_are_explicit() {
    let mut widened = operation(ArithmeticIntent::Widening { bits: 16 });
    let result = widened.evaluate();
    assert_eq!(result.value, Some(128));
    assert!(!result.overflow);
    assert_eq!(result.result_bits, 16);
    widened.operator = "div".to_owned();
    let refused = widened.evaluate();
    assert_eq!(refused.value, None);
    assert!(refused.overflow);
    let mut checked_xor = operation(ArithmeticIntent::Checked);
    checked_xor.operator = "xor".to_owned();
    assert_eq!(checked_xor.evaluate().value, None);
}

#[test]
fn trapping_and_checked_keep_in_range_results() {
    let mut op = operation(ArithmeticIntent::Trapping);
    op.left = 100;
    op.right = 27;
    let result = op.evaluate();
    assert_eq!(result.value, Some(127));
    assert!(!result.trapped && !result.overflow);
    let mut signed_sat = operation(ArithmeticIntent::Saturating);
    signed_sat.operator = "sub".to_owned();
    signed_sat.left = -128;
    signed_sat.right = 1;
    assert_eq!(signed_sat.evaluate().value, Some(-128));
    let mut and = operation(ArithmeticIntent::Wrapping);
    and.operator = "and".to_owned();
    and.operand_type = IntegerType { bits: 8, signed: false };
    and.left = 0xF0;
    and.right = 0x3C;
    assert_eq!(and.evaluate().value, Some(0x30));
}

#[test]
fn operation_identity_is_deterministic_and_namespaced() {
    let a = operation(ArithmeticIntent::Checked).identity();
    let b = operation(ArithmeticIntent::Checked).identity();
    assert_eq!(a, b);
    assert!(a.0.starts_with("mncs:0.2:operation:add:"));
    assert_eq!(a.0.len(), "mncs:0.2:operation:add:".len() + 64);
    assert_ne!(a, operation(ArithmeticIntent::Wrapping).identity());
    let mut other = operation(ArithmeticIntent::Checked);
    other.right = 2;
    assert_ne!(a, other.identity());
}

#[test]
fn backend_promise_absent_obligation_is_refused_with_reason() {
    let subject = SemanticId("operation:one".to_owned());
    let decision = BackendPromiseDecision::evaluate(BackendPromise::NoOverflow, &subject, &[]);
    assert!(!decision.permitted);
    assert_eq!(decision.reason, "required obligation is absent");
    let unrelated = Obligation {
        identity: SemanticId("obligation:aligned".to_owned()),
        subject: subject.clone(),
        requirement: SemanticId("requirement:aligned".to_owned()),
        status: ObligationStatus::Pass,
        freshness: EvidenceFreshness::Current,
        method: "verifier".to_owned(),
    };
    assert!(!BackendPromiseDecision::evaluate(BackendPromise::NoOverflow, &subject, &[unrelated]).permitted);
}

#[test]
fn alignment_capability_use_declares_its_subject() {
    let subject = SemanticId("allocation:a".to_owned());
    let capability = AlignmentCapability {
        identity: SemanticId("capability:alignment:a".to_owned()),
        subject: subject.clone(),
        scope: "call:one".to_owned(),
        alignment: 16,
        evidence: Obligation {
            identity: SemanticId("obligation:aligned".to_owned()),
            subject: subject.clone(),
            requirement: SemanticId("requirement:aligned".to_owned()),
            status: ObligationStatus::Pass,
            freshness: EvidenceFreshness::Current,
            method: "alignment-verifier".to_owned(),
        },
    };
    assert_eq!(
        capability.to_ir_capability_use(),
        CapabilityUse {
            capability: SemanticId("capability:alignment:a".to_owned()),
            semantic_declaration: Some(subject),
        }
    );
}

#[test]
fn operation_identity_digests_the_operations_compact_json() {
    let mut op = operation(ArithmeticIntent::Widening { bits: 16 });
    op.left = -170141183460469231731687303715884105728;
    op.operator = "a\"d\\d\n\u{1}é".to_owned();
    let json = mncs_model::machine_intent::operation_json_text(&op);
    assert_eq!(
        json,
        "{\"operator\":\"a\\\"d\\\\d\\n\\u0001é\",\"operand_type\":{\"bits\":8,\"signed\":true},\"left\":-170141183460469231731687303715884105728,\"right\":1,\"intent\":{\"widening\":{\"bits\":16}}}"
    );
    let checked = operation(ArithmeticIntent::Checked);
    let text = mncs_model::machine_intent::operation_json_text(&checked);
    assert_eq!(
        text,
        "{\"operator\":\"add\",\"operand_type\":{\"bits\":8,\"signed\":true},\"left\":127,\"right\":1,\"intent\":\"checked\"}"
    );
    let digest = format!("{:x}", sha2::Sha256::digest(text.as_bytes()));
    assert_eq!(checked.identity().0, format!("mncs:0.2:operation:add:{digest}"));
}
