use sha2::Digest;
use mncs_model::{
    ArithmeticIntent, EvidenceFreshness, IntegerOperation, IntegerType, Intent, IrOperationKind,
    MachineIntentExpression, MachinePreference, Obligation, ObligationStatus, Requirement, SemanticId,
};

fn expression() -> (IntegerOperation, MachineIntentExpression) {
    let operation = IntegerOperation {
        operator: "add".to_owned(),
        operand_type: IntegerType { bits: 8, signed: true },
        left: 1,
        right: 2,
        intent: ArithmeticIntent::Checked,
    };
    let expression = MachineIntentExpression {
        operation: operation.clone(),
        intent: Intent {
            identity: SemanticId("intent:checked".to_owned()),
            statement: "retain overflow behavior".to_owned(),
        },
        preferences: vec![],
        facts: vec![],
        requirements: vec![Requirement {
            identity: SemanticId("requirement:no-overflow".to_owned()),
            subject: operation.identity(),
            statement: "no overflow".to_owned(),
        }],
        obligations: vec![Obligation {
            identity: SemanticId("obligation:no-overflow".to_owned()),
            subject: operation.identity(),
            requirement: SemanticId("requirement:no-overflow".to_owned()),
            status: ObligationStatus::Unknown,
            freshness: EvidenceFreshness::Current,
            method: "not-yet-verified".to_owned(),
        }],
    };
    (operation, expression)
}

#[test]
fn machine_intent_lowering_keeps_requirements_and_unknown_obligations() {
    let (operation, expression) = expression();
    let ir = expression.lower_to_ir_operation();
    let links = ir.machine_intent.expect("links");
    assert_eq!(links.operation_identity, operation.identity());
    assert_eq!(links.obligation_identities, vec![SemanticId("obligation:no-overflow".to_owned())]);
    assert_eq!(ir.obligations, links.obligation_identities);
}

#[test]
fn machine_intent_operation_is_identified_by_the_digest_of_its_operation() {
    let (operation, mut expression) = expression();
    expression.preferences = vec![MachinePreference {
        identity: SemanticId("preference:fast".to_owned()),
        statement: "prefer speed".to_owned(),
    }];
    let ir = expression.lower_to_ir_operation();
    let digest = format!("{:x}", sha2::Sha256::digest(operation.identity().0.as_bytes()));
    assert_eq!(ir.identity.0, format!("mncs:0.3:ir:machine-intent:{digest}:0"));
    assert_eq!(ir.kind, IrOperationKind::MachineIntent);
    assert_eq!(ir.semantic_identity, Some(operation.identity()));
    let links = ir.machine_intent.expect("links");
    assert_eq!(links.intent_identity, SemanticId("intent:checked".to_owned()));
    assert_eq!(links.preference_identities, vec![SemanticId("preference:fast".to_owned())]);
    assert_eq!(links.requirement_identities, vec![SemanticId("requirement:no-overflow".to_owned())]);
    assert!(links.capability_identities.is_empty());
    assert!(ir.inputs.is_empty() && ir.outputs.is_empty() && ir.effects.is_empty());
}
