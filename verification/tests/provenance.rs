use mncs_model::{SemanticId, TargetIdentity, TransformationRecord, PROVENANCE_SCHEMA_VERSION};

fn target() -> TargetIdentity {
    TargetIdentity {
        identity: SemanticId("target:portable".to_owned()),
        family: "portable".to_owned(),
        features: Vec::new(),
        integer_widths: vec![32],
        abi: None,
    }
}

#[test]
fn transformation_identity_is_deterministic_and_separate() {
    let first = TransformationRecord::new(
        SemanticId("input".to_owned()),
        SemanticId("output".to_owned()),
        "body-to-hir".to_owned(),
        SemanticId("operation:add".to_owned()),
        target(),
        SemanticId("implementation:lowerer".to_owned()),
    );
    let second = TransformationRecord::new(
        first.input_identity.clone(),
        first.output_identity.clone(),
        first.rule.clone(),
        first.operation.clone(),
        first.target.clone(),
        first.implementation.clone(),
    );
    assert_eq!(first.identity, second.identity);
    assert_ne!(first.identity, first.operation);
}

#[test]
fn transformation_identity_depends_on_every_field() {
    let base = TransformationRecord::new(
        SemanticId("input".to_owned()),
        SemanticId("output".to_owned()),
        "body-to-hir".to_owned(),
        SemanticId("operation:add".to_owned()),
        target(),
        SemanticId("implementation:lowerer".to_owned()),
    );
    assert_eq!(base.schema_version, PROVENANCE_SCHEMA_VERSION);
    assert!(base.identity.0.starts_with("mncs:0.2:transformation:"));
    let other_rule = TransformationRecord::new(
        base.input_identity.clone(),
        base.output_identity.clone(),
        "hir-to-ssa".to_owned(),
        base.operation.clone(),
        base.target.clone(),
        base.implementation.clone(),
    );
    assert_ne!(base.identity, other_rule.identity);
    let mut wider = target();
    wider.integer_widths = vec![32, 64];
    let other_target = TransformationRecord::new(
        base.input_identity.clone(),
        base.output_identity.clone(),
        base.rule.clone(),
        base.operation.clone(),
        wider,
        base.implementation.clone(),
    );
    assert_ne!(base.identity, other_target.identity);
    let swapped = TransformationRecord::new(
        base.output_identity.clone(),
        base.input_identity.clone(),
        base.rule.clone(),
        base.operation.clone(),
        base.target.clone(),
        base.implementation.clone(),
    );
    assert_ne!(base.identity, swapped.identity);
}
