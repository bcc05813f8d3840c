use mncs_model::{
    generate_machine_intent_obligations, ArithmeticIntent, EvidenceFreshness, IntegerOperation,
    IntegerType, Intent, MachineIntentExpression, ObligationStatus, Requirement, SemanticId,
    OBLIGATION_SCHEMA_VERSION,
};

fn expression(requirements: Vec<Requirement>) -> MachineIntentExpression {
    let operation = IntegerOperation {
        operator: "add".to_owned(),
        operand_type: IntegerType { bits: 8, signed: true },
        left: 1,
        right: 2,
        intent: ArithmeticIntent::Checked,
    };
    MachineIntentExpression {
        operation,
        intent: Intent { identity: SemanticId("intent:checked".to_owned()), statement: "checked".to_owned() },
        preferences: Vec::new(),
        facts: Vec::new(),
        requirements,
        obligations: Vec::new(),
    }
}

#[test]
fn generated_machine_intent_obligations_start_unknown() {
    let operation = IntegerOperation {
        operator: "add".to_owned(),
        operand_type: IntegerType { bits: 8, signed: true },
        left: 1,
        right: 2,
        intent: ArithmeticIntent::Checked,
    };
    let expression = MachineIntentExpression {
        operation: operation.clone(),
        intent: Intent { identity: SemanticId("intent:checked".to_owned()), statement: "checked".to_owned() },
        preferences: Vec::new(),
        facts: Vec::new(),
        requirements: vec![Requirement {
            identity: SemanticId("requirement:no-overflow".to_owned()),
            subject: operation.identity(),
            statement: "no overflow".to_owned(),
        }],
        obligations: Vec::new(),
    };
    let generation = generate_machine_intent_obligations(&expression);
    assert_eq!(generation.obligations[0].status, ObligationStatus::Unknown);
    assert_eq!(generation.obligations[0].freshness, EvidenceFreshness::Unknown);
}

#[test]
fn generated_obligation_names_its_requirement() {
    let generation = generate_machine_intent_obligations(&expression(vec![Requirement {
        identity: SemanticId("requirement:no-overflow".to_owned()),
        subject: SemanticId("operation:one".to_owned()),
        statement: "no overflow".to_owned(),
    }]));
    assert_eq!(generation.schema_version, OBLIGATION_SCHEMA_VERSION);
    let record = &generation.obligations[0];
    assert_eq!(
        record.identity.0,
        "mncs:0.2:requirement:machine-intent:f9742b9af8833296a9a7e16fe150417b8508dcb5fde67b4f0ceedef352377217"
    );
    assert_eq!(record.subject, SemanticId("operation:one".to_owned()));
    assert_eq!(record.requirement, SemanticId("requirement:no-overflow".to_owned()));
    assert_eq!(record.method, "obligation-generation");
    assert!(record.assumptions.is_empty());
    assert_eq!(
        record.dependencies,
        vec![SemanticId("operation:one".to_owned()), SemanticId("requirement:no-overflow".to_owned())]
    );
    assert_eq!(record.fallback.as_deref(), Some("use the declared conservative realization"));
}

#[test]
fn generated_obligations_are_sorted_by_identity_and_stable() {
    let requirement = |identity: &str, subject: &str| Requirement {
        identity: SemanticId(identity.to_owned()),
        subject: SemanticId(subject.to_owned()),
        statement: String::new(),
    };
    // sha256("requirement:b") starts 06.., sha256("requirement:a") starts 1c..
    let generation = generate_machine_intent_obligations(&expression(vec![
        requirement("requirement:a", "first"),
        requirement("requirement:b", "second"),
        requirement("requirement:a", "third"),
    ]));
    let subjects: Vec<&str> = generation.obligations.iter().map(|o| o.subject.0.as_str()).collect();
    assert_eq!(subjects, vec!["second", "first", "third"]);
    assert!(generate_machine_intent_obligations(&expression(Vec::new())).obligations.is_empty());
}

fn division(divisor: Option<i128>, dividend: Option<i128>, signed: bool) -> Vec<mncs_model::ObligationRecord> {
    mncs_model::division_obligations(
        &SemanticId("mncs:0.2:function:m::f".to_owned()),
        &[SemanticId("mncs:0.2:assumption:m::a".to_owned())],
        &SemanticId("mncs:0.2:operation:m::f::b::op".to_owned()),
        IntegerType { bits: 32, signed },
        divisor,
        dividend,
    )
}

#[test]
fn literal_nonzero_divisor_discharges_both_facts_of_one_division() {
    let records = division(Some(7), None, true);
    assert_eq!(records.len(), 2);
    assert!(records[0].identity.0.starts_with("mncs:0.2:obligation:body:divisor-nonzero:"));
    assert!(records[1].identity.0.starts_with("mncs:0.2:obligation:body:signed-division-overflow:"));
    for record in &records {
        assert_eq!(record.status, ObligationStatus::Pass);
        assert_eq!(record.fallback, None);
        assert_eq!(record.dependencies.len(), 2);
        assert_eq!(record.assumptions, vec![SemanticId("mncs:0.2:assumption:m::a".to_owned())]);
    }
    assert_eq!(records[0].method, "language-literal-divisor-nonzero");
    assert_eq!(records[1].method, "language-literal-division-bounds");
}

#[test]
fn unknown_or_zero_divisors_keep_both_division_facts_open() {
    for divisor in [None, Some(0)] {
        let records = division(divisor, Some(5), true);
        assert_eq!(records[0].status, ObligationStatus::Unknown);
        assert_eq!(records[0].fallback.as_deref(), Some("retain the zero-divisor runtime guard"));
        assert_eq!(records[1].status, ObligationStatus::Unknown);
        assert_eq!(records[1].method, "runtime-checked-signed-division");
    }
}

#[test]
fn minus_one_divisor_needs_a_dividend_other_than_the_minimum() {
    assert_eq!(division(Some(-1), None, true)[1].status, ObligationStatus::Unknown);
    assert_eq!(division(Some(-1), Some(-(1i128 << 31)), true)[1].status, ObligationStatus::Unknown);
    assert_eq!(division(Some(-1), Some(5), true)[1].status, ObligationStatus::Pass);
    assert_eq!(division(Some(-1), Some(5), true)[0].status, ObligationStatus::Pass);
}

#[test]
fn unsigned_division_carries_no_signed_overflow_obligation() {
    let records = division(Some(0), None, false);
    assert_eq!(records.len(), 1);
    assert_eq!(records[0].status, ObligationStatus::Unknown);
}

fn overflow(
    operator: &str,
    bits: u16,
    signed: bool,
    intent: ArithmeticIntent,
    counter_step: bool,
    lhs: Option<(i128, i128)>,
    rhs: Option<(i128, i128)>,
) -> mncs_model::ObligationRecord {
    mncs_model::scalar_overflow_obligation(
        &SemanticId("mncs:0.2:function:m::f".to_owned()),
        &[],
        &SemanticId("mncs:0.2:operation:m::f::b::op".to_owned()),
        operator,
        IntegerType { bits, signed },
        intent,
        counter_step,
        lhs,
        rhs,
    )
}

#[test]
fn declared_bounds_of_integer_types() {
    assert_eq!(mncs_model::integer_bounds(IntegerType { bits: 8, signed: true }), (-128, 127));
    assert_eq!(mncs_model::integer_bounds(IntegerType { bits: 8, signed: false }), (0, 255));
    assert_eq!(mncs_model::integer_bounds(IntegerType { bits: 32, signed: false }), (0, 4294967295));
}

#[test]
fn interval_arithmetic_saturates_and_orders_products() {
    assert_eq!(mncs_model::range_interval("add", Some((0, 255)), Some((1, 2))), Some((1, 257)));
    assert_eq!(mncs_model::range_interval("sub", Some((0, 255)), Some((1, 2))), Some((-2, 254)));
    assert_eq!(mncs_model::range_interval("mul", Some((-3, 2)), Some((-5, 4))), Some((-12, 15)));
    assert_eq!(
        mncs_model::range_interval("add", Some((i128::MAX - 1, i128::MAX)), Some((5, 5))),
        Some((i128::MAX, i128::MAX))
    );
    assert_eq!(
        mncs_model::range_interval("mul", Some((i128::MIN, 0)), Some((2, 2))),
        Some((i128::MIN, 0))
    );
    assert_eq!(mncs_model::range_interval("div", Some((1, 2)), Some((1, 2))), None);
    assert_eq!(mncs_model::range_interval("add", None, Some((1, 2))), None);
}

#[test]
fn byte_ranges_discharge_checked_arithmetic_that_fits() {
    let byte = Some((0, 255));
    let record = overflow("add", 32, false, ArithmeticIntent::Checked, false, byte, byte);
    assert_eq!(record.status, ObligationStatus::Pass);
    assert_eq!(record.method, "language-range-arithmetic-sound");
    assert_eq!(record.freshness, EvidenceFreshness::Current);
    assert_eq!(record.fallback, None);
    assert!(record.identity.0.starts_with("mncs:0.2:obligation:body:integer-overflow:"));
    let tight = overflow("add", 8, false, ArithmeticIntent::Trapping, false, byte, byte);
    assert_eq!(tight.status, ObligationStatus::Unknown);
    assert_eq!(tight.method, "symbolic-Trapping");
    assert_eq!(
        tight.fallback.as_deref(),
        Some("retain explicit arithmetic behavior or insert a runtime check")
    );
    let unknown = overflow("mul", 32, true, ArithmeticIntent::Checked, false, None, byte);
    assert_eq!(unknown.status, ObligationStatus::Unknown);
    assert_eq!(unknown.method, "symbolic-Checked");
}

#[test]
fn explicit_intents_and_counter_steps_discharge_by_semantics() {
    let widening = overflow("mul", 8, true, ArithmeticIntent::Widening { bits: 16 }, false, None, None);
    assert_eq!(widening.status, ObligationStatus::Pass);
    assert_eq!(widening.method, "language-explicit-Widening { bits: 16 }-semantics");
    let wrapping = overflow("add", 8, true, ArithmeticIntent::Wrapping, false, None, None);
    assert_eq!(wrapping.method, "language-explicit-Wrapping-semantics");
    let step = overflow("sub", 64, false, ArithmeticIntent::Checked, true, None, None);
    assert_eq!(step.status, ObligationStatus::Pass);
    assert_eq!(step.method, "language-bounded-iteration-counter-decrement");
    let vector = mncs_model::integer_overflow_obligation(
        &SemanticId("f".to_owned()),
        &[],
        &SemanticId("s".to_owned()),
        ArithmeticIntent::Saturating,
        false,
        false,
    );
    assert_eq!(vector.method, "language-explicit-Saturating-semantics");
    assert_eq!(vector.dependencies, vec![SemanticId("f".to_owned()), SemanticId("s".to_owned())]);
}
