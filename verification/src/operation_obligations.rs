//! The obligations one body operation establishes, by what the operation
//! is and what is statically known of it, followed by one obligation per
//! machine-intent requirement attached to it.

use vstd::prelude::*;
use vstd::string::*;

use crate::evidence::EvidenceFreshness;
use crate::function_obligations::{
    listed,
    assumption_ids, assumption_texts, declaration_obligations, declaration_obligations_spec, DeclaredEffect,
    FunctionDeclarations,
    bounds_obligation, bounds_fallback, bounds_kind, bounds_method, call_authority_obligation, call_authorized,
    call_obligation_spec, float_finite_obligation, keeps_bounds_obligation, open_obligation, operation_intent_obligation,
    pair_texts, runtime_check_obligation, view_range_obligation, BoundedAccess, BoundsEvidence,
};
use crate::body_ranges::body_representable;
use crate::function_body::{body_operation_facts, flat_operations, kind_representable, operation_derived};
use crate::identity::{function_id, id_text, id_views, IdentityKind, SemanticId};
use crate::machine_intent::{ArithmeticIntent, IntegerType, ObligationStatus};
use crate::obligations::{
    body_obligation, body_obligation_id, consults_ranges, body_obligation_text, bounds_representable, division_bounds_clear,
    division_obligations, divisor_nonzero, integer_overflow_obligation, intent_text, overflow_pass_method,
    range_proves, requirement_id, requirement_text, scalar_overflow_obligation, total_by_semantics, ObligationRecord,
    OBLIGATION_SCHEMA_VERSION,
};
use crate::proof_transport::texts;

verus! {

/// What is statically known of a body operation, as far as its obligations
/// depend on it.
#[derive(Debug, Clone, PartialEq, Eq)]
pub enum OperationFacts {
    /// An operation that is total by definition and establishes nothing.
    Total,
    /// An indexed access and how its bound is shown.
    Bounds { access: BoundedAccess, evidence: BoundsEvidence },
    /// A view construction or narrowing.
    View,
    /// A binary64 operation, comparison or intrinsic.
    Float,
    /// A scalar `div` or `mod`, with the literal values of its divisor and
    /// dividend when they are literals.
    Division { operand_type: IntegerType, divisor: Option<i128>, dividend: Option<i128> },
    /// Another scalar integer operation, whether it is the bounded loop's
    /// counter step, and the ranges of its operands when known.
    ScalarArithmetic {
        operator: String,
        operand_type: IntegerType,
        intent: ArithmeticIntent,
        counter_step: bool,
        lhs: Option<(i128, i128)>,
        rhs: Option<(i128, i128)>,
    },
    /// A vector lane-wise operation or reduction.
    VectorArithmetic { intent: ArithmeticIntent, counter_step: bool },
    /// A body effect: the identity of the declared effect it performs and
    /// the capability it names.
    Effect { effect: SemanticId, capability: String },
    /// A host call: the identity of the effect it is granted as and the
    /// capability it names.
    HostCall { effect: SemanticId, capability: String },
    /// A runtime check establishing the obligation `obligation`.
    RuntimeCheck { obligation: SemanticId },
    /// A call, with what the callee requires.
    Call { callee: SemanticId, required_capabilities: Vec<String>, effects: Vec<(String, String)> },
}

/// The facts fit the arithmetic the rules are computed in.
pub open spec fn facts_representable(facts: OperationFacts) -> bool {
    match facts {
        OperationFacts::Division { operand_type, .. } => !operand_type.signed || operand_type.bits <= 127,
        OperationFacts::ScalarArithmetic { operator, operand_type, intent, .. } => consults_ranges(operator@, intent)
            ==> bounds_representable(operand_type),
        _ => true,
    }
}

/// The authorization obligation of a body effect or host call `subject`:
/// PASS exactly when the function declares the capability.
pub open spec fn body_effect_obligation_spec(
    o: ObligationRecord,
    subject: Seq<char>,
    effect: Seq<char>,
    capability: Seq<char>,
    declared: Seq<Seq<char>>,
    method: Seq<char>,
) -> bool {
    &&& o.schema_version@ == OBLIGATION_SCHEMA_VERSION@
    &&& o.identity.0@ == body_obligation_text("effect-authorized"@, subject)
    &&& o.subject.0@ == subject
    &&& o.requirement.0@ == requirement_text("effect-authorized"@, subject)
    &&& o.status == (if declared.contains(capability) { ObligationStatus::Pass } else { ObligationStatus::Fail })
    &&& o.method@ == method
    &&& o.assumptions@.len() == 0
    &&& id_views(o.dependencies@) == seq![subject, effect]
    &&& o.freshness == EvidenceFreshness::Current
    &&& o.fallback is None
}

fn body_effect_obligation(
    subject: &SemanticId,
    effect: &SemanticId,
    capability: &str,
    declared_capabilities: &[String],
    method: &str,
) -> (r: ObligationRecord)
    ensures
        body_effect_obligation_spec(r, subject.0@, effect.0@, capability@, texts(declared_capabilities@), method@),
{
    let granted = listed(declared_capabilities, capability);
    let mut dependencies: Vec<SemanticId> = Vec::new();
    dependencies.push(subject.duplicate());
    dependencies.push(effect.duplicate());
    assert(id_views(dependencies@) =~= seq![subject.0@, effect.0@]);
    ObligationRecord {
        schema_version: String::from_str(OBLIGATION_SCHEMA_VERSION),
        identity: body_obligation_id("effect-authorized", subject),
        subject: subject.duplicate(),
        requirement: requirement_id("effect-authorized", subject),
        status: if granted { ObligationStatus::Pass } else { ObligationStatus::Fail },
        method: String::from_str(method),
        assumptions: Vec::new(),
        dependencies,
        freshness: EvidenceFreshness::Current,
        fallback: None,
    }
}

/// The obligations the facts of the operation `subject` of the function
/// `function` (namespace `namespace`, name `name`) establish, before any
/// machine-intent requirement: none for a total operation; the kept bounds
/// obligation of an indexed access; the range obligation of a view; the
/// finiteness obligation of a float operation; the checked-division facts
/// of a `div` or `mod`; the overflow obligation of other arithmetic; the
/// authorization of an effect or host call; the obligation a runtime check
/// establishes; and the authority closure of a call.
pub open spec fn kind_obligations(
    r: Seq<ObligationRecord>,
    namespace: Seq<char>,
    name: Seq<char>,
    function: Seq<char>,
    assumptions: Seq<Seq<char>>,
    capabilities: Seq<Seq<char>>,
    effects: Seq<(Seq<char>, Seq<char>)>,
    subject: Seq<char>,
    facts: OperationFacts,
) -> bool {
    match facts {
        OperationFacts::Total => r.len() == 0,
        OperationFacts::Bounds { access, evidence } => {
            &&& r.len() == (if keeps_bounds_obligation(access, evidence) { 1int } else { 0int })
            &&& keeps_bounds_obligation(access, evidence) ==> open_obligation(
                r[0],
                body_obligation_text(bounds_kind(access), subject),
                subject,
                requirement_text(bounds_kind(access), subject),
                bounds_method(access),
                seq![],
                if access == BoundedAccess::SequenceCopy { seq![] } else { seq![subject] },
                bounds_fallback(access),
            )
        },
        OperationFacts::View => r.len() == 1 && open_obligation(
            r[0],
            body_obligation_text("view-range-valid"@, subject),
            subject,
            requirement_text("view-range-valid"@, subject),
            "checked-view-range-construction"@,
            seq![],
            seq![subject],
            "the view value exists only on the successful range-check path"@,
        ),
        OperationFacts::Float => r.len() == 1 && open_obligation(
            r[0],
            body_obligation_text("float-finite"@, subject),
            subject,
            requirement_text("float-finite"@, subject),
            "symbolic-float-finite"@,
            assumptions,
            seq![function, subject],
            "retain the non-finite trap or prove finiteness upstream"@,
        ),
        OperationFacts::Division { operand_type, divisor, dividend } => {
            &&& r.len() == (if operand_type.signed { 2int } else { 1int })
            &&& body_obligation(
                r[0],
                "divisor-nonzero"@,
                function,
                assumptions,
                subject,
                divisor_nonzero(divisor),
                "language-literal-divisor-nonzero"@,
                "runtime-checked-division"@,
                "retain the zero-divisor runtime guard"@,
            )
            &&& operand_type.signed ==> body_obligation(
                r[1],
                "signed-division-overflow"@,
                function,
                assumptions,
                subject,
                division_bounds_clear(divisor, dividend, operand_type.bits),
                "language-literal-division-bounds"@,
                "runtime-checked-signed-division"@,
                "retain the signed-division-overflow runtime guard"@,
            )
        },
        OperationFacts::ScalarArithmetic { operator, operand_type, intent, counter_step, lhs, rhs } => r.len() == 1
            && body_obligation(
            r[0],
            "integer-overflow"@,
            function,
            assumptions,
            subject,
            counter_step || total_by_semantics(intent) || range_proves(operator@, operand_type, intent, lhs, rhs),
            overflow_pass_method(counter_step, intent),
            "symbolic-"@ + intent_text(intent),
            "retain explicit arithmetic behavior or insert a runtime check"@,
        ),
        OperationFacts::VectorArithmetic { intent, counter_step } => r.len() == 1 && body_obligation(
            r[0],
            "integer-overflow"@,
            function,
            assumptions,
            subject,
            counter_step || total_by_semantics(intent),
            overflow_pass_method(counter_step, intent),
            "symbolic-"@ + intent_text(intent),
            "retain explicit arithmetic behavior or insert a runtime check"@,
        ),
        OperationFacts::Effect { effect, capability } => r.len() == 1 && body_effect_obligation_spec(
            r[0],
            subject,
            effect.0@,
            capability@,
            capabilities,
            "body-effect-closure"@,
        ),
        OperationFacts::HostCall { effect, capability } => r.len() == 1 && body_effect_obligation_spec(
            r[0],
            subject,
            effect.0@,
            capability@,
            capabilities,
            "host-call-closure"@,
        ),
        OperationFacts::RuntimeCheck { obligation } => r.len() == 1 && open_obligation(
            r[0],
            body_obligation_text("runtime-check"@, subject),
            subject,
            obligation.0@,
            "runtime-check-establishment"@,
            seq![],
            seq![obligation.0@],
            "the fact is available only on the successful runtime path"@,
        ),
        OperationFacts::Call { callee, required_capabilities, effects: callee_effects } => r.len() == 1
            && call_obligation_spec(
            r[0],
            namespace,
            name,
            subject,
            callee.0@,
            texts(required_capabilities@),
            call_authorized(texts(required_capabilities@), pair_texts(callee_effects@), capabilities, effects),
        ),
    }
}

/// One body operation of a function: its identity, what is known of it,
/// and the machine-intent requirements attached to it.
#[derive(Debug, Clone, PartialEq, Eq)]
pub struct BodyOperationFacts {
    pub subject: SemanticId,
    pub facts: OperationFacts,
    pub intent_requirements: Vec<SemanticId>,
}

/// The obligations of one body operation: those of its facts, then one per
/// attached machine-intent requirement, in order.
pub open spec fn operation_obligations_spec(
    r: Seq<ObligationRecord>,
    namespace: Seq<char>,
    name: Seq<char>,
    function: Seq<char>,
    assumptions: Seq<Seq<char>>,
    capabilities: Seq<Seq<char>>,
    effects: Seq<(Seq<char>, Seq<char>)>,
    op: BodyOperationFacts,
) -> bool {
    exists|n: int|
        #![trigger r.take(n)]
        0 <= n <= r.len() && kind_obligations(
            r.take(n),
            namespace,
            name,
            function,
            assumptions,
            capabilities,
            effects,
            op.subject.0@,
            op.facts,
        ) && r.len() == n + op.intent_requirements@.len() && forall|k: int|
            0 <= k < op.intent_requirements@.len() ==> open_obligation(
                #[trigger] r[n + k],
                body_obligation_text("machine-intent"@, op.intent_requirements@[k].0@),
                op.subject.0@,
                op.intent_requirements@[k].0@,
                "body-machine-intent"@,
                seq![],
                seq![op.subject.0@, op.intent_requirements@[k].0@],
                "use the declared conservative realization"@,
            )
}

/// The obligations of one body operation of the function `function`
/// (namespace `namespace`, name `name`), given the identities of the
/// function's assumptions, its declared capabilities and its declared
/// (kind, capability) effects.
pub fn operation_obligations(
    namespace: &str,
    name: &str,
    function: &SemanticId,
    assumptions: &[SemanticId],
    capabilities: &[String],
    effects: &[(String, String)],
    op: &BodyOperationFacts,
) -> (r: Vec<ObligationRecord>)
    requires
        facts_representable(op.facts),
    ensures
        operation_obligations_spec(
            r@,
            namespace@,
            name@,
            function.0@,
            id_views(assumptions@),
            texts(capabilities@),
            pair_texts(effects@),
            *op,
        ),
{
    let subject = &op.subject;
    let mut out: Vec<ObligationRecord> = match &op.facts {
        OperationFacts::Total => Vec::new(),
        OperationFacts::Bounds { access, evidence } => match bounds_obligation(*access, *evidence, subject) {
            Some(o) => {
                let mut v: Vec<ObligationRecord> = Vec::new();
                v.push(o);
                v
            },
            None => Vec::new(),
        },
        OperationFacts::View => {
            let mut v: Vec<ObligationRecord> = Vec::new();
            v.push(view_range_obligation(subject));
            v
        },
        OperationFacts::Float => {
            let mut v: Vec<ObligationRecord> = Vec::new();
            v.push(float_finite_obligation(function, assumptions, subject));
            v
        },
        OperationFacts::Division { operand_type, divisor, dividend } => division_obligations(
            function,
            assumptions,
            subject,
            *operand_type,
            *divisor,
            *dividend,
        ),
        OperationFacts::ScalarArithmetic { operator, operand_type, intent, counter_step, lhs, rhs } => {
            let mut v: Vec<ObligationRecord> = Vec::new();
            v.push(
                scalar_overflow_obligation(
                    function,
                    assumptions,
                    subject,
                    operator.as_str(),
                    *operand_type,
                    *intent,
                    *counter_step,
                    *lhs,
                    *rhs,
                ),
            );
            v
        },
        OperationFacts::VectorArithmetic { intent, counter_step } => {
            let mut v: Vec<ObligationRecord> = Vec::new();
            v.push(integer_overflow_obligation(function, assumptions, subject, *intent, *counter_step, false));
            v
        },
        OperationFacts::Effect { effect, capability } => {
            let mut v: Vec<ObligationRecord> = Vec::new();
            v.push(body_effect_obligation(subject, effect, capability.as_str(), capabilities, "body-effect-closure"));
            v
        },
        OperationFacts::HostCall { effect, capability } => {
            let mut v: Vec<ObligationRecord> = Vec::new();
            v.push(body_effect_obligation(subject, effect, capability.as_str(), capabilities, "host-call-closure"));
            v
        },
        OperationFacts::RuntimeCheck { obligation } => {
            let mut v: Vec<ObligationRecord> = Vec::new();
            v.push(runtime_check_obligation(subject, obligation));
            v
        },
        OperationFacts::Call { callee, required_capabilities, effects: callee_effects } => {
            let mut v: Vec<ObligationRecord> = Vec::new();
            v.push(
                call_authority_obligation(
                    namespace,
                    name,
                    subject,
                    callee,
                    required_capabilities.as_slice(),
                    callee_effects.as_slice(),
                    capabilities,
                    effects,
                ),
            );
            v
        },
    };
    let n = out.len();
    let ghost head = out@;
    assert(kind_obligations(
        head,
        namespace@,
        name@,
        function.0@,
        id_views(assumptions@),
        texts(capabilities@),
        pair_texts(effects@),
        subject.0@,
        op.facts,
    ));
    let mut k: usize = 0;
    while k < op.intent_requirements.len()
        invariant
            k <= op.intent_requirements@.len(),
            *subject == op.subject,
            out@.len() == n + k,
            out@.take(n as int) == head,
            forall|q: int|
                0 <= q < k ==> open_obligation(
                    #[trigger] out@[n + q],
                    body_obligation_text("machine-intent"@, op.intent_requirements@[q].0@),
                    op.subject.0@,
                    op.intent_requirements@[q].0@,
                    "body-machine-intent"@,
                    seq![],
                    seq![op.subject.0@, op.intent_requirements@[q].0@],
                    "use the declared conservative realization"@,
                ),
        decreases op.intent_requirements@.len() - k,
    {
        let ghost before = out@;
        let record = operation_intent_obligation(subject, &op.intent_requirements[k]);
        out.push(record);
        proof {
            assert(out@.take(n as int) =~= before.take(n as int));
            assert forall|q: int| 0 <= q < k + 1 implies open_obligation(
                #[trigger] out@[n + q],
                body_obligation_text("machine-intent"@, op.intent_requirements@[q].0@),
                op.subject.0@,
                op.intent_requirements@[q].0@,
                "body-machine-intent"@,
                seq![],
                seq![op.subject.0@, op.intent_requirements@[q].0@],
                "use the declared conservative realization"@,
            ) by {
                if q < k {
                    assert(out@[n + q] == before[n + q]);
                } else {
                    assert(out@[n + q] == record);
                }
            }
        }
        k = k + 1;
    }
    assert(out@.take(n as int) == head);
    out
}

/// The (kind, capability) pairs of a function's declared effects.
pub open spec fn effect_pairs_of(effects: Seq<DeclaredEffect>) -> Seq<(Seq<char>, Seq<char>)> {
    effects.map_values(|d: DeclaredEffect| (d.kind@, d.capability@))
}

fn effect_pairs(effects: &Vec<DeclaredEffect>) -> (r: Vec<(String, String)>)
    ensures
        pair_texts(r@) == effect_pairs_of(effects@),
{
    let mut out: Vec<(String, String)> = Vec::new();
    let mut i: usize = 0;
    while i < effects.len()
        invariant
            i <= effects@.len(),
            out@.len() == i,
            forall|j: int| 0 <= j < i ==> #[trigger] pair_texts(out@)[j] == effect_pairs_of(effects@)[j],
        decreases effects@.len() - i,
    {
        let pair = (effects[i].kind.clone(), effects[i].capability.clone());
        let ghost before = out@;
        out.push(pair);
        proof {
            assert forall|j: int| 0 <= j < i + 1 implies #[trigger] pair_texts(out@)[j] == effect_pairs_of(effects@)[j] by {
                if j < i {
                    assert(out@[j] == before[j]);
                    assert(pair_texts(before)[j] == effect_pairs_of(effects@)[j]);
                }
            }
        }
        i = i + 1;
    }
    assert(pair_texts(out@) =~= effect_pairs_of(effects@));
    out
}

/// Every body operation fits the arithmetic of the rules, and every type
/// the range analysis reads has bounds that fit `i128`.
pub open spec fn operations_representable(f: FunctionDeclarations) -> bool {
    &&& body_representable(f.parameters@, f.blocks@)
    &&& forall|k: int|
        0 <= k < flat_operations(f.blocks@).len() ==> kind_representable(#[trigger] flat_operations(f.blocks@)[k].1.kind)
}

/// The obligations of the derived operation `op`, in the context of its
/// function.
pub open spec fn operation_part(part: Seq<ObligationRecord>, f: FunctionDeclarations, op: BodyOperationFacts) -> bool {
    operation_obligations_spec(
        part,
        f.namespace@,
        f.name@,
        id_text(IdentityKind::Function, seq![f.namespace@, f.name@]),
        assumption_texts(f.namespace@, texts(f.assumptions@)),
        texts(f.capabilities@),
        effect_pairs_of(f.effects@),
        op,
    )
}

/// The body operations of `f` with the facts derived from its body (see
/// `operation_derived`), in block order.
pub open spec fn derived_operations(derived: Seq<BodyOperationFacts>, f: FunctionDeclarations) -> bool {
    &&& derived.len() == flat_operations(f.blocks@).len()
    &&& forall|k: int|
        0 <= k < derived.len() ==> #[trigger] operation_derived(derived[k], f.namespace@, f.name@, f.parameters@, f.blocks@, f.iterations@, k)
}

/// Every obligation of a function, in generation order: those of its
/// declarations (see `declaration_obligations_spec`), then those of each
/// body operation in block order, with its facts derived from the body.
pub open spec fn function_obligations_spec(r: Seq<ObligationRecord>, f: FunctionDeclarations) -> bool {
    exists|n: int, derived: Seq<BodyOperationFacts>, parts: Seq<Seq<ObligationRecord>>|
        #![trigger r.take(n), derived_operations(derived, f), parts.flatten()]
        0 <= n <= r.len() && declaration_obligations_spec(r.take(n), f) && derived_operations(derived, f) && parts.len()
            == derived.len() && (forall|i: int| 0 <= i < parts.len() ==> #[trigger] operation_part(parts[i], f, derived[i]))
            && r.skip(n) == parts.flatten()
}

/// Every obligation of one function (see [`function_obligations_spec`]).
pub fn function_obligations(f: &FunctionDeclarations) -> (r: Vec<ObligationRecord>)
    requires
        operations_representable(*f),
    ensures
        function_obligations_spec(r@, *f),
{
    let mut out = declaration_obligations(f);
    let n = out.len();
    let ghost head = out@;
    let function = function_id(f.namespace.as_str(), f.name.as_str());
    let assumptions = assumption_ids(f.namespace.as_str(), f.assumptions.as_slice());
    let effects = effect_pairs(&f.effects);
    let derived = body_operation_facts(f.namespace.as_str(), f.name.as_str(), &f.parameters, &f.blocks, &f.iterations);
    let ghost mut parts: Seq<Seq<ObligationRecord>> = Seq::empty();
    let mut i: usize = 0;
    while i < derived.len()
        invariant
            i <= derived@.len(),
            operations_representable(*f),
            derived_operations(derived@, *f),
            function.0@ == id_text(IdentityKind::Function, seq![f.namespace@, f.name@]),
            id_views(assumptions@) == assumption_texts(f.namespace@, texts(f.assumptions@)),
            pair_texts(effects@) == effect_pairs_of(f.effects@),
            n <= out@.len(),
            out@.take(n as int) == head,
            declaration_obligations_spec(head, *f),
            parts.len() == i,
            forall|q: int| 0 <= q < i ==> #[trigger] operation_part(parts[q], *f, derived@[q]),
            out@.skip(n as int) == parts.flatten(),
        decreases derived@.len() - i,
    {
        let op = &derived[i];
        proof {
            assert(operation_derived(derived@[i as int], f.namespace@, f.name@, f.parameters@, f.blocks@, f.iterations@, i as int));
            assert(kind_representable(flat_operations(f.blocks@)[i as int].1.kind));
        }
        let mut records = operation_obligations(
            f.namespace.as_str(),
            f.name.as_str(),
            &function,
            assumptions.as_slice(),
            f.capabilities.as_slice(),
            effects.as_slice(),
            op,
        );
        let ghost part = records@;
        let ghost before = out@;
        out.append(&mut records);
        proof {
            assert(out@ =~= before + part);
            assert(out@.take(n as int) =~= before.take(n as int));
            parts.lemma_flatten_push(part);
            assert(out@.skip(n as int) =~= before.skip(n as int) + part);
            parts = parts.push(part);
            assert(operation_part(part, *f, derived@[i as int]));
            assert forall|q: int| 0 <= q < i + 1 implies #[trigger] operation_part(parts[q], *f, derived@[q]) by {
                if q < i {
                    assert(parts[q] == parts.drop_last()[q]);
                }
            }
        }
        i = i + 1;
    }
    assert(out@.take(n as int) == head);
    assert(function_obligations_spec(out@, *f));
    out
}

} // verus!
