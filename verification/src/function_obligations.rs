//! The obligations a function's declarations establish: one evidence
//! binding per public contract, the six facts of each bounded iteration,
//! and the authority closure of each call.

use vstd::prelude::*;
use vstd::string::*;

use crate::digest::{sha256_hex, sha256_hex_of};
use crate::evidence::EvidenceFreshness;
use crate::identity::{
    assumption_id, block_id, capability_id, contract_id, function_id, id_text, id_views, iteration_id,
    sorted_unique_ids, strictly_sorted, IdentityKind, SemanticId,
};
use crate::graph::copy_ids;
use crate::machine_intent::ObligationStatus;
use crate::obligations::{
    body_obligation_id, body_obligation_text, requirement_id, requirement_text, ObligationGeneration, ObligationRecord,
    OBLIGATION_SCHEMA_VERSION,
};
use crate::proof_transport::texts;
use crate::operation_obligations::{function_obligations, function_obligations_spec, operations_representable};
use crate::text::{lemma_seq_lt_asymmetric, lemma_seq_lt_total, lemma_seq_lt_transitive, seq_lt, text_eq};

verus! {

/// The identities of a function's assumptions, in declaration order.
pub open spec fn assumption_texts(namespace: Seq<char>, assumptions: Seq<Seq<char>>) -> Seq<Seq<char>> {
    assumptions.map_values(|a: Seq<char>| id_text(IdentityKind::Assumption, seq![namespace, a]))
}

/// The identities of a function's assumptions, in declaration order.
pub fn assumption_ids(namespace: &str, assumptions: &[String]) -> (r: Vec<SemanticId>)
    ensures
        id_views(r@) == assumption_texts(namespace@, texts(assumptions@)),
{
    let mut out: Vec<SemanticId> = Vec::new();
    let mut i: usize = 0;
    while i < assumptions.len()
        invariant
            i <= assumptions@.len(),
            out@.len() == i,
            id_views(out@) == assumption_texts(namespace@, texts(assumptions@)).take(i as int),
        decreases assumptions@.len() - i,
    {
        let ghost prev = out@;
        let id = assumption_id(namespace, assumptions[i].as_str());
        out.push(id);
        proof {
            let all = assumption_texts(namespace@, texts(assumptions@));
            assert(texts(assumptions@)[i as int] == assumptions@[i as int]@);
            assert(all[i as int] == id.0@);
            assert(out@ == prev.push(id));
            assert forall|j: int| 0 <= j < i + 1 implies #[trigger] id_views(out@)[j] == all.take(i + 1)[j] by {
                assert(out@[j] == prev.push(id)[j]);
                if j < i {
                    assert(id_views(prev)[j] == all.take(i as int)[j]);
                    assert(prev[j].0@ == id_views(prev)[j]);
                } else {
                    assert(out@[j] == id);
                }
            }
            assert(id_views(out@) =~= all.take(i + 1));
        }
        i = i + 1;
    }
    assert(assumption_texts(namespace@, texts(assumptions@)).take(i as int) =~= assumption_texts(
        namespace@,
        texts(assumptions@),
    ));
    out
}

/// Some evidence claim of the function names the contract as its property.
pub open spec fn evidence_names(properties: Seq<Seq<char>>, contract: Seq<char>) -> bool {
    exists|i: int| 0 <= i < properties.len() && properties[i] == contract
}

/// The evidence-binding obligation of the public contract `contract` of
/// `function` in `namespace`: PASS when some evidence claim of the function
/// names the contract, otherwise UNKNOWN; the explicit contract is kept
/// without a backend promise either way.
pub open spec fn contract_obligation(
    o: ObligationRecord,
    namespace: Seq<char>,
    function: Seq<char>,
    contract: Seq<char>,
    properties: Seq<Seq<char>>,
    assumptions: Seq<Seq<char>>,
) -> bool {
    let property = id_text(IdentityKind::Contract, seq![namespace, function, contract]);
    &&& o.schema_version@ == OBLIGATION_SCHEMA_VERSION@
    &&& o.identity.0@ == requirement_text("contract-evidence-bound"@, property)
    &&& o.subject.0@ == property
    &&& o.requirement.0@ == requirement_text("contract-evidence-bound"@, property)
    &&& o.status == (if evidence_names(properties, contract) { ObligationStatus::Pass } else { ObligationStatus::Unknown })
    &&& o.method@ == "language-evidence-binding"@
    &&& id_views(o.assumptions@) == assumption_texts(namespace, assumptions)
    &&& id_views(o.dependencies@) == seq![id_text(IdentityKind::Function, seq![namespace, function]), property]
    &&& o.freshness == EvidenceFreshness::Current
    &&& o.fallback matches Some(f) && f@ == "retain explicit contract without backend promise"@
}

/// The evidence-binding obligation of one public contract, given the
/// properties of the function's evidence claims and its assumptions.
pub fn contract_evidence_obligation(
    namespace: &str,
    function: &str,
    contract: &str,
    evidence_properties: &[String],
    assumptions: &[String],
) -> (r: ObligationRecord)
    ensures
        contract_obligation(r, namespace@, function@, contract@, texts(evidence_properties@), texts(assumptions@)),
{
    let mut present = false;
    let mut i: usize = 0;
    while i < evidence_properties.len()
        invariant
            i <= evidence_properties@.len(),
            present == evidence_names(texts(evidence_properties@).take(i as int), contract@),
        decreases evidence_properties@.len() - i,
    {
        let hit = text_eq(evidence_properties[i].as_str(), contract);
        proof {
            let before = texts(evidence_properties@).take(i as int);
            let after = texts(evidence_properties@).take(i + 1);
            assert(after =~= before.push(evidence_properties@[i as int]@));
            if hit {
                assert(after[i as int] == contract@);
            }
            if evidence_names(after, contract@) {
                let k = choose|k: int| 0 <= k < after.len() && after[k] == contract@;
                if k < i {
                    assert(before[k] == contract@);
                }
            }
        }
        present = present || hit;
        i = i + 1;
    }
    assert(texts(evidence_properties@).take(i as int) =~= texts(evidence_properties@));
    let function_identity = function_id(namespace, function);
    let property = contract_id(namespace, function, contract);
    let mut dependencies: Vec<SemanticId> = Vec::new();
    dependencies.push(function_identity);
    dependencies.push(property.duplicate());
    assert(id_views(dependencies@) =~= seq![
        id_text(IdentityKind::Function, seq![namespace@, function@]),
        property.0@,
    ]);
    ObligationRecord {
        schema_version: String::from_str(OBLIGATION_SCHEMA_VERSION),
        identity: requirement_id("contract-evidence-bound", &property),
        subject: property.duplicate(),
        requirement: requirement_id("contract-evidence-bound", &property),
        status: if present { ObligationStatus::Pass } else { ObligationStatus::Unknown },
        method: String::from_str("language-evidence-binding"),
        assumptions: assumption_ids(namespace, assumptions),
        dependencies,
        freshness: EvidenceFreshness::Current,
        fallback: Some(String::from_str("retain explicit contract without backend promise")),
    }
}

/// The dependencies of a bounded iteration before sorting: the function,
/// the iteration, its callees, the capabilities it requires and the blocks
/// of its body.
pub open spec fn iteration_dependencies(
    namespace: Seq<char>,
    function: Seq<char>,
    iteration: Seq<char>,
    callees: Seq<Seq<char>>,
    capabilities: Seq<Seq<char>>,
    blocks: Seq<Seq<char>>,
) -> Seq<Seq<char>> {
    seq![
        id_text(IdentityKind::Function, seq![namespace, function]),
        id_text(IdentityKind::Iteration, seq![namespace, function, iteration]),
    ] + callees + capabilities.map_values(|c: Seq<char>| id_text(IdentityKind::Capability, seq![namespace, function, c]))
        + blocks.map_values(|b: Seq<char>| id_text(IdentityKind::Block, seq![namespace, function, b]))
}

/// The identity of the bounded iteration `iteration` of `function`.
pub open spec fn iteration_subject(namespace: Seq<char>, function: Seq<char>, iteration: Seq<char>) -> Seq<char> {
    id_text(IdentityKind::Iteration, seq![namespace, function, iteration])
}

/// The kind of the `k`-th fact of a bounded iteration.
pub open spec fn iteration_fact_kind(k: int) -> Seq<char> {
    if k == 0 {
        "iteration-bound-valid"@
    } else if k == 1 {
        "iteration-resource-ceiling"@
    } else if k == 2 {
        "iteration-exact-resource-cost"@
    } else if k == 3 {
        "iteration-authority-closure"@
    } else if k == 4 {
        "iteration-state-preservation"@
    } else {
        "iteration-completion-modes"@
    }
}

/// The method of the `k`-th fact of a bounded iteration.
pub open spec fn iteration_fact_method(k: int) -> Seq<char> {
    if k == 0 {
        "language-profile-0.4-bound-check"@
    } else if k == 1 {
        "language-static-iteration-ceiling"@
    } else if k == 2 {
        "no-exact-body-cost-evidence"@
    } else if k == 3 {
        "language-iteration-authority-closure"@
    } else if k == 4 {
        "language-iteration-state-type-check"@
    } else {
        "language-iteration-completion-check"@
    }
}

/// The `k`-th fact of the bounded iteration `subject`, depending on the
/// sorted identities `dependencies`: every fact but the exact resource cost
/// is PASS by the language checks; the exact cost is UNKNOWN and keeps the
/// declared ceiling and runtime budget.
pub open spec fn iteration_fact(o: ObligationRecord, k: int, subject: Seq<char>, dependencies: Seq<Seq<char>>) -> bool {
    &&& o.schema_version@ == OBLIGATION_SCHEMA_VERSION@
    &&& o.identity.0@ == body_obligation_text(iteration_fact_kind(k), subject)
    &&& o.subject.0@ == subject
    &&& o.requirement.0@ == requirement_text(iteration_fact_kind(k), subject)
    &&& o.method@ == iteration_fact_method(k)
    &&& o.assumptions@.len() == 0
    &&& id_views(o.dependencies@) == dependencies
    &&& (if k == 2 {
        &&& o.status == ObligationStatus::Unknown
        &&& o.freshness == EvidenceFreshness::Unknown
        &&& o.fallback matches Some(f) && f@ == "retain the declared iteration ceiling and runtime budget"@
    } else {
        &&& o.status == ObligationStatus::Pass
        &&& o.freshness == EvidenceFreshness::Current
        &&& o.fallback is None
    })
}

fn iteration_fact_record(k: usize, subject: &SemanticId, dependencies: &Vec<SemanticId>) -> (r: ObligationRecord)
    requires
        k < 6,
    ensures
        iteration_fact(r, k as int, subject.0@, id_views(dependencies@)),
{
    let (kind, method) = if k == 0 {
        ("iteration-bound-valid", "language-profile-0.4-bound-check")
    } else if k == 1 {
        ("iteration-resource-ceiling", "language-static-iteration-ceiling")
    } else if k == 2 {
        ("iteration-exact-resource-cost", "no-exact-body-cost-evidence")
    } else if k == 3 {
        ("iteration-authority-closure", "language-iteration-authority-closure")
    } else if k == 4 {
        ("iteration-state-preservation", "language-iteration-state-type-check")
    } else {
        ("iteration-completion-modes", "language-iteration-completion-check")
    };
    let open = k == 2;
    ObligationRecord {
        schema_version: String::from_str(OBLIGATION_SCHEMA_VERSION),
        identity: body_obligation_id(kind, subject),
        subject: subject.duplicate(),
        requirement: requirement_id(kind, subject),
        status: if open { ObligationStatus::Unknown } else { ObligationStatus::Pass },
        method: String::from_str(method),
        assumptions: Vec::new(),
        dependencies: copy_ids(dependencies.as_slice()),
        freshness: if open { EvidenceFreshness::Unknown } else { EvidenceFreshness::Current },
        fallback: if open { Some(String::from_str("retain the declared iteration ceiling and runtime budget")) } else { None },
    }
}

fn push_scoped_ids(out: &mut Vec<SemanticId>, kind: IdentityKind, namespace: &str, function: &str, names: &[String])
    requires
        kind == IdentityKind::Capability || kind == IdentityKind::Block,
    ensures
        id_views(final(out)@) == id_views(old(out)@) + texts(names@).map_values(
            |n: Seq<char>| id_text(kind, seq![namespace@, function@, n]),
        ),
{
    let ghost start = id_views(out@);
    assert(start.len() == out@.len());
    let ghost all = texts(names@).map_values(|n: Seq<char>| id_text(kind, seq![namespace@, function@, n]));
    let mut i: usize = 0;
    while i < names.len()
        invariant
            i <= names@.len(),
            kind == IdentityKind::Capability || kind == IdentityKind::Block,
            all == texts(names@).map_values(|n: Seq<char>| id_text(kind, seq![namespace@, function@, n])),
            out@.len() == start.len() + i,
            id_views(out@) == start + all.take(i as int),
        decreases names@.len() - i,
    {
        let id = if kind == IdentityKind::Capability {
            capability_id(namespace, function, names[i].as_str())
        } else {
            block_id(namespace, function, names[i].as_str())
        };
        let ghost prev = out@;
        out.push(id);
        proof {
            assert(texts(names@)[i as int] == names@[i as int]@);
            assert(all[i as int] == id.0@);
            assert(out@ == prev.push(id));
            assert forall|j: int| 0 <= j < start.len() + i + 1 implies #[trigger] id_views(out@)[j] == (start + all.take(i + 1))[j] by {
                assert(out@[j] == prev.push(id)[j]);
                if j < start.len() + i {
                    assert(id_views(prev)[j] == (start + all.take(i as int))[j]);
                    assert(prev[j].0@ == id_views(prev)[j]);
                } else {
                    assert(out@[j] == id);
                }
            }
            assert(id_views(out@) =~= start + all.take(i + 1));
        }
        i = i + 1;
    }
    assert(all.take(i as int) =~= all);
}

/// The six facts of one bounded iteration `iteration` of `function`: its
/// bound, its resource ceiling, its exact resource cost, its authority
/// closure, its state preservation and its completion modes, in that order,
/// each about the iteration and depending on the sorted, duplicate-free
/// identities of the function, the iteration, its callees, its required
/// capabilities and its body blocks.
pub fn iteration_obligations(
    namespace: &str,
    function: &str,
    iteration: &str,
    callees: &[SemanticId],
    required_capabilities: &[String],
    body_blocks: &[String],
) -> (r: Vec<ObligationRecord>)
    ensures
        r@.len() == 6,
        exists|dependencies: Seq<Seq<char>>|
            {
                &&& strictly_sorted(dependencies)
                &&& forall|t: Seq<char>|
                    #![trigger dependencies.contains(t)]
                    dependencies.contains(t) <==> iteration_dependencies(
                        namespace@,
                        function@,
                        iteration@,
                        id_views(callees@),
                        texts(required_capabilities@),
                        texts(body_blocks@),
                    ).contains(t)
                &&& forall|k: int|
                    0 <= k < 6 ==> #[trigger] iteration_fact(
                        r@[k],
                        k,
                        iteration_subject(namespace@, function@, iteration@),
                        dependencies,
                    )
            },
{
    let subject = iteration_id(namespace, function, iteration);
    let mut listed: Vec<SemanticId> = Vec::new();
    listed.push(function_id(namespace, function));
    listed.push(subject.duplicate());
    let mut extra = copy_ids(callees);
    listed.append(&mut extra);
    proof {
        assert(id_views(listed@) =~= seq![
            id_text(IdentityKind::Function, seq![namespace@, function@]),
            subject.0@,
        ] + id_views(callees@));
    }
    push_scoped_ids(&mut listed, IdentityKind::Capability, namespace, function, required_capabilities);
    push_scoped_ids(&mut listed, IdentityKind::Block, namespace, function, body_blocks);
    assert(id_views(listed@) =~= iteration_dependencies(
        namespace@,
        function@,
        iteration@,
        id_views(callees@),
        texts(required_capabilities@),
        texts(body_blocks@),
    ));
    let dependencies = sorted_unique_ids(&listed);
    let mut out: Vec<ObligationRecord> = Vec::new();
    let mut k: usize = 0;
    while k < 6
        invariant
            k <= 6,
            out@.len() == k,
            forall|j: int| 0 <= j < k ==> #[trigger] iteration_fact(out@[j], j, subject.0@, id_views(dependencies@)),
        decreases 6 - k,
    {
        out.push(iteration_fact_record(k, &subject, &dependencies));
        k = k + 1;
    }
    assert(strictly_sorted(id_views(dependencies@)));
    out
}

/// Whether `t` is one of `xs`.
pub(crate) fn listed(xs: &[String], t: &str) -> (r: bool)
    ensures
        r == texts(xs@).contains(t@),
{
    let mut i: usize = 0;
    while i < xs.len()
        invariant
            i <= xs@.len(),
            forall|j: int| 0 <= j < i ==> texts(xs@)[j] != t@,
        decreases xs@.len() - i,
    {
        if text_eq(xs[i].as_str(), t) {
            assert(texts(xs@)[i as int] == t@);
            return true;
        }
        i = i + 1;
    }
    false
}

/// `mncs:0.2:obligation:effect-authorized:<digest of the effect identity>`.
pub open spec fn effect_obligation_text(effect: Seq<char>) -> Seq<char> {
    "mncs:0.2:obligation:effect-authorized:"@ + sha256_hex_of(vstd::utf8::encode_utf8(effect))
}

/// The authorization obligation of the declared effect `effect` of
/// `function`, which names the capability `capability`: PASS exactly when
/// the capability is named and the function declares it, else FAIL.
pub open spec fn declared_effect_obligation_spec(
    o: ObligationRecord,
    namespace: Seq<char>,
    function: Seq<char>,
    effect: Seq<char>,
    capability: Seq<char>,
    declared: Seq<Seq<char>>,
    assumptions: Seq<Seq<char>>,
) -> bool {
    &&& o.schema_version@ == OBLIGATION_SCHEMA_VERSION@
    &&& o.identity.0@ == effect_obligation_text(effect)
    &&& o.subject.0@ == effect
    &&& o.requirement.0@ == requirement_text("effect-authorized"@, effect)
    &&& o.status == (if capability.len() > 0 && declared.contains(capability) {
        ObligationStatus::Pass
    } else {
        ObligationStatus::Fail
    })
    &&& o.method@ == "language-effect-closure"@
    &&& id_views(o.assumptions@) == assumption_texts(namespace, assumptions)
    &&& id_views(o.dependencies@) == seq![
        id_text(IdentityKind::Function, seq![namespace, function]),
        effect,
        id_text(IdentityKind::Capability, seq![namespace, function, capability]),
    ]
    &&& o.freshness == EvidenceFreshness::Current
    &&& o.fallback is None
}

/// The authorization obligation of one declared effect, given its identity
/// and capability, the capabilities the function declares and its
/// assumptions.
pub fn declared_effect_obligation(
    namespace: &str,
    function: &str,
    effect: &SemanticId,
    capability: &str,
    declared_capabilities: &[String],
    assumptions: &[String],
) -> (r: ObligationRecord)
    ensures
        declared_effect_obligation_spec(
            r,
            namespace@,
            function@,
            effect.0@,
            capability@,
            texts(declared_capabilities@),
            texts(assumptions@),
        ),
{
    let authorized = capability.unicode_len() > 0 && listed(declared_capabilities, capability);
    let mut dependencies: Vec<SemanticId> = Vec::new();
    dependencies.push(function_id(namespace, function));
    dependencies.push(effect.duplicate());
    dependencies.push(capability_id(namespace, function, capability));
    assert(id_views(dependencies@) =~= seq![
        id_text(IdentityKind::Function, seq![namespace@, function@]),
        effect.0@,
        id_text(IdentityKind::Capability, seq![namespace@, function@, capability@]),
    ]);
    let digest = sha256_hex(effect.0.as_str().as_bytes());
    let identity = String::from_str("mncs:0.2:obligation:effect-authorized:").concat(digest.as_str());
    ObligationRecord {
        schema_version: String::from_str(OBLIGATION_SCHEMA_VERSION),
        identity: SemanticId(identity),
        subject: effect.duplicate(),
        requirement: requirement_id("effect-authorized", effect),
        status: if authorized { ObligationStatus::Pass } else { ObligationStatus::Fail },
        method: String::from_str("language-effect-closure"),
        assumptions: assumption_ids(namespace, assumptions),
        dependencies,
        freshness: EvidenceFreshness::Current,
        fallback: None,
    }
}

/// The texts of a list of (kind, capability) effect pairs.
pub open spec fn pair_texts(s: Seq<(String, String)>) -> Seq<(Seq<char>, Seq<char>)> {
    s.map_values(|p: (String, String)| (p.0@, p.1@))
}

/// A call is within the caller's authority: the caller declares every
/// capability the callee requires, and for every effect of the callee an
/// effect of the same kind and capability.
pub open spec fn call_authorized(
    required: Seq<Seq<char>>,
    callee_effects: Seq<(Seq<char>, Seq<char>)>,
    declared: Seq<Seq<char>>,
    declared_effects: Seq<(Seq<char>, Seq<char>)>,
) -> bool {
    &&& forall|i: int| 0 <= i < required.len() ==> declared.contains(#[trigger] required[i])
    &&& forall|i: int| 0 <= i < callee_effects.len() ==> declared_effects.contains(#[trigger] callee_effects[i])
}

/// The authority-closure obligation of the call `subject` of `function` to
/// `callee`: PASS exactly when the call is authorized, else FAIL; it
/// depends on the function, the callee, the call and the capabilities the
/// callee requires.
pub open spec fn call_obligation_spec(
    o: ObligationRecord,
    namespace: Seq<char>,
    function: Seq<char>,
    subject: Seq<char>,
    callee: Seq<char>,
    required: Seq<Seq<char>>,
    authorized: bool,
) -> bool {
    &&& o.schema_version@ == OBLIGATION_SCHEMA_VERSION@
    &&& o.identity.0@ == body_obligation_text("call-authority-closure"@, subject)
    &&& o.subject.0@ == subject
    &&& o.requirement.0@ == requirement_text("call-authority-closure"@, callee)
    &&& o.status == (if authorized { ObligationStatus::Pass } else { ObligationStatus::Fail })
    &&& o.method@ == "language-call-authority-closure"@
    &&& o.assumptions@.len() == 0
    &&& id_views(o.dependencies@) == seq![id_text(IdentityKind::Function, seq![namespace, function]), callee, subject]
        + required.map_values(|c: Seq<char>| id_text(IdentityKind::Capability, seq![namespace, function, c]))
    &&& o.freshness == EvidenceFreshness::Current
    &&& o.fallback is None
}

fn effect_listed(effects: &[(String, String)], kind: &str, capability: &str) -> (r: bool)
    ensures
        r == pair_texts(effects@).contains((kind@, capability@)),
{
    let mut i: usize = 0;
    while i < effects.len()
        invariant
            i <= effects@.len(),
            forall|j: int| 0 <= j < i ==> pair_texts(effects@)[j] != (kind@, capability@),
        decreases effects@.len() - i,
    {
        if text_eq(effects[i].0.as_str(), kind) && text_eq(effects[i].1.as_str(), capability) {
            assert(pair_texts(effects@)[i as int] == (kind@, capability@));
            return true;
        }
        i = i + 1;
    }
    false
}

/// The authority-closure obligation of one call to `callee`, given the
/// capabilities and the (kind, capability) effects the callee requires and
/// those the calling function declares.
pub fn call_authority_obligation(
    namespace: &str,
    function: &str,
    subject: &SemanticId,
    callee: &SemanticId,
    required_capabilities: &[String],
    callee_effects: &[(String, String)],
    declared_capabilities: &[String],
    declared_effects: &[(String, String)],
) -> (r: ObligationRecord)
    ensures
        call_obligation_spec(
            r,
            namespace@,
            function@,
            subject.0@,
            callee.0@,
            texts(required_capabilities@),
            call_authorized(
                texts(required_capabilities@),
                pair_texts(callee_effects@),
                texts(declared_capabilities@),
                pair_texts(declared_effects@),
            ),
        ),
{
    let mut authorized = true;
    let mut i: usize = 0;
    while i < required_capabilities.len()
        invariant
            i <= required_capabilities@.len(),
            authorized == forall|j: int| 0 <= j < i ==> texts(declared_capabilities@).contains(#[trigger] texts(required_capabilities@)[j]),
        decreases required_capabilities@.len() - i,
    {
        let ok = listed(declared_capabilities, required_capabilities[i].as_str());
        proof {
            assert(texts(required_capabilities@)[i as int] == required_capabilities@[i as int]@);
        }
        authorized = authorized && ok;
        i = i + 1;
    }
    let mut j: usize = 0;
    while j < callee_effects.len()
        invariant
            j <= callee_effects@.len(),
            authorized == ((forall|k: int| 0 <= k < required_capabilities@.len() ==> texts(declared_capabilities@).contains(
                #[trigger] texts(required_capabilities@)[k],
            )) && forall|k: int| 0 <= k < j ==> pair_texts(declared_effects@).contains(#[trigger] pair_texts(callee_effects@)[k])),
        decreases callee_effects@.len() - j,
    {
        let ok = effect_listed(declared_effects, callee_effects[j].0.as_str(), callee_effects[j].1.as_str());
        assert(pair_texts(callee_effects@)[j as int] == (callee_effects@[j as int].0@, callee_effects@[j as int].1@));
        authorized = authorized && ok;
        j = j + 1;
    }
    let mut dependencies: Vec<SemanticId> = Vec::new();
    dependencies.push(function_id(namespace, function));
    dependencies.push(callee.duplicate());
    dependencies.push(subject.duplicate());
    assert(id_views(dependencies@) =~= seq![
        id_text(IdentityKind::Function, seq![namespace@, function@]),
        callee.0@,
        subject.0@,
    ]);
    push_scoped_ids(&mut dependencies, IdentityKind::Capability, namespace, function, required_capabilities);
    ObligationRecord {
        schema_version: String::from_str(OBLIGATION_SCHEMA_VERSION),
        identity: body_obligation_id("call-authority-closure", subject),
        subject: subject.duplicate(),
        requirement: requirement_id("call-authority-closure", callee),
        status: if authorized { ObligationStatus::Pass } else { ObligationStatus::Fail },
        method: String::from_str("language-call-authority-closure"),
        assumptions: Vec::new(),
        dependencies,
        freshness: EvidenceFreshness::Current,
        fallback: None,
    }
}

/// How an indexed access shows it stays within bounds.
#[derive(Debug, Clone, Copy, PartialEq, Eq, Structural)]
pub enum BoundsEvidence {
    StaticExact,
    TraversalDomain,
    CheckedBound,
    RuntimeChecked,
}

/// The indexed accesses whose bounds the obligations track.
#[derive(Debug, Clone, Copy, PartialEq, Eq, Structural)]
pub enum BoundedAccess {
    /// A span copy between two sequences.
    SequenceCopy,
    /// A functional update of one sequence element.
    SequenceReplace,
    /// An extraction or replacement of one vector lane.
    VectorLane,
    /// A projection of one sequence element.
    SequenceProject,
}

/// Whether an access with this evidence keeps an explicit bounds
/// obligation: a span copy unless its bound is static, an update or a lane
/// access when the bound is checked at run time or by a dominating check,
/// and a projection only when checked at run time.
pub open spec fn keeps_bounds_obligation(access: BoundedAccess, evidence: BoundsEvidence) -> bool {
    match access {
        BoundedAccess::SequenceCopy => evidence != BoundsEvidence::StaticExact,
        BoundedAccess::SequenceReplace | BoundedAccess::VectorLane => evidence is CheckedBound || evidence is RuntimeChecked,
        BoundedAccess::SequenceProject => evidence is RuntimeChecked,
    }
}

/// The obligation kind, method and fallback of a kept bounds obligation.
pub open spec fn bounds_kind(access: BoundedAccess) -> Seq<char> {
    match access {
        BoundedAccess::SequenceCopy => "sequence-copy-bounds"@,
        BoundedAccess::SequenceReplace => "sequence-replace-bounds"@,
        BoundedAccess::VectorLane => "vector-lane-bounds"@,
        BoundedAccess::SequenceProject => "sequence-index-bounds"@,
    }
}

pub open spec fn bounds_method(access: BoundedAccess) -> Seq<char> {
    match access {
        BoundedAccess::SequenceCopy => "runtime-checked-span-copy"@,
        BoundedAccess::SequenceReplace => "runtime-checked-functional-update"@,
        BoundedAccess::VectorLane => "runtime-checked-vector-lane"@,
        BoundedAccess::SequenceProject => "runtime-checked-sequence-index"@,
    }
}

pub open spec fn bounds_fallback(access: BoundedAccess) -> Seq<char> {
    match access {
        BoundedAccess::SequenceCopy => "checked span copy with explicit runtime failure"@,
        BoundedAccess::SequenceReplace => "checked update with explicit runtime failure"@,
        BoundedAccess::VectorLane => "the lane operation is available only on the successful bounds-check path"@,
        BoundedAccess::SequenceProject => "the element is available only on the successful bounds-check path"@,
    }
}

/// An UNKNOWN obligation of unknown freshness with no assumptions.
pub open spec fn open_obligation(
    o: ObligationRecord,
    identity: Seq<char>,
    subject: Seq<char>,
    requirement: Seq<char>,
    method: Seq<char>,
    assumptions: Seq<Seq<char>>,
    dependencies: Seq<Seq<char>>,
    fallback: Seq<char>,
) -> bool {
    &&& o.schema_version@ == OBLIGATION_SCHEMA_VERSION@
    &&& o.identity.0@ == identity
    &&& o.subject.0@ == subject
    &&& o.requirement.0@ == requirement
    &&& o.status == ObligationStatus::Unknown
    &&& o.method@ == method
    &&& id_views(o.assumptions@) == assumptions
    &&& id_views(o.dependencies@) == dependencies
    &&& o.freshness == EvidenceFreshness::Unknown
    &&& o.fallback matches Some(f) && f@ == fallback
}

fn open_record(
    identity: SemanticId,
    subject: &SemanticId,
    requirement: SemanticId,
    method: &str,
    assumptions: Vec<SemanticId>,
    dependencies: Vec<SemanticId>,
    fallback: &str,
) -> (r: ObligationRecord)
    ensures
        open_obligation(r, identity.0@, subject.0@, requirement.0@, method@, id_views(assumptions@), id_views(dependencies@), fallback@),
{
    ObligationRecord {
        schema_version: String::from_str(OBLIGATION_SCHEMA_VERSION),
        identity,
        subject: subject.duplicate(),
        requirement,
        status: ObligationStatus::Unknown,
        method: String::from_str(method),
        assumptions,
        dependencies,
        freshness: EvidenceFreshness::Unknown,
        fallback: Some(String::from_str(fallback)),
    }
}

/// The bounds obligation of the indexed access `subject`, when its evidence
/// keeps one: UNKNOWN, depending on the access itself except for a span
/// copy, which depends on nothing (its two sequences share no single
/// domain), and available only on the successful runtime path.
pub fn bounds_obligation(access: BoundedAccess, evidence: BoundsEvidence, subject: &SemanticId) -> (r: Option<ObligationRecord>)
    ensures
        r is Some <==> keeps_bounds_obligation(access, evidence),
        r matches Some(o) ==> open_obligation(
            o,
            body_obligation_text(bounds_kind(access), subject.0@),
            subject.0@,
            requirement_text(bounds_kind(access), subject.0@),
            bounds_method(access),
            seq![],
            if access == BoundedAccess::SequenceCopy { seq![] } else { seq![subject.0@] },
            bounds_fallback(access),
        ),
{
    let kept = match access {
        BoundedAccess::SequenceCopy => match evidence {
            BoundsEvidence::StaticExact => false,
            _ => true,
        },
        BoundedAccess::SequenceReplace | BoundedAccess::VectorLane => match evidence {
            BoundsEvidence::CheckedBound | BoundsEvidence::RuntimeChecked => true,
            _ => false,
        },
        BoundedAccess::SequenceProject => match evidence {
            BoundsEvidence::RuntimeChecked => true,
            _ => false,
        },
    };
    if !kept {
        return None;
    }
    let (kind, method, fallback) = match access {
        BoundedAccess::SequenceCopy => (
            "sequence-copy-bounds",
            "runtime-checked-span-copy",
            "checked span copy with explicit runtime failure",
        ),
        BoundedAccess::SequenceReplace => (
            "sequence-replace-bounds",
            "runtime-checked-functional-update",
            "checked update with explicit runtime failure",
        ),
        BoundedAccess::VectorLane => (
            "vector-lane-bounds",
            "runtime-checked-vector-lane",
            "the lane operation is available only on the successful bounds-check path",
        ),
        BoundedAccess::SequenceProject => (
            "sequence-index-bounds",
            "runtime-checked-sequence-index",
            "the element is available only on the successful bounds-check path",
        ),
    };
    let mut dependencies: Vec<SemanticId> = Vec::new();
    let is_copy = match access {
        BoundedAccess::SequenceCopy => true,
        _ => false,
    };
    if !is_copy {
        dependencies.push(subject.duplicate());
    }
    assert(id_views(dependencies@) =~= (if access == BoundedAccess::SequenceCopy { seq![] } else { seq![subject.0@] }));
    let none: Vec<SemanticId> = Vec::new();
    assert(id_views(none@) =~= Seq::<Seq<char>>::empty());
    Some(open_record(
        body_obligation_id(kind, subject),
        subject,
        requirement_id(kind, subject),
        method,
        none,
        dependencies,
        fallback,
    ))
}

/// The range obligation of a view construction or narrowing `subject`:
/// UNKNOWN until the runtime span check passes.
pub fn view_range_obligation(subject: &SemanticId) -> (r: ObligationRecord)
    ensures
        open_obligation(
            r,
            body_obligation_text("view-range-valid"@, subject.0@),
            subject.0@,
            requirement_text("view-range-valid"@, subject.0@),
            "checked-view-range-construction"@,
            seq![],
            seq![subject.0@],
            "the view value exists only on the successful range-check path"@,
        ),
{
    let mut dependencies: Vec<SemanticId> = Vec::new();
    dependencies.push(subject.duplicate());
    assert(id_views(dependencies@) =~= seq![subject.0@]);
    let none: Vec<SemanticId> = Vec::new();
    assert(id_views(none@) =~= Seq::<Seq<char>>::empty());
    open_record(
        body_obligation_id("view-range-valid", subject),
        subject,
        requirement_id("view-range-valid", subject),
        "checked-view-range-construction",
        none,
        dependencies,
        "the view value exists only on the successful range-check path",
    )
}

/// The finiteness obligation of a binary64 operation, comparison or
/// intrinsic `subject` of `function`: UNKNOWN under the function's
/// assumptions, keeping the non-finite trap.
pub fn float_finite_obligation(function: &SemanticId, assumptions: &[SemanticId], subject: &SemanticId) -> (r: ObligationRecord)
    ensures
        open_obligation(
            r,
            body_obligation_text("float-finite"@, subject.0@),
            subject.0@,
            requirement_text("float-finite"@, subject.0@),
            "symbolic-float-finite"@,
            id_views(assumptions@),
            seq![function.0@, subject.0@],
            "retain the non-finite trap or prove finiteness upstream"@,
        ),
{
    let mut dependencies: Vec<SemanticId> = Vec::new();
    dependencies.push(function.duplicate());
    dependencies.push(subject.duplicate());
    assert(id_views(dependencies@) =~= seq![function.0@, subject.0@]);
    open_record(
        body_obligation_id("float-finite", subject),
        subject,
        requirement_id("float-finite", subject),
        "symbolic-float-finite",
        copy_ids(assumptions),
        dependencies,
        "retain the non-finite trap or prove finiteness upstream",
    )
}

/// The obligation of a runtime check `subject` that establishes the
/// requirement `obligation`: UNKNOWN, the fact holding only on the
/// successful runtime path.
pub fn runtime_check_obligation(subject: &SemanticId, obligation: &SemanticId) -> (r: ObligationRecord)
    ensures
        open_obligation(
            r,
            body_obligation_text("runtime-check"@, subject.0@),
            subject.0@,
            obligation.0@,
            "runtime-check-establishment"@,
            seq![],
            seq![obligation.0@],
            "the fact is available only on the successful runtime path"@,
        ),
{
    let mut dependencies: Vec<SemanticId> = Vec::new();
    dependencies.push(obligation.duplicate());
    assert(id_views(dependencies@) =~= seq![obligation.0@]);
    let none: Vec<SemanticId> = Vec::new();
    assert(id_views(none@) =~= Seq::<Seq<char>>::empty());
    open_record(
        body_obligation_id("runtime-check", subject),
        subject,
        obligation.duplicate(),
        "runtime-check-establishment",
        none,
        dependencies,
        "the fact is available only on the successful runtime path",
    )
}

/// The obligation of one machine-intent requirement `requirement` attached
/// to the body operation `subject`: UNKNOWN, realized conservatively.
pub fn operation_intent_obligation(subject: &SemanticId, requirement: &SemanticId) -> (r: ObligationRecord)
    ensures
        open_obligation(
            r,
            body_obligation_text("machine-intent"@, requirement.0@),
            subject.0@,
            requirement.0@,
            "body-machine-intent"@,
            seq![],
            seq![subject.0@, requirement.0@],
            "use the declared conservative realization"@,
        ),
{
    let mut dependencies: Vec<SemanticId> = Vec::new();
    dependencies.push(subject.duplicate());
    dependencies.push(requirement.duplicate());
    assert(id_views(dependencies@) =~= seq![subject.0@, requirement.0@]);
    let none: Vec<SemanticId> = Vec::new();
    assert(id_views(none@) =~= Seq::<Seq<char>>::empty());
    open_record(
        body_obligation_id("machine-intent", requirement),
        subject,
        requirement.duplicate(),
        "body-machine-intent",
        none,
        dependencies,
        "use the declared conservative realization",
    )
}

/// A declared effect of a function: its identity (derived from the
/// effect's canonical form and occurrence) and the capability it names.
#[derive(Debug, Clone, PartialEq, Eq)]
pub struct DeclaredEffect {
    pub identity: SemanticId,
    pub kind: String,
    pub capability: String,
}

/// A bounded iteration of a function body.
#[derive(Debug, Clone, PartialEq, Eq)]
pub struct IterationDeclaration {
    pub id: String,
    pub backedge: String,
    pub callees: Vec<SemanticId>,
    pub required_capabilities: Vec<String>,
    pub body_blocks: Vec<String>,
}

/// What a function declares that obligations are generated for: its
/// namespace and name, capabilities, assumptions, declared effects, public
/// contracts, the properties its evidence claims, the bounded iterations of
/// its body, and its body's parameters and blocks.
#[derive(Debug, Clone, PartialEq, Eq)]
pub struct FunctionDeclarations {
    pub namespace: String,
    pub name: String,
    pub capabilities: Vec<String>,
    pub assumptions: Vec<String>,
    pub effects: Vec<DeclaredEffect>,
    pub contracts: Vec<String>,
    pub evidence_properties: Vec<String>,
    pub iterations: Vec<IterationDeclaration>,
    pub parameters: Vec<crate::function_body::BodyValue>,
    pub blocks: Vec<crate::function_body::BodyBlock>,
}

/// The iteration facts of a dependency list: strictly sorted, holding
/// exactly the identities the iteration depends on.
pub open spec fn iteration_dependencies_listed(dependencies: Seq<Seq<char>>, namespace: Seq<char>, function: Seq<char>, it: IterationDeclaration) -> bool {
    &&& strictly_sorted(dependencies)
    &&& forall|x: Seq<char>|
        #![trigger dependencies.contains(x)]
        dependencies.contains(x) <==> iteration_dependencies(
            namespace,
            function,
            it.id@,
            id_views(it.callees@),
            texts(it.required_capabilities@),
            texts(it.body_blocks@),
        ).contains(x)
}

/// The six records of `r` from `base` on are the facts of the bounded
/// iteration `it` of `function`.
pub open spec fn iteration_facts_from(r: Seq<ObligationRecord>, base: int, namespace: Seq<char>, function: Seq<char>, it: IterationDeclaration) -> bool {
    exists|dependencies: Seq<Seq<char>>|
        #[trigger] iteration_dependencies_listed(dependencies, namespace, function, it) && forall|k: int|
            0 <= k < 6 ==> #[trigger] iteration_fact(r[base + k], k, iteration_subject(namespace, function, it.id@), dependencies)
}

/// The facts of the `t`-th bounded iteration of `f` stand in `r` after its
/// effect and contract obligations and the facts of the earlier iterations.
pub open spec fn iteration_facts_at(r: Seq<ObligationRecord>, f: FunctionDeclarations, t: int) -> bool {
    iteration_facts_from(r, f.effects@.len() + f.contracts@.len() + 6 * t, f.namespace@, f.name@, f.iterations@[t])
}

proof fn lemma_facts_kept(before: Seq<ObligationRecord>, after: Seq<ObligationRecord>, base: int, namespace: Seq<char>, function: Seq<char>, it: IterationDeclaration)
    requires
        0 <= base,
        base + 6 <= before.len() <= after.len(),
        forall|j: int| 0 <= j < before.len() ==> after[j] == before[j],
        iteration_facts_from(before, base, namespace, function, it),
    ensures
        iteration_facts_from(after, base, namespace, function, it),
{
    let dependencies = choose|dependencies: Seq<Seq<char>>|
        #[trigger] iteration_dependencies_listed(dependencies, namespace, function, it) && forall|k: int|
            0 <= k < 6 ==> #[trigger] iteration_fact(before[base + k], k, iteration_subject(namespace, function, it.id@), dependencies);
    assert forall|k: int| 0 <= k < 6 implies #[trigger] iteration_fact(after[base + k], k, iteration_subject(namespace, function, it.id@), dependencies) by {
        assert(after[base + k] == before[base + k]);
        assert(iteration_fact(before[base + k], k, iteration_subject(namespace, function, it.id@), dependencies));
    }
    assert(iteration_dependencies_listed(dependencies, namespace, function, it));
}

/// The obligations of a function's declarations, in order: one
/// authorization per declared effect, one evidence binding per contract,
/// and the six facts of each bounded iteration.
pub open spec fn declaration_obligations_spec(r: Seq<ObligationRecord>, f: FunctionDeclarations) -> bool {
    let e = f.effects@.len();
    let c = f.contracts@.len();
    &&& r.len() == e + c + 6 * f.iterations@.len()
    &&& forall|i: int|
        0 <= i < e ==> #[trigger] declared_effect_obligation_spec(
            r[i],
            f.namespace@,
            f.name@,
            f.effects@[i].identity.0@,
            f.effects@[i].capability@,
            texts(f.capabilities@),
            texts(f.assumptions@),
        )
    &&& forall|i: int|
        0 <= i < c ==> #[trigger] contract_obligation(
            r[e + i],
            f.namespace@,
            f.name@,
            f.contracts@[i]@,
            texts(f.evidence_properties@),
            texts(f.assumptions@),
        )
    &&& forall|t: int| 0 <= t < f.iterations@.len() ==> #[trigger] iteration_facts_at(r, f, t)
}

/// The obligations a function's declarations establish (see
/// [`declaration_obligations_spec`]).
pub fn declaration_obligations(f: &FunctionDeclarations) -> (r: Vec<ObligationRecord>)
    ensures
        declaration_obligations_spec(r@, *f),
{
    let ns = f.namespace.as_str();
    let name = f.name.as_str();
    let mut out: Vec<ObligationRecord> = Vec::new();
    let mut i: usize = 0;
    while i < f.effects.len()
        invariant
            i <= f.effects@.len(),
            ns@ == f.namespace@,
            name@ == f.name@,
            out@.len() == i,
            forall|j: int|
                0 <= j < i ==> #[trigger] declared_effect_obligation_spec(
                    out@[j],
                    f.namespace@,
                    f.name@,
                    f.effects@[j].identity.0@,
                    f.effects@[j].capability@,
                    texts(f.capabilities@),
                    texts(f.assumptions@),
                ),
        decreases f.effects@.len() - i,
    {
        let effect = &f.effects[i];
        let record = declared_effect_obligation(
            ns,
            name,
            &effect.identity,
            effect.capability.as_str(),
            f.capabilities.as_slice(),
            f.assumptions.as_slice(),
        );
        out.push(record);
        i = i + 1;
    }
    let e = f.effects.len();
    let mut c: usize = 0;
    while c < f.contracts.len()
        invariant
            c <= f.contracts@.len(),
            e == f.effects@.len(),
            ns@ == f.namespace@,
            name@ == f.name@,
            out@.len() == e + c,
            forall|j: int|
                0 <= j < e ==> #[trigger] declared_effect_obligation_spec(
                    out@[j],
                    f.namespace@,
                    f.name@,
                    f.effects@[j].identity.0@,
                    f.effects@[j].capability@,
                    texts(f.capabilities@),
                    texts(f.assumptions@),
                ),
            forall|j: int|
                0 <= j < c ==> #[trigger] contract_obligation(
                    out@[e + j],
                    f.namespace@,
                    f.name@,
                    f.contracts@[j]@,
                    texts(f.evidence_properties@),
                    texts(f.assumptions@),
                ),
        decreases f.contracts@.len() - c,
    {
        let record = contract_evidence_obligation(
            ns,
            name,
            f.contracts[c].as_str(),
            f.evidence_properties.as_slice(),
            f.assumptions.as_slice(),
        );
        let ghost before = out@;
        out.push(record);
        proof {
            assert forall|j: int| 0 <= j < e implies #[trigger] declared_effect_obligation_spec(
                out@[j],
                f.namespace@,
                f.name@,
                f.effects@[j].identity.0@,
                f.effects@[j].capability@,
                texts(f.capabilities@),
                texts(f.assumptions@),
            ) by {
                assert(out@[j] == before[j]);
            }
            assert forall|j: int| 0 <= j < c + 1 implies #[trigger] contract_obligation(
                out@[e + j],
                f.namespace@,
                f.name@,
                f.contracts@[j]@,
                texts(f.evidence_properties@),
                texts(f.assumptions@),
            ) by {
                if j < c {
                    assert(out@[e + j] == before[e + j]);
                }
            }
        }
        c = c + 1;
    }
    let mut t: usize = 0;
    while t < f.iterations.len()
        invariant
            t <= f.iterations@.len(),
            e == f.effects@.len(),
            c == f.contracts@.len(),
            ns@ == f.namespace@,
            name@ == f.name@,
            out@.len() == e + c + 6 * t,
            forall|j: int|
                0 <= j < e ==> #[trigger] declared_effect_obligation_spec(
                    out@[j],
                    f.namespace@,
                    f.name@,
                    f.effects@[j].identity.0@,
                    f.effects@[j].capability@,
                    texts(f.capabilities@),
                    texts(f.assumptions@),
                ),
            forall|j: int|
                0 <= j < c ==> #[trigger] contract_obligation(
                    out@[e + j],
                    f.namespace@,
                    f.name@,
                    f.contracts@[j]@,
                    texts(f.evidence_properties@),
                    texts(f.assumptions@),
                ),
            forall|u: int| 0 <= u < t ==> #[trigger] iteration_facts_at(out@, *f, u),
        decreases f.iterations@.len() - t,
    {
        let iteration = &f.iterations[t];
        let mut records = iteration_obligations(
            ns,
            name,
            iteration.id.as_str(),
            iteration.callees.as_slice(),
            iteration.required_capabilities.as_slice(),
            iteration.body_blocks.as_slice(),
        );
        let ghost added = records@;
        let ghost before = out@;
        out.append(&mut records);
        proof {
            assert(out@ =~= before + added);
            assert forall|j: int| 0 <= j < e implies #[trigger] declared_effect_obligation_spec(
                out@[j],
                f.namespace@,
                f.name@,
                f.effects@[j].identity.0@,
                f.effects@[j].capability@,
                texts(f.capabilities@),
                texts(f.assumptions@),
            ) by {
                assert(out@[j] == before[j]);
            }
            assert forall|j: int| 0 <= j < c implies #[trigger] contract_obligation(
                out@[e + j],
                f.namespace@,
                f.name@,
                f.contracts@[j]@,
                texts(f.evidence_properties@),
                texts(f.assumptions@),
            ) by {
                assert(out@[e + j] == before[e + j]);
            }
            let it = f.iterations@[t as int];
            let base = e + c + 6 * t;
            let dependencies = choose|dependencies: Seq<Seq<char>>|
                {
                    &&& strictly_sorted(dependencies)
                    &&& forall|x: Seq<char>|
                        #![trigger dependencies.contains(x)]
                        dependencies.contains(x) <==> iteration_dependencies(
                            ns@,
                            name@,
                            it.id@,
                            id_views(it.callees@),
                            texts(it.required_capabilities@),
                            texts(it.body_blocks@),
                        ).contains(x)
                    &&& forall|k: int|
                        0 <= k < 6 ==> #[trigger] iteration_fact(
                            added[k],
                            k,
                            iteration_subject(ns@, name@, it.id@),
                            dependencies,
                        )
                };
            assert(iteration_dependencies_listed(dependencies, f.namespace@, f.name@, it));
            assert forall|k: int| 0 <= k < 6 implies #[trigger] iteration_fact(out@[base + k], k, iteration_subject(f.namespace@, f.name@, it.id@), dependencies) by {
                assert(out@[base + k] == added[k]);
                assert(iteration_fact(added[k], k, iteration_subject(ns@, name@, it.id@), dependencies));
            }
            assert(iteration_facts_at(out@, *f, t as int));
            assert forall|u: int| 0 <= u < t implies #[trigger] iteration_facts_at(out@, *f, u) by {
                assert(iteration_facts_at(before, *f, u));
                lemma_facts_kept(before, out@, e + c + 6 * u, f.namespace@, f.name@, f.iterations@[u]);
            }
        }
        t = t + 1;
    }
    out
}

/// `out` is `input` stably ordered by identity: `perm` says where each
/// record came from; records are in identity order, and records with
/// equal identities keep their input order.
pub open spec fn sorted_arrangement(out: Seq<ObligationRecord>, input: Seq<ObligationRecord>, perm: Seq<int>) -> bool {
    &&& perm.len() == out.len()
    &&& out.len() == input.len()
    &&& forall|k: int| 0 <= k < perm.len() ==> 0 <= #[trigger] perm[k] < input.len()
    &&& forall|a: int, b: int| 0 <= a < b < perm.len() ==> #[trigger] perm[a] != #[trigger] perm[b]
    &&& forall|k: int| 0 <= k < out.len() ==> #[trigger] out[k] == input[perm[k]]
    &&& forall|a: int, b: int|
        0 <= a < b < out.len() ==> !seq_lt(#[trigger] out[b].identity.0@, #[trigger] out[a].identity.0@)
    &&& forall|a: int, b: int|
        0 <= a < b < out.len() && (#[trigger] out[a]).identity.0@ == (#[trigger] out[b]).identity.0@ ==> perm[a] < perm[b]
}

/// Insert `record` after every record of `out` it does not precede.
fn insert_by_identity(out: &mut Vec<ObligationRecord>, record: ObligationRecord, Ghost(input): Ghost<Seq<ObligationRecord>>, Ghost(perm): Ghost<Seq<int>>) -> (next: Ghost<Seq<int>>)
    requires
        sorted_arrangement(old(out)@, input, perm),
    ensures
        sorted_arrangement(final(out)@, input.push(record), next@),
{
    let ghost key = record.identity.0@;
    let ghost i = input.len() as int;
    let mut j: usize = 0;
    while j < out.len() && !record.identity.precedes(&out[j].identity)
        invariant
            j <= out@.len(),
            key == record.identity.0@,
            forall|k: int| 0 <= k < j ==> !seq_lt(key, #[trigger] out@[k].identity.0@),
        decreases out@.len() - j,
    {
        j = j + 1;
    }
    let ghost before = out@;
    let ghost old_perm = perm;
    out.insert(j, record);
    let ghost perm = old_perm.insert(j as int, i);
    proof {
        let next_input = input.push(record);
        let now = out@;
        assert(now =~= before.insert(j as int, record));
        assert forall|k: int| 0 <= k < perm.len() implies 0 <= #[trigger] perm[k] < next_input.len() by {
            if k < j {
                assert(perm[k] == old_perm[k]);
            } else if k > j {
                assert(perm[k] == old_perm[k - 1]);
            }
        }
        assert forall|a: int, b: int| 0 <= a < b < perm.len() implies #[trigger] perm[a] != #[trigger] perm[b] by {
            if a < j && b > j {
                assert(perm[b] == old_perm[b - 1]);
            } else if a > j {
                assert(perm[a] == old_perm[a - 1]);
                assert(perm[b] == old_perm[b - 1]);
            } else if a == j {
                assert(perm[b] == old_perm[b - 1]);
            } else if b == j {
                assert(perm[a] == old_perm[a]);
            }
        }
        assert forall|k: int| 0 <= k < now.len() implies #[trigger] now[k] == next_input[perm[k]] by {
            if k < j {
                assert(now[k] == before[k]);
                assert(perm[k] == old_perm[k]);
            } else if k > j {
                assert(now[k] == before[k - 1]);
                assert(perm[k] == old_perm[k - 1]);
            }
        }
        assert forall|a: int, b: int| 0 <= a < b < now.len() implies !seq_lt(
            #[trigger] now[b].identity.0@,
            #[trigger] now[a].identity.0@,
        ) by {
            if a < j && b > j {
                assert(now[a] == before[a]);
                assert(now[b] == before[b - 1]);
            } else if a == j && b > j {
                let y = before[b - 1].identity.0@;
                assert(now[b] == before[b - 1]);
                assert(seq_lt(key, before[j as int].identity.0@));
                if b - 1 != j {
                    assert(!seq_lt(y, before[j as int].identity.0@));
                    if y != before[j as int].identity.0@ {
                        lemma_seq_lt_total(y, before[j as int].identity.0@);
                        lemma_seq_lt_transitive(key, before[j as int].identity.0@, y);
                    }
                }
                lemma_seq_lt_asymmetric(key, y);
            } else if a < j && b == j {
                assert(now[a] == before[a]);
            } else if a > j {
                assert(now[a] == before[a - 1]);
                assert(now[b] == before[b - 1]);
            } else {
                assert(now[a] == before[a]);
                assert(now[b] == before[b]);
            }
        }
        assert forall|a: int, b: int|
            0 <= a < b < now.len() && (#[trigger] now[a]).identity.0@ == (#[trigger] now[b]).identity.0@ implies perm[a]
            < perm[b] by {
            if a < j && b > j {
                assert(now[a] == before[a]);
                assert(now[b] == before[b - 1]);
                assert(perm[a] == old_perm[a]);
                assert(perm[b] == old_perm[b - 1]);
            } else if a == j && b > j {
                let y = before[b - 1].identity.0@;
                assert(now[b] == before[b - 1]);
                assert(seq_lt(key, before[j as int].identity.0@));
                if b - 1 == j {
                    assert(y == key);
                    lemma_seq_lt_asymmetric(key, key);
                } else {
                    assert(!seq_lt(y, before[j as int].identity.0@));
                }
                assert(false);
            } else if a < j && b == j {
                assert(perm[a] == old_perm[a]);
            } else if a > j {
                assert(now[a] == before[a - 1]);
                assert(now[b] == before[b - 1]);
                assert(perm[a] == old_perm[a - 1]);
                assert(perm[b] == old_perm[b - 1]);
            } else {
                assert(now[a] == before[a]);
                assert(now[b] == before[b]);
                assert(perm[a] == old_perm[a]);
                assert(perm[b] == old_perm[b]);
            }
        }
        assert(sorted_arrangement(now, next_input, perm));
    }
    Ghost(perm)
}

/// The obligations of every function, stably ordered by identity: `parts`
/// holds each function's obligations in generation order.
pub open spec fn program_obligations(
    r: Seq<ObligationRecord>,
    functions: Seq<FunctionDeclarations>,
    parts: Seq<Seq<ObligationRecord>>,
    perm: Seq<int>,
) -> bool {
    &&& parts.len() == functions.len()
    &&& forall|i: int| 0 <= i < parts.len() ==> #[trigger] function_obligations_spec(parts[i], functions[i])
    &&& sorted_arrangement(r, parts.flatten(), perm)
}

/// A program, as far as obligations are generated for it: its functions.
#[derive(Debug, Clone, PartialEq, Eq)]
pub struct Program {
    pub functions: Vec<FunctionDeclarations>,
}

impl Program {
    /// The obligations of every function of the program, ordered by
    /// identity (obligations with equal identities in function and
    /// generation order).
    pub fn generate_obligations(&self) -> (r: ObligationGeneration)
        requires
            forall|i: int| 0 <= i < self.functions@.len() ==> #[trigger] operations_representable(self.functions@[i]),
        ensures
            r.schema_version@ == OBLIGATION_SCHEMA_VERSION@,
            exists|parts: Seq<Seq<ObligationRecord>>, perm: Seq<int>|
                #[trigger] program_obligations(r.obligations@, self.functions@, parts, perm),
    {
        let mut out: Vec<ObligationRecord> = Vec::new();
        let ghost mut parts: Seq<Seq<ObligationRecord>> = Seq::empty();
        let ghost mut perm: Seq<int> = Seq::empty();
        let mut i: usize = 0;
        while i < self.functions.len()
            invariant
                i <= self.functions@.len(),
                forall|q: int| 0 <= q < self.functions@.len() ==> #[trigger] operations_representable(self.functions@[q]),
                parts.len() == i,
                forall|q: int| 0 <= q < i ==> #[trigger] function_obligations_spec(parts[q], self.functions@[q]),
                sorted_arrangement(out@, parts.flatten(), perm),
            decreases self.functions@.len() - i,
        {
            let mut records = function_obligations(&self.functions[i]);
            let ghost part = records@;
            let ghost start = parts.flatten();
            let mut taken: usize = 0;
            let total = records.len();
            while records.len() > 0
                invariant
                    taken <= part.len(),
                    part.len() == total,
                    records@ == part.skip(taken as int),
                    sorted_arrangement(out@, start + part.take(taken as int), perm),
                decreases records@.len(),
            {
                let record = records.remove(0);
                proof {
                    assert(record == part[taken as int]);
                    assert(records@ =~= part.skip(taken + 1));
                }
                let ghost_next = insert_by_identity(&mut out, record, Ghost(start + part.take(taken as int)), Ghost(perm));
                proof {
                    perm = ghost_next@;
                    assert((start + part.take(taken as int)).push(part[taken as int]) =~= start + part.take(taken + 1));
                }
                taken = taken + 1;
            }
            proof {
                assert(part.take(taken as int) =~= part);
                parts.lemma_flatten_push(part);
                parts = parts.push(part);
                assert forall|q: int| 0 <= q < i + 1 implies #[trigger] function_obligations_spec(parts[q], self.functions@[q]) by {
                }
            }
            i = i + 1;
        }
        assert(parts.len() == self.functions@.len());
        let generation = ObligationGeneration { schema_version: String::from_str(OBLIGATION_SCHEMA_VERSION), obligations: out };
        assert(program_obligations(generation.obligations@, self.functions@, parts, perm));
        generation
    }
}

} // verus!
