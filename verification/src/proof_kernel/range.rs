//! Range results backed by a kernel proof: an exact constant integer
//! operation whose obligation a proof binding covers.

use vstd::prelude::*;
use vstd::string::*;

use super::artifact::{ProofVerdict, PROOF_KERNEL_ID};
use super::reference::{dependency_views, same_dependencies, ProofBinding, canonical_ids};
use crate::evidence::EvidenceFreshness;
use crate::graph::copy_ids;
use crate::identity::{id_views, SemanticId};
use crate::machine_intent::{evaluation_of, result_width, IntegerOperation, ObligationStatus};
use crate::obligations::ObligationRecord;

verus! {

/// What a range verification is asked: the obligation (with the subject it
/// is about), the subject and scope of the request, and the assumptions,
/// dependencies and dependency fingerprints it is made under.
#[derive(Debug, Clone, PartialEq, Eq)]
pub struct RangeQuery {
    pub obligation: ObligationRecord,
    pub subject: SemanticId,
    pub scope: String,
    pub assumptions: Vec<SemanticId>,
    pub dependencies: Vec<SemanticId>,
    pub dependency_fingerprints: Vec<(SemanticId, String)>,
}

/// How independent a verifier is of the code whose results it checks.
#[derive(Debug, Clone, Copy, PartialEq, Eq, Structural)]
pub enum VerifierIndependence {
    IndependentImplementation,
}

/// The class of authority a piece of evidence carries.
#[derive(Debug, Clone, Copy, PartialEq, Eq, Structural)]
pub enum EvidenceAuthorityClass {
    Verifier,
    KernelProof,
}

/// The method a verifier result was established by.
#[derive(Debug, Clone, Copy, PartialEq, Eq, Structural)]
pub enum VerifierMethod {
    IntegerRange,
    KernelProof,
}

/// Who produced a verifier result.
#[derive(Debug, Clone, PartialEq, Eq)]
pub struct VerifierIdentity {
    pub identity: SemanticId,
    pub name: String,
    pub version: String,
    pub independence: VerifierIndependence,
}

/// A verifier's answer to a query: the status for the obligation and
/// subject, who answered and under which assumptions and dependencies, the
/// artifact it rests on, and what it does not establish.
#[derive(Debug, Clone, PartialEq, Eq)]
pub struct VerifierResult {
    pub obligation: SemanticId,
    pub subject: SemanticId,
    pub scope: String,
    pub status: ObligationStatus,
    pub verifier: VerifierIdentity,
    pub authority: EvidenceAuthorityClass,
    pub method: VerifierMethod,
    pub assumptions: Vec<SemanticId>,
    pub dependencies: Vec<SemanticId>,
    pub dependency_fingerprints: Vec<(SemanticId, String)>,
    pub artifact: Option<String>,
    pub limitations: Vec<String>,
    pub freshness: EvidenceFreshness,
}

/// The binding is reusable for exactly this query: the same proof, this
/// kernel, the query's obligation, assumptions (as a set) and dependency
/// fingerprints, a PASS outcome, and the obligation is about the query's
/// subject.
pub open spec fn binding_covers(query: RangeQuery, binding: ProofBinding) -> bool {
    &&& binding.kernel@ == PROOF_KERNEL_ID@
    &&& binding.obligation.0@ == query.obligation.identity.0@
    &&& id_views(binding.assumptions@) == canonical_ids(id_views(query.assumptions@))
    &&& dependency_views(binding.dependencies@) == dependency_views(query.dependency_fingerprints@)
    &&& binding.outcome == ProofVerdict::Pass
    &&& query.obligation.subject.0@ == query.subject.0@
}

/// The kernel-backed status: PASS only when the binding covers the query
/// and exact evaluation of the operation has a value without overflow;
/// FAIL in every other case.
pub open spec fn kernel_range_status(query: RangeQuery, operation: IntegerOperation, binding: ProofBinding) -> ObligationStatus {
    if binding_covers(query, binding) && !evaluation_of(operation).overflow && evaluation_of(operation).value is Some {
        ObligationStatus::Pass
    } else {
        ObligationStatus::Fail
    }
}

fn copy_fingerprints(v: &Vec<(SemanticId, String)>) -> (r: Vec<(SemanticId, String)>)
    ensures
        dependency_views(r@) == dependency_views(v@),
{
    let mut out: Vec<(SemanticId, String)> = Vec::new();
    let mut i: usize = 0;
    while i < v.len()
        invariant
            i <= v@.len(),
            dependency_views(out@) == dependency_views(v@.take(i as int)),
        decreases v@.len() - i,
    {
        let ghost before = dependency_views(out@);
        let id = v[i].0.duplicate();
        let fp = v[i].1.clone();
        out.push((id, fp));
        assert(dependency_views(out@) =~= before.push((v@[i as int].0.0@, v@[i as int].1@)));
        assert(dependency_views(v@.take(i + 1)) =~= dependency_views(v@.take(i as int)).push((v@[i as int].0.0@, v@[i as int].1@)));
        i = i + 1;
    }
    assert(v@.take(v@.len() as int) =~= v@);
    out
}

/// The verifier-level result for an exact constant integer operation that
/// a kernel proof binding covers, reported with kernel-proof authority and
/// method by the independent reference kernel. The machine-integer range is established
/// by exact evaluation, the proof only covers the bound obligation; every
/// case but a covered, non-overflowing evaluation fails closed.
pub fn kernel_backed_range_result(query: &RangeQuery, operation: &IntegerOperation, binding: &ProofBinding) -> (r: VerifierResult)
    requires
        1 <= result_width(*operation) <= 126,
    ensures
        r.status == kernel_range_status(*query, *operation, *binding),
        r.obligation.0@ == query.obligation.identity.0@,
        r.subject.0@ == query.subject.0@,
        r.scope@ == query.scope@,
        r.verifier.identity.0@ == PROOF_KERNEL_ID@ + ":reference"@,
        r.verifier.name@ == "mncs-proof-kernel"@,
        r.verifier.version@ == "0.1"@,
        r.verifier.independence == VerifierIndependence::IndependentImplementation,
        r.authority == EvidenceAuthorityClass::KernelProof,
        r.method == VerifierMethod::KernelProof,
        id_views(r.assumptions@) == id_views(query.assumptions@),
        id_views(r.dependencies@) == id_views(query.dependencies@),
        dependency_views(r.dependency_fingerprints@) == dependency_views(query.dependency_fingerprints@),
        r.artifact matches Some(a) && a@ == binding.proof.0@,
        r.limitations@.len() == 3,
        r.limitations@[0]@ == "kernel proof covers closed Nat computation identity only"@,
        r.limitations@[1]@ == "machine-integer range established by exact constant evaluation, not by the Nat proof alone"@,
        r.limitations@[2]@ == "valid only for the bound obligation, kernel version, assumptions, and dependencies"@,
        r.freshness == EvidenceFreshness::Current,
{
    let mut identity = String::from_str(PROOF_KERNEL_ID);
    identity.append(":reference");
    let mut limitations: Vec<String> = Vec::new();
    limitations.push(String::from_str("kernel proof covers closed Nat computation identity only"));
    limitations.push(String::from_str("machine-integer range established by exact constant evaluation, not by the Nat proof alone"));
    limitations.push(String::from_str("valid only for the bound obligation, kernel version, assumptions, and dependencies"));
    let covered = binding.reusable_if(
        &binding.proof,
        PROOF_KERNEL_ID,
        &query.obligation.identity,
        query.assumptions.as_slice(),
        query.dependency_fingerprints.as_slice(),
        ProofVerdict::Pass,
    ) && same_dependencies(&binding.dependencies, query.dependency_fingerprints.as_slice())
        && query.obligation.subject.same(&query.subject);
    let status = if !covered {
        ObligationStatus::Fail
    } else {
        let evaluation = operation.evaluate();
        if evaluation.overflow || evaluation.value.is_none() {
            ObligationStatus::Fail
        } else {
            ObligationStatus::Pass
        }
    };
    VerifierResult {
        obligation: query.obligation.identity.duplicate(),
        subject: query.subject.duplicate(),
        scope: query.scope.clone(),
        status,
        verifier: VerifierIdentity {
            identity: SemanticId(identity),
            name: String::from_str("mncs-proof-kernel"),
            version: String::from_str("0.1"),
            independence: VerifierIndependence::IndependentImplementation,
        },
        authority: EvidenceAuthorityClass::KernelProof,
        method: VerifierMethod::KernelProof,
        assumptions: copy_ids(query.assumptions.as_slice()),
        dependencies: copy_ids(query.dependencies.as_slice()),
        dependency_fingerprints: copy_fingerprints(&query.dependency_fingerprints),
        artifact: Some(binding.proof.0.clone()),
        limitations,
        freshness: EvidenceFreshness::Current,
    }
}

} // verus!
