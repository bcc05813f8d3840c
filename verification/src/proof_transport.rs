//! Proof transport: the compiler representation of an admitted proof. A
//! relationship is data only: the issued binding, the independent checker's
//! corroboration report, and the dependency fingerprints it was sealed
//! under. Its gates only ever withhold, never grant.

use vstd::prelude::*;
use vstd::string::*;

use crate::proof_dep::artifact::DepCorroboration;
use crate::proof_dep::check::DepAssumptionSet;
use crate::proof_dep::terms::DepVerdict;
use crate::identity::SemanticId;
use crate::ssa::SsaModule;
use crate::obligations::ObligationRecord;
use crate::provenance::{transformation_identity, TargetIdentity, TransformationRecord};
use crate::text::{lemma_seq_lt_asymmetric, lemma_seq_lt_total, lemma_seq_lt_transitive, seq_lt, str_lt, text_eq};

verus! {

pub const PROOF_RELATIONSHIP_SCHEMA_VERSION: &'static str = "0.1";

/// Dependency slots bound into one admission (slot 3 is reserved zero).
pub const PROOF_DEPENDENCY_SLOTS: usize = 4;

/// Rule name recorded when a proof relationship enters lowering evidence.
pub const PROOF_EVIDENCE_RULE: &'static str = "tranche-0.2-proof-bearing-evidence";

/// Which program issued a binding and how many steps the seal took.
#[derive(Debug, Clone, PartialEq, Eq)]
pub struct ProofAdmissionEvidence {
    pub program_fingerprint: String,
    pub seal_steps: u64,
}

/// One admitted proof: the sealed identities, the canonical assumption set,
/// the issued verdict, the sealed binding record (opaque bytes to every
/// consumer but re-validation), the corroboration report, and the
/// slot-ordered dependency fingerprints.
#[derive(Debug, Clone, PartialEq, Eq)]
pub struct ProofRelationship {
    pub schema_version: String,
    pub proof_identity: String,
    pub obligation: String,
    pub kernel: String,
    pub assumptions: DepAssumptionSet,
    pub mncs_verdict: DepVerdict,
    pub sealed_binding: Vec<u8>,
    pub admission: ProofAdmissionEvidence,
    pub corroboration: DepCorroboration,
    pub dependencies: Vec<String>,
}

/// A relationship may be consumed only with the current schema, full PASS
/// corroboration, an issued PASS, and a valid assumption set.
pub open spec fn relationship_consumable(r: ProofRelationship) -> bool {
    &&& r.schema_version@ == PROOF_RELATIONSHIP_SCHEMA_VERSION@
    &&& r.corroboration is AgreePass
    &&& r.mncs_verdict == DepVerdict::Pass
    &&& r.assumptions.valid
}

impl ProofRelationship {
    pub fn consumable(&self) -> (r: bool)
        ensures
            r == relationship_consumable(*self),
    {
        text_eq(self.schema_version.as_str(), PROOF_RELATIONSHIP_SCHEMA_VERSION) && self.corroboration.consumable()
            && self.mncs_verdict == DepVerdict::Pass && self.assumptions.valid
    }
}

/// How validation refused a relationship. Refusal is always fail-closed.
#[derive(Debug, Clone, PartialEq, Eq, Structural)]
pub enum TransportMismatch {
    NotConsumable,
    ObligationMismatch,
    KernelMismatch,
    DependencyMismatch,
    ObligationAbsent,
}

impl TransportMismatch {
    /// The refusal in words.
    pub fn message(&self) -> (r: &'static str)
        ensures
            r@ == (match self {
                TransportMismatch::NotConsumable => "relationship is not consumable"@,
                TransportMismatch::ObligationMismatch => "obligation identity drifted"@,
                TransportMismatch::KernelMismatch => "kernel identity drifted"@,
                TransportMismatch::DependencyMismatch => "dependency fingerprints drifted"@,
                TransportMismatch::ObligationAbsent => "obligation is absent from this stage"@,
            }),
    {
        match self {
            Self::NotConsumable => "relationship is not consumable",
            Self::ObligationMismatch => "obligation identity drifted",
            Self::KernelMismatch => "kernel identity drifted",
            Self::DependencyMismatch => "dependency fingerprints drifted",
            Self::ObligationAbsent => "obligation is absent from this stage",
        }
    }
}

/// The reference a backend artifact carries for an admitted proof: data to
/// re-fetch and re-validate, never authority.
#[derive(Debug, Clone, PartialEq, Eq)]
pub struct ProofBindingRef {
    pub schema_version: String,
    pub proof_identity: String,
    pub obligation: String,
    pub kernel: String,
    pub dependencies: Vec<String>,
    pub ssa_fingerprint: String,
}

/// The texts of a list of strings.
pub open spec fn texts(s: Seq<String>) -> Seq<Seq<char>> {
    s.map_values(|x: String| x@)
}

pub(crate) fn copy_strings(s: &Vec<String>) -> (r: Vec<String>)
    ensures
        texts(r@) == texts(s@),
{
    let mut out: Vec<String> = Vec::new();
    let mut i: usize = 0;
    while i < s.len()
        invariant
            i <= s@.len(),
            out@.len() == i,
            forall|k: int| 0 <= k < i ==> (#[trigger] out@[k])@ == s@[k]@,
        decreases s@.len() - i,
    {
        out.push(s[i].clone());
        i = i + 1;
    }
    assert(texts(out@) =~= texts(s@));
    out
}

impl ProofRelationship {
    /// The artifact-carried reference form, bound to the exact SSA
    /// fingerprint the backend lowered.
    pub fn binding_ref(&self, ssa_fingerprint: &str) -> (r: ProofBindingRef)
        ensures
            r.schema_version@ == self.schema_version@,
            r.proof_identity@ == self.proof_identity@,
            r.obligation@ == self.obligation@,
            r.kernel@ == self.kernel@,
            texts(r.dependencies@) == texts(self.dependencies@),
            r.ssa_fingerprint@ == ssa_fingerprint@,
    {
        ProofBindingRef {
            schema_version: self.schema_version.clone(),
            proof_identity: self.proof_identity.clone(),
            obligation: self.obligation.clone(),
            kernel: self.kernel.clone(),
            dependencies: copy_strings(&self.dependencies),
            ssa_fingerprint: String::from_str(ssa_fingerprint),
        }
    }
}

fn same_strings(a: &Vec<String>, b: &[String]) -> (r: bool)
    ensures
        r == (texts(a@) == texts(b@)),
{
    if a.len() != b.len() {
        assert(texts(a@).len() != texts(b@).len());
        return false;
    }
    let mut i: usize = 0;
    while i < a.len()
        invariant
            i <= a@.len(),
            a@.len() == b@.len(),
            forall|k: int| 0 <= k < i ==> texts(a@)[k] == texts(b@)[k],
        decreases a@.len() - i,
    {
        if !text_eq(a[i].as_str(), b[i].as_str()) {
            assert(texts(a@)[i as int] != texts(b@)[i as int]);
            return false;
        }
        i = i + 1;
    }
    assert(texts(a@) =~= texts(b@));
    true
}

/// The refusal validation reports, checked in order: consumability, then
/// the obligation, the kernel, and the slot-ordered fingerprints.
pub open spec fn transport_check(r: ProofRelationship, obligation: Seq<char>, kernel: Seq<char>, dependencies: Seq<Seq<char>>) -> Result<
    (),
    TransportMismatch,
> {
    if !relationship_consumable(r) {
        Err(TransportMismatch::NotConsumable)
    } else if r.obligation@ != obligation {
        Err(TransportMismatch::ObligationMismatch)
    } else if r.kernel@ != kernel {
        Err(TransportMismatch::KernelMismatch)
    } else if texts(r.dependencies@) != dependencies {
        Err(TransportMismatch::DependencyMismatch)
    } else {
        Ok(())
    }
}

/// Data-level validation before any reuse check: the relationship must be
/// consumable on its face and name exactly the obligation, kernel and
/// dependency fingerprints presented now.
pub fn validate_relationship_for_use(
    relationship: &ProofRelationship,
    obligation: &str,
    kernel: &str,
    dependencies: &[String],
) -> (r: Result<(), TransportMismatch>)
    ensures
        r == transport_check(*relationship, obligation@, kernel@, texts(dependencies@)),
{
    if !relationship.consumable() {
        return Err(TransportMismatch::NotConsumable);
    }
    if !text_eq(relationship.obligation.as_str(), obligation) {
        return Err(TransportMismatch::ObligationMismatch);
    }
    if !text_eq(relationship.kernel.as_str(), kernel) {
        return Err(TransportMismatch::KernelMismatch);
    }
    if !same_strings(&relationship.dependencies, dependencies) {
        return Err(TransportMismatch::DependencyMismatch);
    }
    Ok(())
}

/// Outcome of recording proof-bearing lowering evidence: `recorded` only
/// when the relationship, the reuse verdict and the current fingerprints all
/// agree; otherwise the record documents the withholding.
#[derive(Debug, Clone, PartialEq, Eq)]
pub struct ProofEvidenceOutcome {
    pub recorded: bool,
    pub record: TransformationRecord,
    pub reason: String,
}

/// A relationship that validates is consumable: validation only withholds.
pub proof fn lemma_validation_never_grants(r: ProofRelationship, obligation: Seq<char>, kernel: Seq<char>, dependencies: Seq<Seq<char>>)
    ensures
        transport_check(r, obligation, kernel, dependencies) is Ok ==> relationship_consumable(r) && r.obligation@ == obligation
            && r.kernel@ == kernel && texts(r.dependencies@) == dependencies,
{
}

/// The first relationship, from `from` on, for the proof `id`.
pub open spec fn first_for(s: Seq<ProofRelationship>, id: Seq<char>, from: int) -> Option<int>
    decreases s.len() - from,
{
    if from < 0 || from >= s.len() {
        None
    } else if s[from].proof_identity@ == id {
        Some(from)
    } else {
        first_for(s, id, from + 1)
    }
}

/// Attaching replaces the relationship recorded for the same proof, or
/// appends one.
pub open spec fn upsert(s: Seq<ProofRelationship>, r: ProofRelationship) -> Seq<ProofRelationship> {
    match first_for(s, r.proof_identity@, 0) {
        Some(i) => s.update(i, r),
        None => s.push(r),
    }
}

/// Some obligation record of the stage has identity `obligation`.
pub open spec fn obligation_listed(obligations: Seq<ObligationRecord>, obligation: Seq<char>) -> bool {
    exists|i: int| 0 <= i < obligations.len() && (#[trigger] obligations[i]).identity.0@ == obligation
}

fn find_relationship(relationships: &[ProofRelationship], proof_identity: &str) -> (r: Option<usize>)
    ensures
        match r {
            Some(i) => first_for(relationships@, proof_identity@, 0) == Some(i as int) && i < relationships@.len(),
            None => first_for(relationships@, proof_identity@, 0) is None,
        },
{
    let mut i: usize = 0;
    while i < relationships.len()
        invariant
            i <= relationships@.len(),
            first_for(relationships@, proof_identity@, 0) == first_for(relationships@, proof_identity@, i as int),
        decreases relationships@.len() - i,
    {
        if text_eq(relationships[i].proof_identity.as_str(), proof_identity) {
            return Some(i);
        }
        i = i + 1;
    }
    None
}

fn lists_obligation(obligations: &[ObligationRecord], obligation: &str) -> (r: bool)
    ensures
        r == obligation_listed(obligations@, obligation@),
{
    let mut i: usize = 0;
    while i < obligations.len()
        invariant
            i <= obligations@.len(),
            forall|k: int| 0 <= k < i ==> (#[trigger] obligations@[k]).identity.0@ != obligation@,
        decreases obligations@.len() - i,
    {
        if text_eq(obligations[i].identity.0.as_str(), obligation) {
            return true;
        }
        i = i + 1;
    }
    false
}

/// Attach an admitted relationship to a lowered stage holding
/// `relationships` for `obligations`: the obligation must be live in the
/// stage, and the relationship must be consumable with exactly the
/// presented dependency fingerprints. Any drift refuses attachment and
/// leaves the stage unchanged; attachment never repairs.
pub fn attach_proof_relationship(
    relationships: &mut Vec<ProofRelationship>,
    obligations: &[ObligationRecord],
    relationship: ProofRelationship,
    dependencies: &[String],
) -> (r: Result<(), TransportMismatch>)
    ensures
        !obligation_listed(obligations@, relationship.obligation@) ==> r == Err::<(), TransportMismatch>(
            TransportMismatch::ObligationAbsent,
        ),
        obligation_listed(obligations@, relationship.obligation@) ==> r == transport_check(
            relationship,
            relationship.obligation@,
            relationship.kernel@,
            texts(dependencies@),
        ),
        r is Ok ==> final(relationships)@ == upsert(old(relationships)@, relationship),
        r is Err ==> final(relationships)@ == old(relationships)@,
{
    if !lists_obligation(obligations, relationship.obligation.as_str()) {
        return Err(TransportMismatch::ObligationAbsent);
    }
    let checked = validate_relationship_for_use(
        &relationship,
        relationship.obligation.as_str(),
        relationship.kernel.as_str(),
        dependencies,
    );
    match checked {
        Err(mismatch) => Err(mismatch),
        Ok(()) => {
            match find_relationship(relationships.as_slice(), relationship.proof_identity.as_str()) {
                Some(i) => {
                    relationships.set(i, relationship);
                },
                None => {
                    relationships.push(relationship);
                },
            }
            Ok(())
        },
    }
}

pub const PROOF_EVIDENCE_TARGET: &'static str = "mncs:0.4:target:portable";

pub const PROOF_EVIDENCE_IMPLEMENTATION: &'static str = "mncs:0.4:transformation:proof-bearing-evidence";

/// The portable target proof-bearing evidence is recorded for.
pub open spec fn evidence_target(t: TargetIdentity) -> bool {
    &&& t.identity.0@ == PROOF_EVIDENCE_TARGET@
    &&& t.family@ == "portable"@
    &&& t.features@.len() == 0
    &&& t.integer_widths@ == seq![8u16, 16u16, 32u16, 64u16, 128u16]
    &&& t.abi is None
}

pub(crate) fn proof_evidence_target() -> (t: TargetIdentity)
    ensures
        evidence_target(t),
{
    let mut widths: Vec<u16> = Vec::new();
    widths.push(8);
    widths.push(16);
    widths.push(32);
    widths.push(64);
    widths.push(128);
    assert(widths@ =~= seq![8u16, 16u16, 32u16, 64u16, 128u16]);
    TargetIdentity {
        identity: SemanticId(String::from_str(PROOF_EVIDENCE_TARGET)),
        family: String::from_str("portable"),
        features: Vec::new(),
        integer_widths: widths,
        abi: None,
    }
}

/// Why evidence was withheld or recorded, and whether it was.
pub open spec fn evidence_verdict(
    relationships: Seq<ProofRelationship>,
    proof_identity: Seq<char>,
    obligation: Seq<char>,
    dependencies: Seq<Seq<char>>,
    permitted_by_mncs: bool,
) -> (bool, Seq<char>) {
    match first_for(relationships, proof_identity, 0) {
        None => (false, "no such proof relationship is attached to this SSA"@),
        Some(i) => if transport_check(relationships[i], obligation, relationships[i].kernel@, dependencies) is Err {
            (false, "proof relationship drifted from the current use; evidence withheld"@)
        } else if !permitted_by_mncs {
            (false, "MNCS reuse check refused; evidence withheld"@)
        } else {
            (true, "MNCS-admitted proof "@ + proof_identity + " corroborated and current; evidence recorded"@)
        },
    }
}

/// The evidence record for using proof `proof_identity` at stage `stage`:
/// its identity from the stage, rule, operation, target and implementation,
/// the obligation it required, and the proof as consumed or invalidated.
pub open spec fn evidence_record(
    t: TransformationRecord,
    stage: SemanticId,
    operation: SemanticId,
    obligation: Seq<char>,
    proof_identity: Seq<char>,
    consumed: bool,
) -> bool {
    &&& t.schema_version@ == crate::provenance::PROVENANCE_SCHEMA_VERSION@
    &&& t.identity.0@ == transformation_identity(stage, stage, PROOF_EVIDENCE_RULE@, operation, t.target, t.implementation)
    &&& evidence_target(t.target)
    &&& t.realization is None
    &&& t.runtime_checks_inserted@.len() == 0
    &&& t.facts_established@.len() == 0
    &&& t.backend_promises_permitted@.len() == 0
    &&& t.backend_promises_withheld@.len() == 0
    &&& t.input_identity.0@ == stage.0@
    &&& t.output_identity.0@ == stage.0@
    &&& t.rule@ == PROOF_EVIDENCE_RULE@
    &&& t.operation.0@ == operation.0@
    &&& t.implementation.0@ == PROOF_EVIDENCE_IMPLEMENTATION@
    &&& crate::identity::id_views(t.obligations_required@) == seq![obligation]
    &&& consumed ==> crate::identity::id_views(t.evidence_consumed@) == seq![proof_identity]
        && t.invalidated_evidence@.len() == 0
    &&& !consumed ==> crate::identity::id_views(t.invalidated_evidence@) == seq![proof_identity]
        && t.evidence_consumed@.len() == 0
}

fn make_evidence_record(
    stage: &SemanticId,
    operation: &SemanticId,
    obligation: &str,
    proof_identity: &str,
    consumed: bool,
) -> (t: TransformationRecord)
    ensures
        evidence_record(t, *stage, *operation, obligation@, proof_identity@, consumed),
{
    let mut record = TransformationRecord::new(
        stage.duplicate(),
        stage.duplicate(),
        String::from_str(PROOF_EVIDENCE_RULE),
        operation.duplicate(),
        proof_evidence_target(),
        SemanticId(String::from_str(PROOF_EVIDENCE_IMPLEMENTATION)),
    );
    record.obligations_required.push(SemanticId(String::from_str(obligation)));
    assert(crate::identity::id_views(record.obligations_required@) =~= seq![obligation@]);
    if consumed {
        record.evidence_consumed.push(SemanticId(String::from_str(proof_identity)));
        assert(crate::identity::id_views(record.evidence_consumed@) =~= seq![proof_identity@]);
    } else {
        record.invalidated_evidence.push(SemanticId(String::from_str(proof_identity)));
        assert(crate::identity::id_views(record.invalidated_evidence@) =~= seq![proof_identity@]);
    }
    record
}

/// A transformation record as plain values: every field by its view.
pub open spec fn record_view(t: TransformationRecord) -> (
    (Seq<char>, Seq<char>, Seq<char>, Seq<char>, Seq<char>, Seq<char>),
    (Option<Seq<char>>, Seq<Seq<char>>, Seq<Seq<char>>, Seq<Seq<char>>, Seq<Seq<char>>),
    (Seq<Seq<char>>, Seq<Seq<char>>, Seq<Seq<char>>),
    (Seq<char>, Seq<char>, Seq<Seq<char>>, Seq<u16>, Option<Seq<char>>, Seq<char>),
) {
    (
        (t.schema_version@, t.identity.0@, t.input_identity.0@, t.output_identity.0@, t.rule@, t.operation.0@),
        (
            match t.realization {
                Some(x) => Some(x.0@),
                None => None,
            },
            crate::identity::id_views(t.obligations_required@),
            crate::identity::id_views(t.evidence_consumed@),
            crate::identity::id_views(t.runtime_checks_inserted@),
            crate::identity::id_views(t.facts_established@),
        ),
        (texts(t.backend_promises_permitted@), texts(t.backend_promises_withheld@), crate::identity::id_views(
            t.invalidated_evidence@,
        )),
        (
            t.target.identity.0@,
            t.target.family@,
            texts(t.target.features@),
            t.target.integer_widths@,
            match t.target.abi {
                Some(a) => Some(a@),
                None => None,
            },
            t.implementation.0@,
        ),
    )
}

/// Record proof-bearing lowering evidence for one attached relationship of
/// the stage `stage` (which holds `relationships`), appending the record to
/// `transformations`. `permitted_by_mncs` is the transported reuse verdict
/// for the exact current fingerprints; this can only withhold it: evidence
/// is recorded only when the relationship is attached, consumable, names
/// the same obligation and fingerprints, and the verdict permits.
pub fn record_proof_evidence(
    stage: &SemanticId,
    relationships: &[ProofRelationship],
    transformations: &mut Vec<TransformationRecord>,
    proof_identity: &str,
    operation: &SemanticId,
    obligation: &str,
    dependencies: &[String],
    permitted_by_mncs: bool,
) -> (r: ProofEvidenceOutcome)
    ensures
        (r.recorded, r.reason@) == evidence_verdict(
            relationships@,
            proof_identity@,
            obligation@,
            texts(dependencies@),
            permitted_by_mncs,
        ),
        evidence_record(r.record, *stage, *operation, obligation@, proof_identity@, r.recorded),
        r.recorded <==> (first_for(relationships@, proof_identity@, 0) matches Some(i) && transport_check(
            relationships@[i],
            obligation@,
            relationships@[i].kernel@,
            texts(dependencies@),
        ) is Ok && permitted_by_mncs),
        final(transformations)@.len() == old(transformations)@.len() + 1,
        final(transformations)@.drop_last() == old(transformations)@,
        evidence_record(final(transformations)@.last(), *stage, *operation, obligation@, proof_identity@, r.recorded),
        record_view(final(transformations)@.last()) == record_view(r.record),
{
    let verdict = match find_relationship(relationships, proof_identity) {
        None => Err(String::from_str("no such proof relationship is attached to this SSA")),
        Some(i) => {
            let relationship = &relationships[i];
            if validate_relationship_for_use(relationship, obligation, relationship.kernel.as_str(), dependencies).is_err() {
                Err(String::from_str("proof relationship drifted from the current use; evidence withheld"))
            } else if !permitted_by_mncs {
                Err(String::from_str("MNCS reuse check refused; evidence withheld"))
            } else {
                let reason = String::from_str("MNCS-admitted proof ").concat(proof_identity).concat(
                    " corroborated and current; evidence recorded",
                );
                Ok(reason)
            }
        },
    };
    let (recorded, reason) = match verdict {
        Ok(reason) => (true, reason),
        Err(reason) => (false, reason),
    };
    let ghost before = transformations@;
    let appended = make_evidence_record(stage, operation, obligation, proof_identity, recorded);
    let record = make_evidence_record(stage, operation, obligation, proof_identity, recorded);
    proof {
        assert(texts(appended.target.features@) =~= texts(record.target.features@));
        assert(texts(appended.backend_promises_permitted@) =~= texts(record.backend_promises_permitted@));
        assert(texts(appended.backend_promises_withheld@) =~= texts(record.backend_promises_withheld@));
        assert(crate::identity::id_views(appended.runtime_checks_inserted@) =~= crate::identity::id_views(
            record.runtime_checks_inserted@,
        ));
        assert(crate::identity::id_views(appended.facts_established@) =~= crate::identity::id_views(
            record.facts_established@,
        ));
        if recorded {
            assert(crate::identity::id_views(appended.invalidated_evidence@) =~= crate::identity::id_views(
                record.invalidated_evidence@,
            ));
        } else {
            assert(crate::identity::id_views(appended.evidence_consumed@) =~= crate::identity::id_views(
                record.evidence_consumed@,
            ));
        }
        assert(appended.target.features@.len() == 0);
    }
    transformations.push(appended);
    assert(transformations@.drop_last() =~= before);
    ProofEvidenceOutcome { recorded, record, reason }
}

/// Lexicographic order of string lists (the order `Vec<String>` compares in).
pub open spec fn texts_lt(a: Seq<Seq<char>>, b: Seq<Seq<char>>) -> bool
    decreases a.len(),
{
    if b.len() == 0 {
        false
    } else if a.len() == 0 {
        true
    } else if seq_lt(a[0], b[0]) {
        true
    } else if seq_lt(b[0], a[0]) {
        false
    } else {
        texts_lt(a.drop_first(), b.drop_first())
    }
}

proof fn lemma_texts_lt_asymmetric(a: Seq<Seq<char>>, b: Seq<Seq<char>>)
    ensures
        !(texts_lt(a, b) && texts_lt(b, a)),
    decreases a.len(),
{
    if a.len() > 0 && b.len() > 0 {
        lemma_seq_lt_asymmetric(a[0], b[0]);
        lemma_texts_lt_asymmetric(a.drop_first(), b.drop_first());
    }
}

proof fn lemma_texts_lt_transitive(a: Seq<Seq<char>>, b: Seq<Seq<char>>, c: Seq<Seq<char>>)
    requires
        texts_lt(a, b),
        texts_lt(b, c),
    ensures
        texts_lt(a, c),
    decreases a.len(),
{
    if a.len() > 0 && b.len() > 0 && c.len() > 0 {
        lemma_seq_lt_asymmetric(a[0], b[0]);
        lemma_seq_lt_asymmetric(b[0], c[0]);
        lemma_seq_lt_asymmetric(a[0], c[0]);
        if seq_lt(a[0], b[0]) && seq_lt(b[0], c[0]) {
            lemma_seq_lt_transitive(a[0], b[0], c[0]);
        }
        if !seq_lt(a[0], b[0]) && !seq_lt(b[0], a[0]) && a[0] != b[0] {
            lemma_seq_lt_total(a[0], b[0]);
        }
        if !seq_lt(b[0], c[0]) && !seq_lt(c[0], b[0]) && b[0] != c[0] {
            lemma_seq_lt_total(b[0], c[0]);
        }
        if a[0] == b[0] && b[0] == c[0] {
            lemma_texts_lt_transitive(a.drop_first(), b.drop_first(), c.drop_first());
        }
    }
}

proof fn lemma_texts_lt_total(a: Seq<Seq<char>>, b: Seq<Seq<char>>)
    requires
        a != b,
    ensures
        texts_lt(a, b) || texts_lt(b, a),
    decreases a.len(),
{
    if a.len() > 0 && b.len() > 0 {
        if a[0] != b[0] {
            lemma_seq_lt_total(a[0], b[0]);
        } else {
            if a.drop_first() == b.drop_first() {
                assert(a =~= seq![a[0]] + a.drop_first());
                assert(b =~= seq![b[0]] + b.drop_first());
            }
            lemma_seq_lt_asymmetric(a[0], a[0]);
            lemma_texts_lt_total(a.drop_first(), b.drop_first());
        }
    } else if a.len() == 0 && b.len() == 0 {
        assert(a =~= b);
    }
}

/// A reference as (schema, proof, obligation, kernel, dependencies, fingerprint).
pub type RefView = (Seq<char>, Seq<char>, Seq<char>, Seq<char>, Seq<Seq<char>>, Seq<char>);

pub open spec fn ref_view(r: ProofBindingRef) -> RefView {
    (r.schema_version@, r.proof_identity@, r.obligation@, r.kernel@, texts(r.dependencies@), r.ssa_fingerprint@)
}

pub open spec fn ref_views(s: Seq<ProofBindingRef>) -> Seq<RefView> {
    s.map_values(|r: ProofBindingRef| ref_view(r))
}

/// The reference a relationship contributes under fingerprint `fingerprint`.
pub open spec fn ref_of(r: ProofRelationship, fingerprint: Seq<char>) -> RefView {
    (r.schema_version@, r.proof_identity@, r.obligation@, r.kernel@, texts(r.dependencies@), fingerprint)
}

/// References order by proof, obligation, kernel, dependencies and
/// fingerprint, and finally by schema, so two references are unordered only
/// when they are the same reference.
pub open spec fn ref_lt(a: RefView, b: RefView) -> bool {
    ||| seq_lt(a.1, b.1)
    ||| a.1 == b.1 && seq_lt(a.2, b.2)
    ||| a.1 == b.1 && a.2 == b.2 && seq_lt(a.3, b.3)
    ||| a.1 == b.1 && a.2 == b.2 && a.3 == b.3 && texts_lt(a.4, b.4)
    ||| a.1 == b.1 && a.2 == b.2 && a.3 == b.3 && a.4 == b.4 && seq_lt(a.5, b.5)
    ||| a.1 == b.1 && a.2 == b.2 && a.3 == b.3 && a.4 == b.4 && a.5 == b.5 && seq_lt(a.0, b.0)
}

pub open spec fn same_key(a: RefView, b: RefView) -> bool {
    a.0 == b.0 && a.1 == b.1 && a.2 == b.2 && a.3 == b.3 && a.4 == b.4 && a.5 == b.5
}

proof fn lemma_ref_lt_asymmetric(a: RefView, b: RefView)
    ensures
        !(ref_lt(a, b) && ref_lt(b, a)),
{
    lemma_seq_lt_asymmetric(a.1, b.1);
    lemma_seq_lt_asymmetric(a.2, b.2);
    lemma_seq_lt_asymmetric(a.3, b.3);
    lemma_texts_lt_asymmetric(a.4, b.4);
    lemma_seq_lt_asymmetric(a.5, b.5);
    lemma_seq_lt_asymmetric(a.0, b.0);
    lemma_seq_lt_asymmetric(a.5, a.5);
    lemma_seq_lt_asymmetric(a.1, a.1);
    lemma_seq_lt_asymmetric(a.2, a.2);
    lemma_seq_lt_asymmetric(a.3, a.3);
    lemma_texts_lt_asymmetric(a.4, a.4);
}

proof fn lemma_ref_lt_transitive(a: RefView, b: RefView, c: RefView)
    requires
        ref_lt(a, b),
        ref_lt(b, c),
    ensures
        ref_lt(a, c),
{
    if seq_lt(a.1, b.1) && seq_lt(b.1, c.1) {
        lemma_seq_lt_transitive(a.1, b.1, c.1);
    }
    if a.1 == b.1 && b.1 == c.1 {
        if seq_lt(a.2, b.2) && seq_lt(b.2, c.2) {
            lemma_seq_lt_transitive(a.2, b.2, c.2);
        }
        if a.2 == b.2 && b.2 == c.2 {
            if seq_lt(a.3, b.3) && seq_lt(b.3, c.3) {
                lemma_seq_lt_transitive(a.3, b.3, c.3);
            }
            if a.3 == b.3 && b.3 == c.3 {
                if texts_lt(a.4, b.4) && texts_lt(b.4, c.4) {
                    lemma_texts_lt_transitive(a.4, b.4, c.4);
                }
                if a.4 == b.4 && b.4 == c.4 && seq_lt(a.5, b.5) && seq_lt(b.5, c.5) {
                    lemma_seq_lt_transitive(a.5, b.5, c.5);
                }
                if a.4 == b.4 && b.4 == c.4 && a.5 == b.5 && b.5 == c.5 && seq_lt(a.0, b.0) && seq_lt(b.0, c.0) {
                    lemma_seq_lt_transitive(a.0, b.0, c.0);
                }
            }
        }
    }
}

proof fn lemma_ref_lt_total(a: RefView, b: RefView)
    requires
        !same_key(a, b),
    ensures
        ref_lt(a, b) || ref_lt(b, a),
{
    if a.1 != b.1 {
        lemma_seq_lt_total(a.1, b.1);
    } else if a.2 != b.2 {
        lemma_seq_lt_total(a.2, b.2);
    } else if a.3 != b.3 {
        lemma_seq_lt_total(a.3, b.3);
    } else if a.4 != b.4 {
        lemma_texts_lt_total(a.4, b.4);
    } else if a.5 != b.5 {
        lemma_seq_lt_total(a.5, b.5);
    } else {
        lemma_seq_lt_total(a.0, b.0);
    }
}

/// `sorted` is the references of `rels` under `fingerprint`, stably sorted:
/// `perm` says which relationship each came from, the order is by
/// `ref_lt`, and references with equal keys keep their relationships' order.
pub open spec fn stable_refs(sorted: Seq<RefView>, rels: Seq<ProofRelationship>, fingerprint: Seq<char>, perm: Seq<int>) -> bool {
    &&& perm.len() == sorted.len()
    &&& sorted.len() == rels.len()
    &&& forall|k: int| 0 <= k < perm.len() ==> 0 <= #[trigger] perm[k] < rels.len()
    &&& forall|a: int, b: int| 0 <= a < b < perm.len() ==> #[trigger] perm[a] != #[trigger] perm[b]
    &&& forall|k: int| 0 <= k < sorted.len() ==> #[trigger] sorted[k] == ref_of(rels[perm[k]], fingerprint)
    &&& forall|a: int, b: int| 0 <= a < b < sorted.len() ==> !ref_lt(#[trigger] sorted[b], #[trigger] sorted[a])
    &&& forall|a: int, b: int|
        0 <= a < b < sorted.len() && same_key(#[trigger] sorted[a], #[trigger] sorted[b]) ==> perm[a] < perm[b]
}

/// Consecutive equal references collapse into one.
pub open spec fn dedup_refs(s: Seq<RefView>) -> Seq<RefView>
    decreases s.len(),
{
    if s.len() == 0 {
        s
    } else if s.len() >= 2 && s[s.len() - 1] == s[s.len() - 2] {
        dedup_refs(s.drop_last())
    } else {
        dedup_refs(s.drop_last()).push(s.last())
    }
}

/// Collapsing the repeats of an ordered sequence leaves it strictly
/// ordered, with the same members.
proof fn lemma_dedup_ordered(s: Seq<RefView>)
    requires
        forall|a: int, b: int| 0 <= a < b < s.len() ==> !ref_lt(#[trigger] s[b], #[trigger] s[a]),
    ensures
        forall|a: int, b: int| 0 <= a < b < dedup_refs(s).len() ==> ref_lt(#[trigger] dedup_refs(s)[a], #[trigger] dedup_refs(s)[b]),
        forall|x: RefView| dedup_refs(s).contains(x) <==> s.contains(x),
        s.len() > 0 ==> dedup_refs(s).len() > 0 && dedup_refs(s).last() == s.last(),
    decreases s.len(),
{
    if s.len() > 0 {
        let t = s.drop_last();
        lemma_dedup_ordered(t);
        let d = dedup_refs(t);
        assert forall|x: RefView| s.contains(x) <==> (t.contains(x) || x == s.last()) by {
            if s.contains(x) {
                let k = choose|k: int| 0 <= k < s.len() && s[k] == x;
                if k < s.len() - 1 {
                    assert(t[k] == x);
                }
            }
            if t.contains(x) {
                let k = choose|k: int| 0 <= k < t.len() && t[k] == x;
                assert(s[k] == x);
            }
            if x == s.last() {
                assert(s[s.len() - 1] == x);
            }
        }
        if s.len() >= 2 && s[s.len() - 1] == s[s.len() - 2] {
            assert(t.last() == s.last());
            assert(t.contains(t.last()));
        } else {
            let e = s.last();
            let w = d.push(e);
            assert(dedup_refs(s) == w);
            if s.len() >= 2 {
                let p = s[s.len() - 2];
                assert(t.last() == p);
                assert(!ref_lt(e, p));
                if !same_key(p, e) {
                    lemma_ref_lt_total(p, e);
                }
                assert forall|a: int, b: int| 0 <= a < b < w.len() implies ref_lt(#[trigger] w[a], #[trigger] w[b]) by {
                    if b == w.len() - 1 {
                        if a < d.len() - 1 {
                            assert(ref_lt(d[a], d[d.len() - 1]));
                            lemma_ref_lt_transitive(d[a], p, e);
                        }
                    } else {
                        assert(w[a] == d[a] && w[b] == d[b]);
                    }
                }
            } else {
                assert(d.len() == 0);
            }
            assert forall|x: RefView| w.contains(x) <==> (d.contains(x) || x == e) by {
                if w.contains(x) {
                    let k = choose|k: int| 0 <= k < w.len() && w[k] == x;
                    if k < d.len() {
                        assert(d[k] == x);
                    }
                }
                if d.contains(x) {
                    let k = choose|k: int| 0 <= k < d.len() && d[k] == x;
                    assert(w[k] == x);
                }
                if x == e {
                    assert(w[w.len() - 1] == x);
                }
            }
        }
    }
}

fn texts_less(a: &Vec<String>, b: &Vec<String>) -> (r: bool)
    ensures
        r == texts_lt(texts(a@), texts(b@)),
{
    let mut i: usize = 0;
    assert(texts(a@).skip(0) =~= texts(a@));
    assert(texts(b@).skip(0) =~= texts(b@));
    while i < a.len() && i < b.len()
        invariant
            i <= a@.len(),
            i <= b@.len(),
            texts_lt(texts(a@), texts(b@)) == texts_lt(texts(a@).skip(i as int), texts(b@).skip(i as int)),
        decreases a@.len() - i,
    {
        proof {
            crate::frame::lemma_skip_step(texts(a@), i as int);
            crate::frame::lemma_skip_step(texts(b@), i as int);
        }
        if str_lt(a[i].as_str(), b[i].as_str()) {
            return true;
        }
        if str_lt(b[i].as_str(), a[i].as_str()) {
            return false;
        }
        i = i + 1;
    }
    i < b.len()
}

fn ref_less(a: &ProofBindingRef, b: &ProofBindingRef) -> (r: bool)
    ensures
        r == ref_lt(ref_view(*a), ref_view(*b)),
{
    if str_lt(a.proof_identity.as_str(), b.proof_identity.as_str()) {
        return true;
    }
    if !text_eq(a.proof_identity.as_str(), b.proof_identity.as_str()) {
        proof {
            lemma_seq_lt_asymmetric(a.proof_identity@, a.proof_identity@);
        }
        return false;
    }
    if str_lt(a.obligation.as_str(), b.obligation.as_str()) {
        return true;
    }
    if !text_eq(a.obligation.as_str(), b.obligation.as_str()) {
        return false;
    }
    if str_lt(a.kernel.as_str(), b.kernel.as_str()) {
        return true;
    }
    if !text_eq(a.kernel.as_str(), b.kernel.as_str()) {
        return false;
    }
    if texts_less(&a.dependencies, &b.dependencies) {
        return true;
    }
    if !same_strings(&a.dependencies, b.dependencies.as_slice()) {
        return false;
    }
    if str_lt(a.ssa_fingerprint.as_str(), b.ssa_fingerprint.as_str()) {
        return true;
    }
    if !text_eq(a.ssa_fingerprint.as_str(), b.ssa_fingerprint.as_str()) {
        return false;
    }
    str_lt(a.schema_version.as_str(), b.schema_version.as_str())
}

fn same_ref(a: &ProofBindingRef, b: &ProofBindingRef) -> (r: bool)
    ensures
        r == (ref_view(*a) == ref_view(*b)),
{
    text_eq(a.schema_version.as_str(), b.schema_version.as_str()) && text_eq(a.proof_identity.as_str(), b.proof_identity.as_str())
        && text_eq(a.obligation.as_str(), b.obligation.as_str()) && text_eq(a.kernel.as_str(), b.kernel.as_str())
        && same_strings(&a.dependencies, b.dependencies.as_slice()) && text_eq(
        a.ssa_fingerprint.as_str(),
        b.ssa_fingerprint.as_str(),
    )
}

/// The references a backend artifact carries for the relationships of a
/// lowered stage whose serialization has fingerprint `ssa_fingerprint`:
/// sorted by proof, obligation, kernel, dependencies, fingerprint and schema,
/// and deduplicated: exactly the references the relationships contribute,
/// each once, in strictly ascending order.
pub fn proof_binding_refs(relationships: &[ProofRelationship], ssa_fingerprint: &str) -> (r: Vec<ProofBindingRef>)
    ensures
        forall|a: int, b: int| 0 <= a < b < r@.len() ==> ref_lt(#[trigger] ref_views(r@)[a], #[trigger] ref_views(r@)[b]),
        forall|x: RefView| ref_views(r@).contains(x) <==> exists|k: int| 0 <= k < relationships@.len() && x == ref_of(#[trigger] relationships@[k], ssa_fingerprint@),
        forall|k: int| 0 <= k < r@.len() ==> (#[trigger] r@[k]).ssa_fingerprint@ == ssa_fingerprint@,
        r@.len() == 0 <==> relationships@.len() == 0,
        exists|sorted: Seq<RefView>, perm: Seq<int>|
            #[trigger] stable_refs(sorted, relationships@, ssa_fingerprint@, perm) && ref_views(r@) == dedup_refs(sorted),
{
    let mut out: Vec<ProofBindingRef> = Vec::new();
    let ghost mut perm: Seq<int> = Seq::empty();
    let mut i: usize = 0;
    while i < relationships.len()
        invariant
            i <= relationships@.len(),
            stable_refs(ref_views(out@), relationships@.subrange(0, i as int), ssa_fingerprint@, perm),
            forall|k: int| 0 <= k < perm.len() ==> #[trigger] perm[k] < i,
        decreases relationships@.len() - i,
    {
        let reference = relationships[i].binding_ref(ssa_fingerprint);
        let ghost key = ref_view(reference);
        assert(texts(reference.dependencies@) == texts(relationships@[i as int].dependencies@));
        assert(key == ref_of(relationships@[i as int], ssa_fingerprint@));
        let mut j: usize = 0;
        while j < out.len() && !ref_less(&reference, &out[j])
            invariant
                j <= out@.len(),
                key == ref_view(reference),
                forall|k: int| 0 <= k < j ==> !ref_lt(key, #[trigger] ref_views(out@)[k]),
            decreases out@.len() - j,
        {
            j = j + 1;
        }
        let ghost before = ref_views(out@);
        let ghost old_perm = perm;
        out.insert(j, reference);
        proof {
            perm = old_perm.insert(j as int, i as int);
            let rels_next = relationships@.subrange(0, i as int + 1);
            let now = ref_views(out@);
            assert(now =~= before.insert(j as int, key));
            assert forall|k: int| 0 <= k < perm.len() implies 0 <= #[trigger] perm[k] < rels_next.len() && perm[k] < i + 1 by {
                if k < j {
                    assert(perm[k] == old_perm[k]);
                } else if k > j {
                    assert(perm[k] == old_perm[k - 1]);
                }
            }
            assert forall|a: int, b: int| 0 <= a < b < perm.len() implies #[trigger] perm[a] != #[trigger] perm[b] by {
                if a < j && b > j {
                    assert(perm[b] == old_perm[b - 1]);
                } else if a > j {
                    assert(perm[a] == old_perm[a - 1]);
                    assert(perm[b] == old_perm[b - 1]);
                } else if a == j {
                    assert(perm[b] == old_perm[b - 1]);
                } else if b == j {
                    assert(perm[a] == old_perm[a]);
                }
            }
            assert forall|k: int| 0 <= k < now.len() implies #[trigger] now[k] == ref_of(rels_next[perm[k]], ssa_fingerprint@) by {
                if k < j {
                    assert(now[k] == before[k]);
                    assert(perm[k] == old_perm[k]);
                } else if k > j {
                    assert(now[k] == before[k - 1]);
                    assert(perm[k] == old_perm[k - 1]);
                } else {
                    assert(rels_next[i as int] == relationships@[i as int]);
                }
            }
            assert forall|a: int, b: int| 0 <= a < b < now.len() implies !ref_lt(#[trigger] now[b], #[trigger] now[a]) by {
                if a < j && b > j {
                    assert(now[a] == before[a]);
                    assert(now[b] == before[b - 1]);
                } else if a == j && b > j {
                    let y = before[b - 1];
                    assert(now[b] == y);
                    assert(ref_lt(key, before[j as int]));
                    if b - 1 != j {
                        assert(!ref_lt(y, before[j as int]));
                        if !same_key(y, before[j as int]) {
                            lemma_ref_lt_total(y, before[j as int]);
                            lemma_ref_lt_transitive(key, before[j as int], y);
                        } else {
                            assert(ref_lt(key, y));
                        }
                    }
                    lemma_ref_lt_asymmetric(key, y);
                } else if a < j && b == j {
                    assert(now[a] == before[a]);
                } else if a > j {
                    assert(now[a] == before[a - 1]);
                    assert(now[b] == before[b - 1]);
                } else {
                    assert(now[a] == before[a]);
                    assert(now[b] == before[b]);
                }
            }
            assert forall|a: int, b: int|
                0 <= a < b < now.len() && same_key(#[trigger] now[a], #[trigger] now[b]) implies perm[a] < perm[b] by {
                if a < j && b > j {
                    assert(now[a] == before[a]);
                    assert(now[b] == before[b - 1]);
                    assert(perm[a] == old_perm[a]);
                    assert(perm[b] == old_perm[b - 1]);
                } else if a == j && b > j {
                    let y = before[b - 1];
                    assert(now[b] == y);
                    assert(ref_lt(key, before[j as int]));
                    if b - 1 == j {
                        lemma_ref_lt_asymmetric(key, key);
                        assert(ref_lt(y, y));
                    } else {
                        assert(!ref_lt(y, before[j as int]));
                        assert(ref_lt(y, before[j as int]));
                    }
                    assert(false);
                } else if a < j && b == j {
                    assert(perm[a] == old_perm[a]);
                } else if a > j {
                    assert(now[a] == before[a - 1]);
                    assert(now[b] == before[b - 1]);
                    assert(perm[a] == old_perm[a - 1]);
                    assert(perm[b] == old_perm[b - 1]);
                } else {
                    assert(now[a] == before[a]);
                    assert(now[b] == before[b]);
                    assert(perm[a] == old_perm[a]);
                    assert(perm[b] == old_perm[b]);
                }
            }
        }
        i = i + 1;
    }
    assert(relationships@.subrange(0, i as int) =~= relationships@);
    let ghost sorted = ref_views(out@);
    let mut kept: Vec<ProofBindingRef> = Vec::new();
    let mut k: usize = 0;
    assert(sorted.subrange(0, 0) =~= Seq::<RefView>::empty());
    while k < out.len()
        invariant
            k <= out@.len(),
            sorted == ref_views(out@),
            ref_views(kept@) == dedup_refs(sorted.subrange(0, k as int)),
        decreases out@.len() - k,
    {
        let ghost prefix = sorted.subrange(0, k as int + 1);
        assert(prefix.drop_last() =~= sorted.subrange(0, k as int));
        assert(prefix.last() == sorted[k as int]);
        if k == 0 || !same_ref(&out[k - 1], &out[k]) {
            let ghost before = kept@;
            let copied = out[k].binding_copy();
            kept.push(copied);
            assert(ref_views(kept@) =~= ref_views(before).push(ref_view(copied)));
            if k > 0 {
                assert(prefix[prefix.len() - 2] == sorted[k - 1]);
            }
        } else {
            assert(prefix[prefix.len() - 2] == sorted[k - 1]);
        }
        k = k + 1;
    }
    assert(sorted.subrange(0, k as int) =~= sorted);
    proof {
        let rels = relationships@;
        let fp = ssa_fingerprint@;
        lemma_dedup_ordered(sorted);
        let d = ref_views(kept@);
        assert forall|x: RefView| sorted.contains(x) <==> exists|q: int| 0 <= q < rels.len() && x == ref_of(#[trigger] rels[q], fp) by {
            if sorted.contains(x) {
                let q = choose|q: int| 0 <= q < sorted.len() && sorted[q] == x;
                assert(x == ref_of(rels[perm[q]], fp));
            }
            if exists|q: int| 0 <= q < rels.len() && x == ref_of(#[trigger] rels[q], fp) {
                let q = choose|q: int| 0 <= q < rels.len() && x == ref_of(#[trigger] rels[q], fp);
                lemma_perm_onto(perm, rels.len() as int, q);
                let p = choose|p: int| 0 <= p < perm.len() && perm[p] == q;
                assert(sorted[p] == x);
            }
        }
        assert(d == dedup_refs(sorted));
        assert(stable_refs(sorted, rels, fp, perm));
        assert forall|q: int| 0 <= q < kept@.len() implies (#[trigger] kept@[q]).ssa_fingerprint@ == fp by {
            assert(d[q] == ref_view(kept@[q]));
            assert(d.contains(d[q]));
            assert(sorted.contains(d[q]));
            let p = choose|p: int| 0 <= p < sorted.len() && sorted[p] == d[q];
            assert(sorted[p] == ref_of(rels[perm[p]], fp));
        }
        assert forall|x: RefView| #[trigger] d.contains(x) <==> exists|q: int| 0 <= q < rels.len() && x == ref_of(#[trigger] rels[q], fp) by {
            assert(d.contains(x) == sorted.contains(x));
        }
        if rels.len() > 0 {
            assert(sorted.len() > 0);
        }
        if kept@.len() == 0 && sorted.len() > 0 {
            assert(sorted.contains(sorted[0]));
        }
    }
    kept
}

/// An injective map of `n` positions into `0..n` reaches every position.
proof fn lemma_perm_onto(perm: Seq<int>, n: int, q: int)
    requires
        perm.len() == n,
        0 <= q < n,
        forall|k: int| 0 <= k < perm.len() ==> 0 <= #[trigger] perm[k] < n,
        forall|a: int, b: int| 0 <= a < b < perm.len() ==> #[trigger] perm[a] != #[trigger] perm[b],
    ensures
        exists|p: int| 0 <= p < perm.len() && perm[p] == q,
{
    if !(exists|p: int| 0 <= p < perm.len() && perm[p] == q) {
        let range = vstd::set_lib::set_int_range(0, n);
        vstd::set_lib::lemma_int_range(0, n);
        let m = |k: int| perm[k];
        let img = range.map(m);
        assert(vstd::relations::injective_on(m, range)) by {
            assert forall|a: int, b: int| range.contains(a) && range.contains(b) && #[trigger] m(a) == #[trigger] m(b) implies a == b by {
                if a < b {
                    assert(perm[a] != perm[b]);
                } else if b < a {
                    assert(perm[b] != perm[a]);
                }
            }
        }
        vstd::set_lib::lemma_map_size(range, img, m);
        let others = range.remove(q);
        assert forall|x: int| #[trigger] img.contains(x) implies others.contains(x) by {
            let k = choose|k: int| range.contains(k) && m(k) == x;
            assert(perm[k] != q);
        }
        vstd::set_lib::lemma_len_subset(img, others);
    }
}

impl ProofBindingRef {
    fn binding_copy(&self) -> (r: ProofBindingRef)
        ensures
            ref_view(r) == ref_view(*self),
    {
        ProofBindingRef {
            schema_version: self.schema_version.clone(),
            proof_identity: self.proof_identity.clone(),
            obligation: self.obligation.clone(),
            kernel: self.kernel.clone(),
            dependencies: copy_strings(&self.dependencies),
            ssa_fingerprint: self.ssa_fingerprint.clone(),
        }
    }
}

impl SsaModule {
    /// Attach an admitted relationship to this SSA (see the stage-generic
    /// `attach_proof_relationship`): only the relationships change.
    pub fn attach_proof_relationship(&mut self, relationship: ProofRelationship, dependencies: &[String]) -> (r: Result<
        (),
        TransportMismatch,
    >)
        ensures
            !obligation_listed(old(self).obligations@, relationship.obligation@) ==> r == Err::<(), TransportMismatch>(
                TransportMismatch::ObligationAbsent,
            ),
            obligation_listed(old(self).obligations@, relationship.obligation@) ==> r == transport_check(
                relationship,
                relationship.obligation@,
                relationship.kernel@,
                texts(dependencies@),
            ),
            r is Ok ==> final(self).proof_relationships@ == upsert(old(self).proof_relationships@, relationship),
            r is Err ==> final(self).proof_relationships@ == old(self).proof_relationships@,
            final(self).identity == old(self).identity,
            final(self).functions == old(self).functions,
            final(self).obligations == old(self).obligations,
            final(self).trace == old(self).trace,
            final(self).transformations == old(self).transformations,
    {
        attach_proof_relationship(&mut self.proof_relationships, &self.obligations, relationship, dependencies)
    }

    /// Record proof-bearing lowering evidence for one relationship attached
    /// to this SSA (see the stage-generic `record_proof_evidence`): the
    /// record is appended to the transformations, and nothing else changes.
    pub fn record_proof_evidence(
        &mut self,
        proof_identity: &str,
        operation: &SemanticId,
        obligation: &str,
        dependencies: &[String],
        permitted_by_mncs: bool,
    ) -> (r: ProofEvidenceOutcome)
        ensures
            (r.recorded, r.reason@) == evidence_verdict(
                old(self).proof_relationships@,
                proof_identity@,
                obligation@,
                texts(dependencies@),
                permitted_by_mncs,
            ),
            r.recorded <==> (first_for(old(self).proof_relationships@, proof_identity@, 0) matches Some(i)
                && transport_check(
                old(self).proof_relationships@[i],
                obligation@,
                old(self).proof_relationships@[i].kernel@,
                texts(dependencies@),
            ) is Ok && permitted_by_mncs),
            evidence_record(r.record, old(self).identity, *operation, obligation@, proof_identity@, r.recorded),
            final(self).transformations@.len() == old(self).transformations@.len() + 1,
            final(self).transformations@.drop_last() == old(self).transformations@,
            record_view(final(self).transformations@.last()) == record_view(r.record),
            final(self).identity == old(self).identity,
            final(self).functions == old(self).functions,
            final(self).obligations == old(self).obligations,
            final(self).trace == old(self).trace,
            final(self).proof_relationships == old(self).proof_relationships,
    {
        record_proof_evidence(
            &self.identity,
            &self.proof_relationships,
            &mut self.transformations,
            proof_identity,
            operation,
            obligation,
            dependencies,
            permitted_by_mncs,
        )
    }

    /// The proof references of this SSA's relationships, bound to the
    /// fingerprint of its serialization (see the stage-generic
    /// `proof_binding_refs`).
    pub fn proof_binding_refs(&self, ssa_fingerprint: &str) -> (r: Vec<ProofBindingRef>)
        ensures
            forall|a: int, b: int| 0 <= a < b < r@.len() ==> ref_lt(#[trigger] ref_views(r@)[a], #[trigger] ref_views(r@)[b]),
            forall|x: RefView| ref_views(r@).contains(x) <==> exists|k: int| 0 <= k < self.proof_relationships@.len() && x == ref_of(#[trigger] self.proof_relationships@[k], ssa_fingerprint@),
            r@.len() == 0 <==> self.proof_relationships@.len() == 0,
    {
        proof_binding_refs(&self.proof_relationships, ssa_fingerprint)
    }
}

} // verus!
