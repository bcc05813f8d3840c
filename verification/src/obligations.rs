//! Obligation records and the obligations a machine-intent expression
//! generates: one conservative, unknown obligation per requirement.

use vstd::prelude::*;
use vstd::string::*;

use crate::digest::{sha256_hex, sha256_hex_of};
use crate::evidence::EvidenceFreshness;
use crate::identity::{id_views, SemanticId};
use crate::machine_intent::{power_of_two, ArithmeticIntent, IntegerType, MachineIntentExpression, ObligationStatus, Requirement};
use crate::graph::copy_ids;
use crate::text::{decimal, lemma_seq_lt_asymmetric, lemma_seq_lt_total, lemma_seq_lt_transitive, push_decimal, seq_lt, text_eq};

verus! {

pub const OBLIGATION_SCHEMA_VERSION: &'static str = "0.2";

#[derive(Debug, Clone, PartialEq, Eq)]
pub struct ObligationRecord {
    pub schema_version: String,
    pub identity: SemanticId,
    pub subject: SemanticId,
    pub requirement: SemanticId,
    pub status: ObligationStatus,
    pub method: String,
    pub assumptions: Vec<SemanticId>,
    pub dependencies: Vec<SemanticId>,
    pub freshness: EvidenceFreshness,
    pub fallback: Option<String>,
}

#[derive(Debug, Clone, PartialEq, Eq)]
pub struct ObligationGeneration {
    pub schema_version: String,
    pub obligations: Vec<ObligationRecord>,
}

/// `mncs:0.2:requirement:<kind>:<digest of the subject's UTF-8 bytes>`.
pub open spec fn requirement_text(kind: Seq<char>, subject: Seq<char>) -> Seq<char> {
    "mncs:0.2:requirement:"@ + kind + ":"@ + sha256_hex_of(vstd::utf8::encode_utf8(subject))
}

pub(crate) fn requirement_id(kind: &str, subject: &SemanticId) -> (r: SemanticId)
    ensures
        r.0@ == requirement_text(kind@, subject.0@),
{
    let digest = sha256_hex(subject.0.as_str().as_bytes());
    let text = String::from_str("mncs:0.2:requirement:").concat(kind).concat(":").concat(digest.as_str());
    SemanticId(text)
}

/// The obligation generated for requirement `r`: unknown, of unknown
/// freshness, depending on the subject and the requirement, with the
/// conservative realization as fallback.
pub open spec fn generated_for(o: ObligationRecord, r: Requirement) -> bool {
    &&& o.schema_version@ == OBLIGATION_SCHEMA_VERSION@
    &&& o.identity.0@ == requirement_text("machine-intent"@, r.identity.0@)
    &&& o.subject.0@ == r.subject.0@
    &&& o.requirement.0@ == r.identity.0@
    &&& o.status == ObligationStatus::Unknown
    &&& o.method@ == "obligation-generation"@
    &&& o.assumptions@.len() == 0
    &&& id_views(o.dependencies@) == seq![r.subject.0@, r.identity.0@]
    &&& o.freshness == EvidenceFreshness::Unknown
    &&& o.fallback matches Some(f) && f@ == "use the declared conservative realization"@
}

/// `out` is `reqs` generated and stably sorted by identity: `perm` says
/// which requirement each record came from; records are in identity order,
/// and records with equal identities keep their requirements' order.
pub open spec fn stable_generation(out: Seq<ObligationRecord>, reqs: Seq<Requirement>, perm: Seq<int>) -> bool {
    &&& perm.len() == out.len()
    &&& out.len() == reqs.len()
    &&& forall|k: int| 0 <= k < perm.len() ==> 0 <= #[trigger] perm[k] < reqs.len()
    &&& forall|a: int, b: int| 0 <= a < b < perm.len() ==> #[trigger] perm[a] != #[trigger] perm[b]
    &&& forall|k: int| 0 <= k < out.len() ==> generated_for(#[trigger] out[k], reqs[perm[k]])
    &&& forall|a: int, b: int|
        0 <= a < b < out.len() ==> !seq_lt(#[trigger] out[b].identity.0@, #[trigger] out[a].identity.0@)
    &&& forall|a: int, b: int|
        0 <= a < b < out.len() && (#[trigger] out[a]).identity.0@ == (#[trigger] out[b]).identity.0@ ==> perm[a] < perm[b]
}

fn generate_one(requirement: &Requirement) -> (o: ObligationRecord)
    ensures
        generated_for(o, *requirement),
{
    let mut dependencies: Vec<SemanticId> = Vec::new();
    dependencies.push(requirement.subject.duplicate());
    dependencies.push(requirement.identity.duplicate());
    assert(id_views(dependencies@) =~= seq![requirement.subject.0@, requirement.identity.0@]);
    ObligationRecord {
        schema_version: String::from_str(OBLIGATION_SCHEMA_VERSION),
        identity: requirement_id("machine-intent", &requirement.identity),
        subject: requirement.subject.duplicate(),
        requirement: requirement.identity.duplicate(),
        status: ObligationStatus::Unknown,
        method: String::from_str("obligation-generation"),
        assumptions: Vec::new(),
        dependencies,
        freshness: EvidenceFreshness::Unknown,
        fallback: Some(String::from_str("use the declared conservative realization")),
    }
}

/// One unknown obligation per requirement of `expression`, ordered by
/// identity (records with equal identities in requirement order).
pub fn generate_machine_intent_obligations(expression: &MachineIntentExpression) -> (r: ObligationGeneration)
    ensures
        r.schema_version@ == OBLIGATION_SCHEMA_VERSION@,
        exists|perm: Seq<int>| #[trigger] stable_generation(r.obligations@, expression.requirements@, perm),
{
    let reqs = &expression.requirements;
    let mut out: Vec<ObligationRecord> = Vec::new();
    let ghost mut perm: Seq<int> = Seq::empty();
    let mut i: usize = 0;
    while i < reqs.len()
        invariant
            i <= reqs@.len(),
            stable_generation(out@, reqs@.subrange(0, i as int), perm),
            forall|k: int| 0 <= k < perm.len() ==> #[trigger] perm[k] < i,
        decreases reqs@.len() - i,
    {
        let record = generate_one(&reqs[i]);
        let ghost key = record.identity.0@;
        let mut j: usize = 0;
        while j < out.len() && !record.identity.precedes(&out[j].identity)
            invariant
                j <= out@.len(),
                key == record.identity.0@,
                forall|k: int| 0 <= k < j ==> !seq_lt(key, #[trigger] out@[k].identity.0@),
            decreases out@.len() - j,
        {
            j = j + 1;
        }
        let ghost before = out@;
        let ghost old_perm = perm;
        out.insert(j, record);
        proof {
            perm = old_perm.insert(j as int, i as int);
            let reqs_next = reqs@.subrange(0, i as int + 1);
            let now = out@;
            assert(now =~= before.insert(j as int, record));
            assert forall|k: int| 0 <= k < perm.len() implies 0 <= #[trigger] perm[k] < reqs_next.len() && perm[k] < i + 1 by {
                if k < j {
                    assert(perm[k] == old_perm[k]);
                } else if k > j {
                    assert(perm[k] == old_perm[k - 1]);
                }
            }
            assert forall|a: int, b: int| 0 <= a < b < perm.len() implies #[trigger] perm[a] != #[trigger] perm[b] by {
                if a < j && b > j {
                    assert(perm[b] == old_perm[b - 1]);
                } else if a > j {
                    assert(perm[a] == old_perm[a - 1]);
                    assert(perm[b] == old_perm[b - 1]);
                } else if a == j {
                    assert(perm[b] == old_perm[b - 1]);
                } else if b == j {
                    assert(perm[a] == old_perm[a]);
                }
            }
            assert forall|k: int| 0 <= k < now.len() implies generated_for(#[trigger] now[k], reqs_next[perm[k]]) by {
                if k < j {
                    assert(now[k] == before[k]);
                    assert(perm[k] == old_perm[k]);
                } else if k > j {
                    assert(now[k] == before[k - 1]);
                    assert(perm[k] == old_perm[k - 1]);
                } else {
                    assert(reqs_next[i as int] == reqs@[i as int]);
                }
            }
            assert forall|a: int, b: int| 0 <= a < b < now.len() implies !seq_lt(
                #[trigger] now[b].identity.0@,
                #[trigger] now[a].identity.0@,
            ) by {
                if a < j && b > j {
                    assert(now[a] == before[a]);
                    assert(now[b] == before[b - 1]);
                } else if a == j && b > j {
                    let y = before[b - 1].identity.0@;
                    assert(now[b] == before[b - 1]);
                    assert(seq_lt(key, before[j as int].identity.0@));
                    if b - 1 != j {
                        assert(!seq_lt(y, before[j as int].identity.0@));
                        if y != before[j as int].identity.0@ {
                            lemma_seq_lt_total(y, before[j as int].identity.0@);
                            lemma_seq_lt_transitive(key, before[j as int].identity.0@, y);
                        }
                    }
                    lemma_seq_lt_asymmetric(key, y);
                } else if a < j && b == j {
                    assert(now[a] == before[a]);
                } else if a > j {
                    assert(now[a] == before[a - 1]);
                    assert(now[b] == before[b - 1]);
                } else {
                    assert(now[a] == before[a]);
                    assert(now[b] == before[b]);
                }
            }
            assert forall|a: int, b: int|
                0 <= a < b < now.len() && (#[trigger] now[a]).identity.0@ == (#[trigger] now[b]).identity.0@ implies perm[a]
                < perm[b] by {
                if a < j && b > j {
                    assert(now[a] == before[a]);
                    assert(now[b] == before[b - 1]);
                    assert(perm[a] == old_perm[a]);
                    assert(perm[b] == old_perm[b - 1]);
                } else if a == j && b > j {
                    let y = before[b - 1].identity.0@;
                    assert(now[b] == before[b - 1]);
                    assert(seq_lt(key, before[j as int].identity.0@));
                    if b - 1 == j {
                        assert(y == key);
                        lemma_seq_lt_asymmetric(key, key);
                    } else {
                        assert(!seq_lt(y, before[j as int].identity.0@));
                    }
                    assert(false);
                } else if a < j && b == j {
                    assert(perm[a] == old_perm[a]);
                } else if a > j {
                    assert(now[a] == before[a - 1]);
                    assert(now[b] == before[b - 1]);
                    assert(perm[a] == old_perm[a - 1]);
                    assert(perm[b] == old_perm[b - 1]);
                } else {
                    assert(now[a] == before[a]);
                    assert(now[b] == before[b]);
                    assert(perm[a] == old_perm[a]);
                    assert(perm[b] == old_perm[b]);
                }
            }
        }
        i = i + 1;
    }
    assert(reqs@.subrange(0, i as int) =~= reqs@);
    let generation = ObligationGeneration { schema_version: String::from_str(OBLIGATION_SCHEMA_VERSION), obligations: out };
    assert(stable_generation(generation.obligations@, expression.requirements@, perm));
    generation
}

/// The identity of a body obligation of `kind` about `subject`.
pub open spec fn body_obligation_text(kind: Seq<char>, subject: Seq<char>) -> Seq<char> {
    "mncs:0.2:obligation:body:"@ + kind + ":"@ + sha256_hex_of(vstd::utf8::encode_utf8(subject))
}

pub(crate) fn body_obligation_id(kind: &str, subject: &SemanticId) -> (r: SemanticId)
    ensures
        r.0@ == body_obligation_text(kind@, subject.0@),
{
    let digest = sha256_hex(subject.0.as_str().as_bytes());
    let text = String::from_str("mncs:0.2:obligation:body:").concat(kind).concat(":").concat(digest.as_str());
    SemanticId(text)
}

/// A body obligation of `kind` about `subject` in the function
/// `function`, under `assumptions`: PASS and current by `pass_method` when
/// statically discharged; otherwise UNKNOWN by `unknown_method`, keeping
/// the runtime guard `fallback`.
pub open spec fn body_obligation(
    o: ObligationRecord,
    kind: Seq<char>,
    function: Seq<char>,
    assumptions: Seq<Seq<char>>,
    subject: Seq<char>,
    discharged: bool,
    pass_method: Seq<char>,
    unknown_method: Seq<char>,
    fallback: Seq<char>,
) -> bool {
    &&& o.schema_version@ == OBLIGATION_SCHEMA_VERSION@
    &&& o.identity.0@ == body_obligation_text(kind, subject)
    &&& o.subject.0@ == subject
    &&& o.requirement.0@ == requirement_text(kind, subject)
    &&& o.status == (if discharged { ObligationStatus::Pass } else { ObligationStatus::Unknown })
    &&& o.method@ == (if discharged { pass_method } else { unknown_method })
    &&& id_views(o.assumptions@) == assumptions
    &&& id_views(o.dependencies@) == seq![function, subject]
    &&& o.freshness == (if discharged { EvidenceFreshness::Current } else { EvidenceFreshness::Unknown })
    &&& (if discharged { o.fallback is None } else { o.fallback matches Some(f) && f@ == fallback })
}

fn single_obligation(
    kind: &str,
    function: &SemanticId,
    assumptions: &[SemanticId],
    subject: &SemanticId,
    discharged: bool,
    pass_method: &str,
    unknown_method: &str,
    fallback: &str,
) -> (r: ObligationRecord)
    ensures
        body_obligation(r, kind@, function.0@, id_views(assumptions@), subject.0@, discharged, pass_method@, unknown_method@, fallback@),
{
    let mut dependencies: Vec<SemanticId> = Vec::new();
    dependencies.push(function.duplicate());
    dependencies.push(subject.duplicate());
    assert(id_views(dependencies@) =~= seq![function.0@, subject.0@]);
    ObligationRecord {
        schema_version: String::from_str(OBLIGATION_SCHEMA_VERSION),
        identity: body_obligation_id(kind, subject),
        subject: subject.duplicate(),
        requirement: requirement_id(kind, subject),
        status: if discharged { ObligationStatus::Pass } else { ObligationStatus::Unknown },
        method: if discharged { String::from_str(pass_method) } else { String::from_str(unknown_method) },
        assumptions: copy_ids(assumptions),
        dependencies,
        freshness: if discharged { EvidenceFreshness::Current } else { EvidenceFreshness::Unknown },
        fallback: if discharged { None } else { Some(String::from_str(fallback)) },
    }
}

/// The divisor can never be zero: it is a nonzero literal.
pub open spec fn divisor_nonzero(divisor: Option<i128>) -> bool {
    divisor matches Some(v) && v != 0
}

/// The minimum of a signed type of `bits` bits.
pub open spec fn signed_minimum(bits: u16) -> int {
    -(vstd::arithmetic::power2::pow2((if bits == 0 { 0 } else { bits - 1 }) as nat) as int)
}

/// Signed division cannot overflow: the divisor is a nonzero literal other
/// than -1, or the dividend is a literal other than the signed minimum.
pub open spec fn division_bounds_clear(divisor: Option<i128>, dividend: Option<i128>, bits: u16) -> bool {
    divisor_nonzero(divisor) && (divisor != Some(-1i128) || (dividend matches Some(d) && d != signed_minimum(bits)))
}

/// The checked-division obligations of one `div` or `mod` operation
/// `subject` in the function `function`, given the literal values (when
/// known) of its divisor and dividend: `divisor-nonzero`, discharged exactly
/// for a nonzero literal divisor, and for a signed operand type
/// `signed-division-overflow`, discharged exactly when the divisor is a
/// nonzero literal other than -1 or the dividend a literal other than the
/// signed minimum. Discharge records a language fact; it never removes the
/// runtime guard the UNKNOWN form keeps.
pub fn division_obligations(
    function: &SemanticId,
    assumptions: &[SemanticId],
    subject: &SemanticId,
    operand_type: IntegerType,
    divisor: Option<i128>,
    dividend: Option<i128>,
) -> (r: Vec<ObligationRecord>)
    requires
        !operand_type.signed || operand_type.bits <= 127,
    ensures
        r@.len() == (if operand_type.signed { 2int } else { 1int }),
        body_obligation(
            r@[0],
            "divisor-nonzero"@,
            function.0@,
            id_views(assumptions@),
            subject.0@,
            divisor_nonzero(divisor),
            "language-literal-divisor-nonzero"@,
            "runtime-checked-division"@,
            "retain the zero-divisor runtime guard"@,
        ),
        operand_type.signed ==> body_obligation(
            r@[1],
            "signed-division-overflow"@,
            function.0@,
            id_views(assumptions@),
            subject.0@,
            division_bounds_clear(divisor, dividend, operand_type.bits),
            "language-literal-division-bounds"@,
            "runtime-checked-signed-division"@,
            "retain the signed-division-overflow runtime guard"@,
        ),
{
    let nonzero = match divisor {
        Some(v) => v != 0,
        None => false,
    };
    let mut out: Vec<ObligationRecord> = Vec::new();
    out.push(
        single_obligation(
            "divisor-nonzero",
            function,
            assumptions,
            subject,
            nonzero,
            "language-literal-divisor-nonzero",
            "runtime-checked-division",
            "retain the zero-divisor runtime guard",
        ),
    );
    if operand_type.signed {
        let exponent: u16 = if operand_type.bits == 0 { 0 } else { operand_type.bits - 1 };
        let minimum: i128 = -power_of_two(exponent);
        let clear = nonzero && match divisor {
            Some(v) => v != -1 || match dividend {
                Some(d) => d != minimum,
                None => false,
            },
            None => false,
        };
        out.push(
            single_obligation(
                "signed-division-overflow",
                function,
                assumptions,
                subject,
                clear,
                "language-literal-division-bounds",
                "runtime-checked-signed-division",
                "retain the signed-division-overflow runtime guard",
            ),
        );
    }
    out
}


/// The widths whose declared bounds fit the analysis's `i128` arithmetic.
pub open spec fn bounds_representable(t: IntegerType) -> bool {
    if t.signed { t.bits <= 127 } else { t.bits <= 126 }
}

/// The least value of the integer type `t`.
pub open spec fn type_low(t: IntegerType) -> int {
    if t.signed { signed_minimum(t.bits) } else { 0 }
}

/// The greatest value of the integer type `t`.
pub open spec fn type_high(t: IntegerType) -> int {
    if t.signed {
        -signed_minimum(t.bits) - 1
    } else {
        vstd::arithmetic::power2::pow2(t.bits as nat) - 1
    }
}

/// The declared bounds of the integer type `t`, as a closed interval.
pub fn integer_bounds(t: IntegerType) -> (r: (i128, i128))
    requires
        bounds_representable(t),
    ensures
        r.0 == type_low(t),
        r.1 == type_high(t),
{
    if t.signed {
        let exponent: u16 = if t.bits == 0 { 0 } else { t.bits - 1 };
        let top: i128 = power_of_two(exponent);
        (-top, top - 1)
    } else {
        let top: i128 = power_of_two(t.bits);
        (0, top - 1)
    }
}

/// `x` clamped to the range of `i128`.
pub open spec fn saturate(x: int) -> int {
    if x > i128::MAX { i128::MAX as int } else if x < i128::MIN { i128::MIN as int } else { x }
}

fn saturating_add_wide(a: i128, b: i128) -> (r: i128)
    ensures
        r == saturate(a + b),
{
    match a.checked_add(b) {
        Some(v) => v,
        None => if b > 0 { i128::MAX } else { i128::MIN },
    }
}

fn saturating_sub_wide(a: i128, b: i128) -> (r: i128)
    ensures
        r == saturate(a - b),
{
    match a.checked_sub(b) {
        Some(v) => v,
        None => if b < 0 { i128::MAX } else { i128::MIN },
    }
}

fn saturating_mul_wide(a: i128, b: i128) -> (r: i128)
    ensures
        r == saturate(a * b),
{
    match a.checked_mul(b) {
        Some(v) => v,
        None => {
            if (a < 0) == (b < 0) {
                assert(a * b > 0) by (nonlinear_arith)
                    requires
                        (a < 0) == (b < 0),
                        a * b > i128::MAX || a * b < i128::MIN,
                ;
                i128::MAX
            } else {
                assert(a * b < 0) by (nonlinear_arith)
                    requires
                        (a < 0) != (b < 0),
                        a * b > i128::MAX || a * b < i128::MIN,
                ;
                i128::MIN
            }
        },
    }
}

pub open spec fn min_int(a: int, b: int) -> int {
    if a <= b { a } else { b }
}

pub open spec fn max_int(a: int, b: int) -> int {
    if a >= b { a } else { b }
}

/// The closed interval of `operator` (`add`, `sub` or `mul`) over the
/// operand intervals `lhs` and `rhs`, each bound saturated to `i128`; none
/// for another operator or an unknown operand.
pub open spec fn interval_of(operator: Seq<char>, lhs: Option<(i128, i128)>, rhs: Option<(i128, i128)>) -> Option<(int, int)> {
    match (lhs, rhs) {
        (Some((alo, ahi)), Some((blo, bhi))) => {
            if operator == "add"@ {
                Some((saturate(alo + blo), saturate(ahi + bhi)))
            } else if operator == "sub"@ {
                Some((saturate(alo - bhi), saturate(ahi - blo)))
            } else if operator == "mul"@ {
                let p1 = saturate(alo * blo);
                let p2 = saturate(alo * bhi);
                let p3 = saturate(ahi * blo);
                let p4 = saturate(ahi * bhi);
                Some((min_int(min_int(p1, p2), min_int(p3, p4)), max_int(max_int(p1, p2), max_int(p3, p4))))
            } else {
                None
            }
        },
        _ => None,
    }
}

/// Interval arithmetic for one `add`, `sub` or `mul`: saturation only
/// widens an interval, so a result that still fits a type is sound.
pub fn range_interval(operator: &str, lhs: Option<(i128, i128)>, rhs: Option<(i128, i128)>) -> (r: Option<(i128, i128)>)
    ensures
        match r {
            Some((lo, hi)) => interval_of(operator@, lhs, rhs) == Some((lo as int, hi as int)),
            None => interval_of(operator@, lhs, rhs) is None,
        },
{
    let (alo, ahi) = match lhs {
        Some(v) => v,
        None => return None,
    };
    let (blo, bhi) = match rhs {
        Some(v) => v,
        None => return None,
    };
    if text_eq(operator, "add") {
        Some((saturating_add_wide(alo, blo), saturating_add_wide(ahi, bhi)))
    } else if text_eq(operator, "sub") {
        Some((saturating_sub_wide(alo, bhi), saturating_sub_wide(ahi, blo)))
    } else if text_eq(operator, "mul") {
        let p1 = saturating_mul_wide(alo, blo);
        let p2 = saturating_mul_wide(alo, bhi);
        let p3 = saturating_mul_wide(ahi, blo);
        let p4 = saturating_mul_wide(ahi, bhi);
        let lo12 = if p1 <= p2 { p1 } else { p2 };
        let lo34 = if p3 <= p4 { p3 } else { p4 };
        let hi12 = if p1 >= p2 { p1 } else { p2 };
        let hi34 = if p3 >= p4 { p3 } else { p4 };
        Some((if lo12 <= lo34 { lo12 } else { lo34 }, if hi12 >= hi34 { hi12 } else { hi34 }))
    } else {
        None
    }
}

/// A checked or trapping scalar `add`, `sub` or `mul` of type `t` is shown
/// within its type by the operand intervals `lhs` and `rhs`.
pub open spec fn range_proves(operator: Seq<char>, t: IntegerType, intent: ArithmeticIntent, lhs: Option<(i128, i128)>, rhs: Option<(i128, i128)>) -> bool {
    &&& (intent is Checked || intent is Trapping)
    &&& interval_of(operator, lhs, rhs) matches Some((lo, hi))
    &&& type_low(t) <= lo
    &&& hi <= type_high(t)
}

/// The operation consults range facts: a checked or trapping `add`, `sub`
/// or `mul`.
pub open spec fn consults_ranges(operator: Seq<char>, intent: ArithmeticIntent) -> bool {
    (intent is Checked || intent is Trapping) && (operator == "add"@ || operator == "sub"@ || operator == "mul"@)
}

/// Whether the range facts of the operands prove a checked or trapping
/// scalar `add`, `sub` or `mul` within its operand type.
pub fn range_proves_integer_operation(
    operator: &str,
    operand_type: IntegerType,
    intent: ArithmeticIntent,
    lhs: Option<(i128, i128)>,
    rhs: Option<(i128, i128)>,
) -> (r: bool)
    requires
        consults_ranges(operator@, intent) ==> bounds_representable(operand_type),
    ensures
        r == range_proves(operator@, operand_type, intent, lhs, rhs),
{
    let eligible = match intent {
        ArithmeticIntent::Checked | ArithmeticIntent::Trapping => true,
        _ => false,
    };
    if !eligible {
        return false;
    }
    if !(text_eq(operator, "add") || text_eq(operator, "sub") || text_eq(operator, "mul")) {
        assert(interval_of(operator@, lhs, rhs) is None);
        return false;
    }
    let (low, high) = integer_bounds(operand_type);
    match range_interval(operator, lhs, rhs) {
        Some((lo, hi)) => lo >= low && hi <= high,
        None => false,
    }
}

/// The debug text of an arithmetic intent, as the obligation methods
/// spell it.
pub open spec fn intent_text(intent: ArithmeticIntent) -> Seq<char> {
    match intent {
        ArithmeticIntent::Wrapping => "Wrapping"@,
        ArithmeticIntent::Checked => "Checked"@,
        ArithmeticIntent::Saturating => "Saturating"@,
        ArithmeticIntent::Trapping => "Trapping"@,
        ArithmeticIntent::Widening { bits } => "Widening { bits: "@ + decimal(bits as nat) + " }"@,
    }
}

fn push_intent_text(out: &mut String, intent: ArithmeticIntent)
    ensures
        final(out)@ == old(out)@ + intent_text(intent),
{
    match intent {
        ArithmeticIntent::Wrapping => out.append("Wrapping"),
        ArithmeticIntent::Checked => out.append("Checked"),
        ArithmeticIntent::Saturating => out.append("Saturating"),
        ArithmeticIntent::Trapping => out.append("Trapping"),
        ArithmeticIntent::Widening { bits } => {
            out.append("Widening { bits: ");
            push_decimal(out, bits as u64);
            out.append(" }");
        },
    }
}

/// Wrapping, saturating and widening arithmetic is total by its semantics.
pub open spec fn total_by_semantics(intent: ArithmeticIntent) -> bool {
    intent is Wrapping || intent is Saturating || intent is Widening
}

/// The method that discharges an overflow obligation, by the first reason
/// that holds.
pub open spec fn overflow_pass_method(counter_step: bool, intent: ArithmeticIntent) -> Seq<char> {
    if counter_step {
        "language-bounded-iteration-counter-decrement"@
    } else if total_by_semantics(intent) {
        "language-explicit-"@ + intent_text(intent) + "-semantics"@
    } else {
        "language-range-arithmetic-sound"@
    }
}

/// The `integer-overflow` obligation of one arithmetic operation `subject`
/// of intent `intent` in `function`: discharged when it is the bounded
/// loop's counter step, when its intent is total by semantics, or when
/// `range_discharged` (the operand ranges prove it in its type); otherwise
/// UNKNOWN by `symbolic-<intent>`, keeping the arithmetic behaviour or a
/// runtime check as its fallback.
pub fn integer_overflow_obligation(
    function: &SemanticId,
    assumptions: &[SemanticId],
    subject: &SemanticId,
    intent: ArithmeticIntent,
    counter_step: bool,
    range_discharged: bool,
) -> (r: ObligationRecord)
    ensures
        body_obligation(
            r,
            "integer-overflow"@,
            function.0@,
            id_views(assumptions@),
            subject.0@,
            counter_step || total_by_semantics(intent) || range_discharged,
            overflow_pass_method(counter_step, intent),
            "symbolic-"@ + intent_text(intent),
            "retain explicit arithmetic behavior or insert a runtime check"@,
        ),
{
    let total = match intent {
        ArithmeticIntent::Wrapping | ArithmeticIntent::Saturating | ArithmeticIntent::Widening { .. } => true,
        _ => false,
    };
    let mut pass_method = String::new();
    if counter_step {
        pass_method.append("language-bounded-iteration-counter-decrement");
    } else if total {
        pass_method.append("language-explicit-");
        push_intent_text(&mut pass_method, intent);
        pass_method.append("-semantics");
    } else {
        pass_method.append("language-range-arithmetic-sound");
    }
    let mut unknown_method = String::new();
    unknown_method.append("symbolic-");
    push_intent_text(&mut unknown_method, intent);
    single_obligation(
        "integer-overflow",
        function,
        assumptions,
        subject,
        counter_step || total || range_discharged,
        pass_method.as_str(),
        unknown_method.as_str(),
        "retain explicit arithmetic behavior or insert a runtime check",
    )
}

/// The `integer-overflow` obligation of one scalar `add`, `sub` or `mul`
/// (or another scalar operator) of type `operand_type`, with the operand
/// intervals `lhs` and `rhs` when known: discharged as for
/// [`integer_overflow_obligation`], the range reason being
/// [`range_proves`].
pub fn scalar_overflow_obligation(
    function: &SemanticId,
    assumptions: &[SemanticId],
    subject: &SemanticId,
    operator: &str,
    operand_type: IntegerType,
    intent: ArithmeticIntent,
    counter_step: bool,
    lhs: Option<(i128, i128)>,
    rhs: Option<(i128, i128)>,
) -> (r: ObligationRecord)
    requires
        consults_ranges(operator@, intent) ==> bounds_representable(operand_type),
    ensures
        body_obligation(
            r,
            "integer-overflow"@,
            function.0@,
            id_views(assumptions@),
            subject.0@,
            counter_step || total_by_semantics(intent) || range_proves(operator@, operand_type, intent, lhs, rhs),
            overflow_pass_method(counter_step, intent),
            "symbolic-"@ + intent_text(intent),
            "retain explicit arithmetic behavior or insert a runtime check"@,
        ),
{
    let proven = range_proves_integer_operation(operator, operand_type, intent, lhs, rhs);
    integer_overflow_obligation(function, assumptions, subject, intent, counter_step, proven)
}

} // verus!
