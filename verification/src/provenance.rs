//! Transformation provenance: deterministic identities for recorded
//! transformations and the targets they were made for.

use vstd::prelude::*;
use vstd::string::*;

use crate::digest::{sha256_hex, sha256_hex_of};
use crate::frame::{le_bytes, lemma_skip_step, push_le, push_str, str_frame};
use crate::identity::SemanticId;

verus! {

pub const PROVENANCE_SCHEMA_VERSION: &'static str = "0.2";

#[derive(Debug, Clone, PartialEq, Eq)]
pub struct TargetIdentity {
    pub identity: SemanticId,
    pub family: String,
    pub features: Vec<String>,
    pub integer_widths: Vec<u16>,
    pub abi: Option<String>,
}

#[derive(Debug, Clone, PartialEq, Eq)]
pub struct TransformationRecord {
    pub schema_version: String,
    pub identity: SemanticId,
    pub input_identity: SemanticId,
    pub output_identity: SemanticId,
    pub rule: String,
    pub operation: SemanticId,
    pub realization: Option<SemanticId>,
    pub obligations_required: Vec<SemanticId>,
    pub evidence_consumed: Vec<SemanticId>,
    pub runtime_checks_inserted: Vec<SemanticId>,
    pub facts_established: Vec<SemanticId>,
    pub backend_promises_permitted: Vec<String>,
    pub backend_promises_withheld: Vec<String>,
    pub invalidated_evidence: Vec<SemanticId>,
    pub target: TargetIdentity,
    pub implementation: SemanticId,
}

pub open spec fn strings_bytes(s: Seq<String>) -> Seq<u8>
    decreases s.len(),
{
    if s.len() == 0 {
        seq![]
    } else {
        str_frame(s[0]@) + strings_bytes(s.drop_first())
    }
}

pub open spec fn widths_bytes(s: Seq<u16>) -> Seq<u8>
    decreases s.len(),
{
    if s.len() == 0 {
        seq![]
    } else {
        le_bytes(s[0] as nat, 2) + widths_bytes(s.drop_first())
    }
}

/// The framing of a target.
pub open spec fn target_bytes(t: TargetIdentity) -> Seq<u8> {
    str_frame(t.identity.0@) + str_frame(t.family@) + le_bytes(t.features@.len() as nat, 8) + strings_bytes(t.features@)
        + le_bytes(t.integer_widths@.len() as nat, 8) + widths_bytes(t.integer_widths@) + match t.abi {
        None => le_bytes(0, 1),
        Some(abi) => le_bytes(1, 1) + str_frame(abi@),
    }
}

/// The material a transformation identity digests.
pub open spec fn transformation_material(
    input: SemanticId,
    output: SemanticId,
    rule: Seq<char>,
    operation: SemanticId,
    target: TargetIdentity,
    implementation: SemanticId,
) -> Seq<u8> {
    str_frame(input.0@) + str_frame(output.0@) + str_frame(rule) + str_frame(operation.0@) + target_bytes(target) + str_frame(
        implementation.0@,
    )
}

fn push_strings(out: &mut Vec<u8>, s: &Vec<String>)
    ensures
        final(out)@ == old(out)@ + strings_bytes(s@),
{
    let ghost start = out@;
    let mut i: usize = 0;
    assert(s@.skip(0) =~= s@);
    while i < s.len()
        invariant
            i <= s@.len(),
            start + strings_bytes(s@) == out@ + strings_bytes(s@.skip(i as int)),
        decreases s@.len() - i,
    {
        proof {
            lemma_skip_step(s@, i as int);
        }
        let ghost before = out@;
        push_str(out, s[i].as_str());
        assert(before + strings_bytes(s@.skip(i as int)) =~= out@ + strings_bytes(s@.skip(i as int + 1)));
        i = i + 1;
    }
    assert(out@ + strings_bytes(s@.skip(i as int)) =~= out@);
}

fn push_widths(out: &mut Vec<u8>, s: &Vec<u16>)
    ensures
        final(out)@ == old(out)@ + widths_bytes(s@),
{
    let ghost start = out@;
    let mut i: usize = 0;
    assert(s@.skip(0) =~= s@);
    while i < s.len()
        invariant
            i <= s@.len(),
            start + widths_bytes(s@) == out@ + widths_bytes(s@.skip(i as int)),
        decreases s@.len() - i,
    {
        proof {
            lemma_skip_step(s@, i as int);
        }
        let ghost before = out@;
        push_le(out, s[i] as u128, 2);
        assert(before + widths_bytes(s@.skip(i as int)) =~= out@ + widths_bytes(s@.skip(i as int + 1)));
        i = i + 1;
    }
    assert(out@ + widths_bytes(s@.skip(i as int)) =~= out@);
}

fn push_target(out: &mut Vec<u8>, t: &TargetIdentity)
    ensures
        final(out)@ == old(out)@ + target_bytes(*t),
{
    let ghost start = out@;
    push_str(out, t.identity.0.as_str());
    push_str(out, t.family.as_str());
    push_le(out, t.features.len() as u128, 8);
    push_strings(out, &t.features);
    push_le(out, t.integer_widths.len() as u128, 8);
    push_widths(out, &t.integer_widths);
    match &t.abi {
        None => push_le(out, 0, 1),
        Some(abi) => {
            push_le(out, 1, 1);
            push_str(out, abi.as_str());
        },
    }
    assert(out@ =~= start + target_bytes(*t));
}

/// `mncs:0.2:transformation:<digest>` over the record's defining fields.
pub open spec fn transformation_identity(
    input: SemanticId,
    output: SemanticId,
    rule: Seq<char>,
    operation: SemanticId,
    target: TargetIdentity,
    implementation: SemanticId,
) -> Seq<char> {
    "mncs:0.2:transformation:"@ + sha256_hex_of(transformation_material(input, output, rule, operation, target, implementation))
}

impl TransformationRecord {
    /// A fresh record: its identity is determined by the inputs, output,
    /// rule, operation, target and implementation alone, and every evidence
    /// list starts empty.
    pub fn new(
        input_identity: SemanticId,
        output_identity: SemanticId,
        rule: String,
        operation: SemanticId,
        target: TargetIdentity,
        implementation: SemanticId,
    ) -> (r: Self)
        ensures
            r.schema_version@ == PROVENANCE_SCHEMA_VERSION@,
            r.identity.0@ == transformation_identity(input_identity, output_identity, rule@, operation, target, implementation),
            r.input_identity == input_identity,
            r.output_identity == output_identity,
            r.rule == rule,
            r.operation == operation,
            r.realization is None,
            r.obligations_required@.len() == 0,
            r.evidence_consumed@.len() == 0,
            r.runtime_checks_inserted@.len() == 0,
            r.facts_established@.len() == 0,
            r.backend_promises_permitted@.len() == 0,
            r.backend_promises_withheld@.len() == 0,
            r.invalidated_evidence@.len() == 0,
            r.target == target,
            r.implementation == implementation,
    {
        let mut bytes: Vec<u8> = Vec::new();
        push_str(&mut bytes, input_identity.0.as_str());
        push_str(&mut bytes, output_identity.0.as_str());
        push_str(&mut bytes, rule.as_str());
        push_str(&mut bytes, operation.0.as_str());
        push_target(&mut bytes, &target);
        push_str(&mut bytes, implementation.0.as_str());
        assert(bytes@ =~= transformation_material(input_identity, output_identity, rule@, operation, target, implementation));
        let digest = sha256_hex(bytes.as_slice());
        Self {
            schema_version: PROVENANCE_SCHEMA_VERSION.to_owned(),
            identity: SemanticId(String::from_str("mncs:0.2:transformation:").concat(digest.as_str())),
            input_identity,
            output_identity,
            rule,
            operation,
            realization: None,
            obligations_required: Vec::new(),
            evidence_consumed: Vec::new(),
            runtime_checks_inserted: Vec::new(),
            facts_established: Vec::new(),
            backend_promises_permitted: Vec::new(),
            backend_promises_withheld: Vec::new(),
            invalidated_evidence: Vec::new(),
            target,
            implementation,
        }
    }
}

} // verus!
