//! Machine intent: integer operations with explicit arithmetic intent,
//! evidence-bearing capabilities, and backend promises that require current
//! passing obligations for the exact subject.

use vstd::arithmetic::power2::{
    lemma2_to64, lemma2_to64_rest, lemma_pow2_adds, lemma_pow2_strictly_increases,
    lemma_pow2_unfold, pow2,
};
use vstd::prelude::*;
use vstd::string::*;

use crate::digest::{sha256_hex, sha256_hex_of};
use crate::evidence::EvidenceFreshness;
use crate::frame::{le_bytes, push_le, push_str, str_frame};
use crate::identity::SemanticId;
use crate::text::{decimal, has_suffix, push_char, push_decimal, push_decimal_wide, text_eq};

verus! {

#[derive(Debug, Clone, Copy, PartialEq, Eq, Structural)]
pub struct IntegerType {
    pub bits: u16,
    pub signed: bool,
}

#[derive(Debug, Clone, Copy, PartialEq, Eq, Structural)]
pub enum ArithmeticIntent {
    Wrapping,
    Checked,
    Saturating,
    Trapping,
    Widening { bits: u16 },
}

#[derive(Debug, Clone, PartialEq, Eq)]
pub struct IntegerOperation {
    pub operator: String,
    pub operand_type: IntegerType,
    pub left: i128,
    pub right: i128,
    pub intent: ArithmeticIntent,
}

#[derive(Debug, Clone, PartialEq, Eq, Structural)]
pub struct IntegerEvaluation {
    pub value: Option<i128>,
    pub overflow: bool,
    pub trapped: bool,
    pub result_bits: u16,
}

proof fn lemma_pow2_126()
    ensures
        pow2(126) == 0x4000_0000_0000_0000_0000_0000_0000_0000int,
{
    lemma2_to64();
    lemma2_to64_rest();
    lemma_pow2_adds(63, 63);
}

/// `2^n` for `n <= 126`.
pub(crate) fn power_of_two(n: u16) -> (r: i128)
    requires
        n <= 126,
    ensures
        r == pow2(n as nat),
{
    let mut r: i128 = 1;
    let mut i: u16 = 0;
    proof {
        lemma2_to64();
        lemma_pow2_126();
    }
    while i < n
        invariant
            i <= n,
            n <= 126,
            r == pow2(i as nat),
            pow2(126) == 0x4000_0000_0000_0000_0000_0000_0000_0000int,
        decreases n - i,
    {
        proof {
            lemma_pow2_unfold((i + 1) as nat);
            if i + 1 < 126 {
                lemma_pow2_strictly_increases((i + 1) as nat, 126);
            }
        }
        r = r * 2;
        i = i + 1;
    }
    r
}

/// The representable range of a `bits`-wide integer.
pub open spec fn int_limits(bits: u16, signed: bool) -> (int, int) {
    if signed {
        (-pow2((bits - 1) as nat), pow2((bits - 1) as nat) - 1)
    } else {
        (0, pow2(bits as nat) - 1)
    }
}

fn limits(bits: u16, signed: bool) -> (r: (i128, i128))
    requires
        1 <= bits <= 126,
    ensures
        (r.0 as int, r.1 as int) == int_limits(bits, signed),
{
    proof {
        lemma_pow2_126();
        if bits < 126 {
            lemma_pow2_strictly_increases(bits as nat, 126);
        }
        lemma_pow2_strictly_increases((bits - 1) as nat, bits as nat);
    }
    if signed {
        let top = power_of_two(bits - 1);
        (-top, top - 1)
    } else {
        (0, power_of_two(bits) - 1)
    }
}

/// Two's-complement wrapping of `value` to `bits`.
pub open spec fn wrap_spec(value: int, bits: u16, signed: bool) -> int {
    let modulus = pow2(bits as nat) as int;
    let wrapped = value % modulus;
    if signed && wrapped >= pow2((bits - 1) as nat) {
        wrapped - modulus
    } else {
        wrapped
    }
}

/// The Euclidean remainder of `value` by a positive `modulus`.
fn rem_euclid(value: i128, modulus: i128) -> (r: i128)
    requires
        modulus > 0,
    ensures
        r == value % modulus,
        0 <= r < modulus,
{
    if value >= 0 {
        value % modulus
    } else {
        let u = -(value + 1);
        let t = u % modulus;
        proof {
            vstd::arithmetic::div_mod::lemma_fundamental_div_mod(u as int, modulus as int);
            let q = (u as int) / (modulus as int);
            assert(value == (-q - 1) * modulus + (modulus - 1 - t)) by (nonlinear_arith)
                requires
                    u == modulus * q + t,
                    value == -u - 1,
            ;
            vstd::arithmetic::div_mod::lemma_fundamental_div_mod_converse(value as int, modulus as int, -q - 1, modulus - 1 - t);
        }
        modulus - 1 - t
    }
}

fn wrap(value: i128, bits: u16, signed: bool) -> (r: i128)
    requires
        1 <= bits <= 126,
    ensures
        r == wrap_spec(value as int, bits, signed),
{
    proof {
        lemma_pow2_126();
        if bits < 126 {
            lemma_pow2_strictly_increases(bits as nat, 126);
        }
        vstd::arithmetic::power2::lemma_pow2_pos(bits as nat);
    }
    let (_, maximum) = limits(bits, false);
    let modulus = maximum + 1;
    let wrapped = rem_euclid(value, modulus);
    if signed {
        let sign = power_of_two(bits - 1);
        if wrapped >= sign {
            wrapped - modulus
        } else {
            wrapped
        }
    } else {
        wrapped
    }
}

/// A bitwise operator over the operands reduced to `bits`, re-signed for
/// signed types.
pub open spec fn bitwise_spec(operator: Seq<char>, ty: IntegerType, left: i128, right: i128) -> Option<i128> {
    let modulus = pow2(ty.bits as nat) as int;
    let l = ((left as int) % modulus) as i128;
    let r = ((right as int) % modulus) as i128;
    let value = if operator == "and"@ {
        Some(l & r)
    } else if operator == "or"@ {
        Some(l | r)
    } else if operator == "xor"@ {
        Some(l ^ r)
    } else {
        None
    };
    match value {
        None => None,
        Some(v) => if ty.signed && v >= pow2((ty.bits - 1) as nat) {
            Some((v - modulus) as i128)
        } else {
            Some(v)
        },
    }
}

fn bitwise(operator: &str, ty: IntegerType, left: i128, right: i128) -> (r: Option<i128>)
    requires
        1 <= ty.bits <= 126,
    ensures
        r == bitwise_spec(operator@, ty, left, right),
{
    proof {
        lemma_pow2_126();
        if ty.bits < 126 {
            lemma_pow2_strictly_increases(ty.bits as nat, 126);
        }
        vstd::arithmetic::power2::lemma_pow2_pos(ty.bits as nat);
    }
    let (_, maximum) = limits(ty.bits, false);
    let modulus = maximum + 1;
    let left = rem_euclid(left, modulus);
    let right = rem_euclid(right, modulus);
    let value = if text_eq(operator, "and") {
        left & right
    } else if text_eq(operator, "or") {
        left | right
    } else if text_eq(operator, "xor") {
        left ^ right
    } else {
        return None;
    };
    if ty.signed {
        let sign = power_of_two(ty.bits - 1);
        Some(if value >= sign {
            value - modulus
        } else {
            value
        })
    } else {
        Some(value)
    }
}

/// The width a result is judged at: the widened width, or the operand width.
pub open spec fn result_width(operation: IntegerOperation) -> u16 {
    match operation.intent {
        ArithmeticIntent::Widening { bits } => bits,
        _ => operation.operand_type.bits,
    }
}

/// An `i128` result when it is representable.
pub open spec fn in_i128(value: int) -> Option<i128> {
    if i128::MIN <= value <= i128::MAX {
        Some(value as i128)
    } else {
        None
    }
}

/// The exact result before the intent applies: `add`, `sub` and `mul` when
/// representable in `i128`; bitwise operators only under wrapping intent.
pub open spec fn raw_result(operation: IntegerOperation) -> Option<i128> {
    let op = operation.operator@;
    if op == "add"@ {
        in_i128(operation.left + operation.right)
    } else if op == "sub"@ {
        in_i128(operation.left - operation.right)
    } else if op == "mul"@ {
        in_i128(operation.left * operation.right)
    } else if (op == "and"@ || op == "or"@ || op == "xor"@) && operation.intent is Wrapping {
        bitwise_spec(op, operation.operand_type, operation.left, operation.right)
    } else {
        None
    }
}

/// The evaluation an operation's intent gives it.
pub open spec fn evaluation_of(operation: IntegerOperation) -> IntegerEvaluation {
    let bits = result_width(operation);
    let (minimum, maximum) = int_limits(bits, operation.operand_type.signed);
    let raw = raw_result(operation);
    let overflow = match raw {
        Some(v) => v < minimum || v > maximum,
        None => true,
    };
    let value = match operation.intent {
        ArithmeticIntent::Wrapping => match raw {
            Some(v) => Some(wrap_spec(v as int, operation.operand_type.bits, operation.operand_type.signed) as i128),
            None => None,
        },
        ArithmeticIntent::Saturating => match raw {
            Some(v) => Some(
                if v < minimum {
                    minimum as i128
                } else if v > maximum {
                    maximum as i128
                } else {
                    v
                },
            ),
            None => None,
        },
        _ => if !overflow {
            raw
        } else {
            None
        },
    };
    IntegerEvaluation {
        value,
        overflow,
        trapped: operation.intent is Trapping && overflow,
        result_bits: bits,
    }
}

/// A lowercase hexadecimal digit.
pub open spec fn hex_char(n: nat) -> char {
    if n < 10 {
        ((48 + n) as u8) as char
    } else {
        ((87 + n) as u8) as char
    }
}

/// One character as a JSON string writes it: quote and backslash escaped,
/// backspace, tab, newline, form feed and carriage return by their short
/// escapes, other control characters as `\u00XX` with lowercase hex, and
/// everything else as itself.
pub open spec fn json_char(c: char) -> Seq<char> {
    let u = c as u32;
    if c == '"' {
        seq!['\\', '"']
    } else if c == '\\' {
        seq!['\\', '\\']
    } else if u == 8 {
        seq!['\\', 'b']
    } else if u == 9 {
        seq!['\\', 't']
    } else if u == 10 {
        seq!['\\', 'n']
    } else if u == 12 {
        seq!['\\', 'f']
    } else if u == 13 {
        seq!['\\', 'r']
    } else if u < 32 {
        seq!['\\', 'u', '0', '0', hex_char((u / 16) as nat), hex_char((u % 16) as nat)]
    } else {
        seq![c]
    }
}

/// The escaped characters of a JSON string body.
pub open spec fn json_chars(s: Seq<char>) -> Seq<char>
    decreases s.len(),
{
    if s.len() == 0 {
        Seq::empty()
    } else {
        json_chars(s.drop_last()) + json_char(s.last())
    }
}

/// A JSON string.
pub open spec fn json_string(s: Seq<char>) -> Seq<char> {
    seq!['"'] + json_chars(s) + seq!['"']
}

/// A JSON integer.
pub open spec fn json_int(v: int) -> Seq<char> {
    if v < 0 {
        seq!['-'] + decimal((-v) as nat)
    } else {
        decimal(v as nat)
    }
}

/// An arithmetic intent as JSON: unit intents by their snake-case name, a
/// widening intent as an object holding its bits.
pub open spec fn intent_json(intent: ArithmeticIntent) -> Seq<char> {
    match intent {
        ArithmeticIntent::Wrapping => "\"wrapping\""@,
        ArithmeticIntent::Checked => "\"checked\""@,
        ArithmeticIntent::Saturating => "\"saturating\""@,
        ArithmeticIntent::Trapping => "\"trapping\""@,
        ArithmeticIntent::Widening { bits } => "{\"widening\":{\"bits\":"@ + decimal(bits as nat) + "}}"@,
    }
}

/// An operation as compact JSON, its fields in declaration order.
pub open spec fn operation_json(operation: IntegerOperation) -> Seq<char> {
    "{\"operator\":"@ + json_string(operation.operator@) + ",\"operand_type\":{\"bits\":"@ + decimal(
        operation.operand_type.bits as nat,
    ) + ",\"signed\":"@ + (if operation.operand_type.signed { "true"@ } else { "false"@ }) + "},\"left\":"@ + json_int(
        operation.left as int,
    ) + ",\"right\":"@ + json_int(operation.right as int) + ",\"intent\":"@ + intent_json(operation.intent) + "}"@
}

/// `mncs:0.2:operation:<operator>:<digest of the operation's JSON>`.
pub open spec fn operation_identity(operation: IntegerOperation) -> Seq<char> {
    "mncs:0.2:operation:"@ + operation.operator@ + ":"@ + sha256_hex_of(vstd::utf8::encode_utf8(operation_json(operation)))
}

pub(crate) fn push_json_string(out: &mut String, s: &str)
    ensures
        final(out)@ == old(out)@ + json_string(s@),
{
    let ghost start = out@;
    push_char(out, '"');
    let n = s.unicode_len();
    let mut i: usize = 0;
    while i < n
        invariant
            n == s@.len(),
            i <= n,
            out@ == start + seq!['"'] + json_chars(s@.take(i as int)),
        decreases n - i,
    {
        let c = s.get_char(i);
        let ghost before = out@;
        let u = c as u32;
        if c == '"' {
            push_char(out, '\\');
            push_char(out, '"');
        } else if c == '\\' {
            push_char(out, '\\');
            push_char(out, '\\');
        } else if u == 8 {
            push_char(out, '\\');
            push_char(out, 'b');
        } else if u == 9 {
            push_char(out, '\\');
            push_char(out, 't');
        } else if u == 10 {
            push_char(out, '\\');
            push_char(out, 'n');
        } else if u == 12 {
            push_char(out, '\\');
            push_char(out, 'f');
        } else if u == 13 {
            push_char(out, '\\');
            push_char(out, 'r');
        } else if u < 32 {
            let high = (u / 16) as u8;
            let low = (u % 16) as u8;
            push_char(out, '\\');
            push_char(out, 'u');
            push_char(out, '0');
            push_char(out, '0');
            push_char(out, (48 + high) as char);
            push_char(out, if low < 10 { (48 + low) as char } else { (87 + low) as char });
        } else {
            push_char(out, c);
        }
        proof {
            assert(s@.take(i + 1).drop_last() =~= s@.take(i as int));
            assert(s@.take(i + 1).last() == c);
            assert(out@ =~= before + json_char(c));
        }
        i = i + 1;
    }
    assert(s@.take(n as int) =~= s@);
    push_char(out, '"');
    assert(out@ =~= start + json_string(s@));
}

fn push_json_int(out: &mut String, v: i128)
    ensures
        final(out)@ == old(out)@ + json_int(v as int),
{
    let ghost start = out@;
    if v < 0 {
        push_char(out, '-');
        let magnitude: u128 = if v == i128::MIN { 1u128 << 127 } else { (-v) as u128 };
        assert(magnitude as int == -(v as int)) by (bit_vector)
            requires
                magnitude == if v == i128::MIN { 1u128 << 127 } else { (-v) as u128 },
                v < 0,
        ;
        push_decimal_wide(out, magnitude);
        assert(out@ =~= start + json_int(v as int));
    } else {
        push_decimal_wide(out, v as u128);
    }
}

/// The operation as compact JSON.
pub fn operation_json_text(operation: &IntegerOperation) -> (r: String)
    ensures
        r@ == operation_json(*operation),
{
    let mut out = String::from_str("{\"operator\":");
    push_json_string(&mut out, operation.operator.as_str());
    out.append(",\"operand_type\":{\"bits\":");
    push_decimal(&mut out, operation.operand_type.bits as u64);
    out.append(",\"signed\":");
    out.append(if operation.operand_type.signed { "true" } else { "false" });
    out.append("},\"left\":");
    push_json_int(&mut out, operation.left);
    out.append(",\"right\":");
    push_json_int(&mut out, operation.right);
    out.append(",\"intent\":");
    match operation.intent {
        ArithmeticIntent::Wrapping => out.append("\"wrapping\""),
        ArithmeticIntent::Checked => out.append("\"checked\""),
        ArithmeticIntent::Saturating => out.append("\"saturating\""),
        ArithmeticIntent::Trapping => out.append("\"trapping\""),
        ArithmeticIntent::Widening { bits } => {
            out.append("{\"widening\":{\"bits\":");
            push_decimal(&mut out, bits as u64);
            out.append("}}");
        },
    }
    out.append("}");
    assert(out@ =~= operation_json(*operation));
    out
}

impl IntegerOperation {
    pub fn identity(&self) -> (r: SemanticId)
        ensures
            r.0@ == operation_identity(*self),
    {
        let json = operation_json_text(self);
        let digest = sha256_hex(json.as_str().as_bytes());
        let text = String::from_str("mncs:0.2:operation:").concat(self.operator.as_str()).concat(":").concat(digest.as_str());
        SemanticId(text)
    }

    pub fn evaluate(&self) -> (r: IntegerEvaluation)
        requires
            1 <= result_width(*self) <= 126,
        ensures
            r == evaluation_of(*self),
    {
        let result_bits = match self.intent {
            ArithmeticIntent::Widening { bits } => bits,
            _ => self.operand_type.bits,
        };
        let (minimum, maximum) = limits(result_bits, self.operand_type.signed);
        let raw = if text_eq(self.operator.as_str(), "add") {
            self.left.checked_add(self.right)
        } else if text_eq(self.operator.as_str(), "sub") {
            self.left.checked_sub(self.right)
        } else if text_eq(self.operator.as_str(), "mul") {
            self.left.checked_mul(self.right)
        } else if (text_eq(self.operator.as_str(), "and") || text_eq(self.operator.as_str(), "or") || text_eq(
            self.operator.as_str(),
            "xor",
        )) && matches!(self.intent, ArithmeticIntent::Wrapping) {
            bitwise(self.operator.as_str(), self.operand_type, self.left, self.right)
        } else {
            None
        };
        let overflow = match raw {
            Some(value) => value < minimum || value > maximum,
            None => true,
        };
        match self.intent {
            ArithmeticIntent::Wrapping => IntegerEvaluation {
                value: match raw {
                    Some(value) => Some(wrap(value, self.operand_type.bits, self.operand_type.signed)),
                    None => None,
                },
                overflow,
                trapped: false,
                result_bits,
            },
            ArithmeticIntent::Checked => IntegerEvaluation {
                value: if !overflow { raw } else { None },
                overflow,
                trapped: false,
                result_bits,
            },
            ArithmeticIntent::Saturating => IntegerEvaluation {
                value: match raw {
                    Some(value) => Some(
                        if value < minimum {
                            minimum
                        } else if value > maximum {
                            maximum
                        } else {
                            value
                        },
                    ),
                    None => None,
                },
                overflow,
                trapped: false,
                result_bits,
            },
            ArithmeticIntent::Trapping => IntegerEvaluation {
                value: if !overflow { raw } else { None },
                overflow,
                trapped: overflow,
                result_bits,
            },
            ArithmeticIntent::Widening { .. } => IntegerEvaluation {
                value: if !overflow { raw } else { None },
                overflow,
                trapped: false,
                result_bits,
            },
        }
    }
}


#[derive(Debug, Clone, PartialEq, Eq)]
pub struct Intent {
    pub identity: SemanticId,
    pub statement: String,
}

#[derive(Debug, Clone, PartialEq, Eq)]
pub struct MachinePreference {
    pub identity: SemanticId,
    pub statement: String,
}

pub type Preference = MachinePreference;

#[derive(Debug, Clone, PartialEq, Eq)]
pub struct Fact {
    pub identity: SemanticId,
    pub subject: SemanticId,
    pub scope: String,
    pub statement: String,
}

#[derive(Debug, Clone, PartialEq, Eq)]
pub struct Requirement {
    pub identity: SemanticId,
    pub subject: SemanticId,
    pub statement: String,
}

#[derive(Debug, Clone, Copy, PartialEq, Eq, Structural)]
pub enum ObligationStatus {
    Pass,
    Fail,
    Unknown,
}

#[derive(Debug, Clone, PartialEq, Eq)]
pub struct Obligation {
    pub identity: SemanticId,
    pub subject: SemanticId,
    pub requirement: SemanticId,
    pub status: ObligationStatus,
    pub freshness: EvidenceFreshness,
    pub method: String,
}

/// An evidence-bearing memory capability. The exact subject and scope are
/// part of the capability, so alignment evidence cannot be reused for
/// another allocation or region.
#[derive(Debug, Clone, PartialEq, Eq)]
pub struct AlignmentCapability {
    pub identity: SemanticId,
    pub subject: SemanticId,
    pub scope: String,
    pub alignment: u64,
    pub evidence: Obligation,
}

impl AlignmentCapability {
    /// The capability covers this subject and scope at this alignment, on
    /// current passing evidence about the same subject.
    pub fn permits(&self, subject: &SemanticId, scope: &str, required_alignment: u64) -> (r: bool)
        ensures
            r == (self.subject.0@ == subject.0@ && self.scope@ == scope@ && self.alignment >= required_alignment
                && self.evidence.subject.0@ == subject.0@ && self.evidence.freshness == EvidenceFreshness::Current
                && self.evidence.status == ObligationStatus::Pass),
    {
        self.subject.same(subject) && text_eq(self.scope.as_str(), scope) && self.alignment >= required_alignment
            && self.evidence.subject.same(subject) && self.evidence.freshness == EvidenceFreshness::Current
            && self.evidence.status == ObligationStatus::Pass
    }

    /// The capability as an operation uses it: its identity, declaring the
    /// subject it covers.
    pub fn to_ir_capability_use(&self) -> (r: CapabilityUse)
        ensures
            r.capability.0@ == self.identity.0@,
            r.semantic_declaration matches Some(d) && d.0@ == self.subject.0@,
    {
        CapabilityUse { capability: self.identity.duplicate(), semantic_declaration: Some(self.subject.duplicate()) }
    }
}

/// A use of a capability by an operation, with the semantic declaration the
/// use is backed by.
#[derive(Debug, Clone, PartialEq, Eq)]
pub struct CapabilityUse {
    pub capability: SemanticId,
    pub semantic_declaration: Option<SemanticId>,
}

#[derive(Debug, Clone, PartialEq, Eq)]
pub struct MachineIntentExpression {
    pub operation: IntegerOperation,
    pub intent: Intent,
    pub preferences: Vec<MachinePreference>,
    pub facts: Vec<Fact>,
    pub requirements: Vec<Requirement>,
    pub obligations: Vec<Obligation>,
}

#[derive(Debug, Clone, PartialEq, Eq)]
pub struct HighLevelIrNode {
    pub operation_identity: SemanticId,
    pub operation: IntegerOperation,
    pub intent_identity: SemanticId,
    pub fact_identities: Vec<SemanticId>,
    pub requirement_identities: Vec<SemanticId>,
    pub obligation_identities: Vec<SemanticId>,
}

/// The identity texts of a list of identities.
pub open spec fn id_texts(ids: Seq<SemanticId>) -> Seq<Seq<char>> {
    ids.map_values(|id: SemanticId| id.0@)
}

fn fact_identities(facts: &Vec<Fact>) -> (r: Vec<SemanticId>)
    ensures
        id_texts(r@) == facts@.map_values(|f: Fact| f.identity.0@),
{
    let mut out: Vec<SemanticId> = Vec::new();
    let mut i: usize = 0;
    while i < facts.len()
        invariant
            i <= facts@.len(),
            out@.len() == i,
            forall|k: int| 0 <= k < i ==> (#[trigger] out@[k]).0@ == facts@[k].identity.0@,
        decreases facts@.len() - i,
    {
        out.push(facts[i].identity.duplicate());
        i = i + 1;
    }
    assert(id_texts(out@) =~= facts@.map_values(|f: Fact| f.identity.0@));
    out
}

fn requirement_identities(requirements: &Vec<Requirement>) -> (r: Vec<SemanticId>)
    ensures
        id_texts(r@) == requirements@.map_values(|q: Requirement| q.identity.0@),
{
    let mut out: Vec<SemanticId> = Vec::new();
    let mut i: usize = 0;
    while i < requirements.len()
        invariant
            i <= requirements@.len(),
            out@.len() == i,
            forall|k: int| 0 <= k < i ==> (#[trigger] out@[k]).0@ == requirements@[k].identity.0@,
        decreases requirements@.len() - i,
    {
        out.push(requirements[i].identity.duplicate());
        i = i + 1;
    }
    assert(id_texts(out@) =~= requirements@.map_values(|q: Requirement| q.identity.0@));
    out
}

fn obligation_identities(obligations: &Vec<Obligation>) -> (r: Vec<SemanticId>)
    ensures
        id_texts(r@) == obligations@.map_values(|o: Obligation| o.identity.0@),
{
    let mut out: Vec<SemanticId> = Vec::new();
    let mut i: usize = 0;
    while i < obligations.len()
        invariant
            i <= obligations@.len(),
            out@.len() == i,
            forall|k: int| 0 <= k < i ==> (#[trigger] out@[k]).0@ == obligations@[k].identity.0@,
        decreases obligations@.len() - i,
    {
        out.push(obligations[i].identity.duplicate());
        i = i + 1;
    }
    assert(id_texts(out@) =~= obligations@.map_values(|o: Obligation| o.identity.0@));
    out
}

fn copy_operation(operation: &IntegerOperation) -> (r: IntegerOperation)
    ensures
        r.operator@ == operation.operator@,
        r.operand_type == operation.operand_type,
        r.left == operation.left,
        r.right == operation.right,
        r.intent == operation.intent,
{
    IntegerOperation {
        operator: operation.operator.clone(),
        operand_type: operation.operand_type,
        left: operation.left,
        right: operation.right,
        intent: operation.intent,
    }
}

impl MachineIntentExpression {
    /// Lowering keeps the operation, the intent, and every fact, requirement
    /// and obligation identity, in order.
    pub fn lower_to_high_level_ir(&self) -> (r: HighLevelIrNode)
        ensures
            r.operation_identity.0@ == operation_identity(self.operation),
            r.operation.operator@ == self.operation.operator@,
            r.operation.operand_type == self.operation.operand_type,
            r.operation.left == self.operation.left,
            r.operation.right == self.operation.right,
            r.operation.intent == self.operation.intent,
            r.intent_identity.0@ == self.intent.identity.0@,
            id_texts(r.fact_identities@) == self.facts@.map_values(|f: Fact| f.identity.0@),
            id_texts(r.requirement_identities@) == self.requirements@.map_values(|q: Requirement| q.identity.0@),
            id_texts(r.obligation_identities@) == self.obligations@.map_values(|o: Obligation| o.identity.0@),
    {
        HighLevelIrNode {
            operation_identity: self.operation.identity(),
            operation: copy_operation(&self.operation),
            intent_identity: self.intent.identity.duplicate(),
            fact_identities: fact_identities(&self.facts),
            requirement_identities: requirement_identities(&self.requirements),
            obligation_identities: obligation_identities(&self.obligations),
        }
    }
}

#[derive(Debug, Clone, Copy, PartialEq, Eq, Structural)]
pub enum BackendPromise {
    NoOverflow,
}

#[derive(Debug, Clone, PartialEq, Eq)]
pub struct BackendPromiseDecision {
    pub promise: BackendPromise,
    pub permitted: bool,
    pub reason: String,
}

/// The obligation a no-overflow promise rests on: about this exact subject,
/// discharging a requirement whose identity ends in `no-overflow`.
pub open spec fn backs_promise(obligation: Obligation, subject: Seq<char>) -> bool {
    obligation.subject.0@ == subject && "no-overflow"@.len() <= obligation.requirement.0@.len()
        && obligation.requirement.0@.subrange(
        obligation.requirement.0@.len() - "no-overflow"@.len(),
        obligation.requirement.0@.len() as int,
    ) == "no-overflow"@
}

pub open spec fn status_name(status: ObligationStatus) -> Seq<char> {
    match status {
        ObligationStatus::Pass => "Pass"@,
        ObligationStatus::Fail => "Fail"@,
        ObligationStatus::Unknown => "Unknown"@,
    }
}

pub open spec fn freshness_name(freshness: EvidenceFreshness) -> Seq<char> {
    match freshness {
        EvidenceFreshness::Current => "Current"@,
        EvidenceFreshness::Stale => "Stale"@,
        EvidenceFreshness::Unknown => "Unknown"@,
    }
}

fn status_text(status: ObligationStatus) -> (r: &'static str)
    ensures
        r@ == status_name(status),
{
    match status {
        ObligationStatus::Pass => "Pass",
        ObligationStatus::Fail => "Fail",
        ObligationStatus::Unknown => "Unknown",
    }
}

fn freshness_text(freshness: EvidenceFreshness) -> (r: &'static str)
    ensures
        r@ == freshness_name(freshness),
{
    match freshness {
        EvidenceFreshness::Current => "Current",
        EvidenceFreshness::Stale => "Stale",
        EvidenceFreshness::Unknown => "Unknown",
    }
}

impl BackendPromiseDecision {
    /// A backend may make the promise only on the first obligation that
    /// backs it being current and PASS; otherwise it is refused with the
    /// reason.
    pub fn evaluate(promise: BackendPromise, subject: &SemanticId, obligations: &[Obligation]) -> (r: Self)
        ensures
            r.promise == promise,
            match first_backing(obligations@, subject.0@) {
                None => !r.permitted && r.reason@ == "required obligation is absent"@,
                Some(i) => {
                    let o = obligations@[i];
                    &&& r.permitted == (o.status == ObligationStatus::Pass && o.freshness == EvidenceFreshness::Current)
                    &&& r.permitted ==> r.reason@ == "exact scoped obligation is current and PASS"@
                    &&& !r.permitted ==> r.reason@ == "obligation is "@ + status_name(o.status) + " or "@ + freshness_name(o.freshness)
                },
            },
    {
        let mut i: usize = 0;
        while i < obligations.len()
            invariant
                i <= obligations@.len(),
                forall|j: int| 0 <= j < i ==> !backs_promise(#[trigger] obligations@[j], subject.0@),
            decreases obligations@.len() - i,
        {
            let obligation = &obligations[i];
            if obligation.subject.same(subject) && has_suffix(obligation.requirement.0.as_str(), "no-overflow") {
                let permitted = obligation.status == ObligationStatus::Pass && obligation.freshness == EvidenceFreshness::Current;
                let reason = if permitted {
                    String::from_str("exact scoped obligation is current and PASS")
                } else {
                    String::from_str("obligation is ").concat(status_text(obligation.status)).concat(" or ").concat(
                        freshness_text(obligation.freshness),
                    )
                };
                proof {
                    assert(backs_promise(obligations@[i as int], subject.0@));
                    assert(first_backing(obligations@, subject.0@) == Some(i as int));
                }
                return Self { promise, permitted, reason };
            }
            i = i + 1;
        }
        Self { promise, permitted: false, reason: String::from_str("required obligation is absent") }
    }
}

/// The first obligation backing a promise about `subject`.
pub open spec fn first_backing(obligations: Seq<Obligation>, subject: Seq<char>) -> Option<int> {
    if exists|i: int| 0 <= i < obligations.len() && backs_promise(#[trigger] obligations[i], subject) {
        Some(choose|i: int|
            0 <= i < obligations.len() && backs_promise(#[trigger] obligations[i], subject) && forall|j: int|
                0 <= j < i ==> !backs_promise(#[trigger] obligations[j], subject))
    } else {
        None
    }
}

impl Intent {
    pub fn identity(&self) -> (r: SemanticId)
        ensures
            r.0@ == self.identity.0@,
    {
        self.identity.duplicate()
    }
}

}
