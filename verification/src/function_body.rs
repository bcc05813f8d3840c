//! A function body as obligation generation reads it: blocks of
//! operations, each with its operands, results and attached machine-intent
//! requirements; and the facts of each operation derived from the body (the
//! literal values of division operands, the bounded loop's counter step).

use vstd::prelude::*;
use vstd::string::*;

use crate::function_obligations::{pair_texts, BoundedAccess, BoundsEvidence, IterationDeclaration};
use crate::graph::copy_ids;
use crate::identity::{id_text, id_views, operation_id, IdentityKind, SemanticId};
use crate::machine_intent::{ArithmeticIntent, IntegerType};
use crate::obligations::bounds_representable;
use crate::body_ranges::{body_ranges, body_ranges_spec, body_representable, entry_views, operand_lookup, operand_range};
use crate::operation_obligations::{BodyOperationFacts, OperationFacts};
use crate::proof_transport::{copy_strings, texts};
use crate::text::{has_prefix, text_eq};

verus! {

/// The type of a body value, as far as the range analysis reads it.
#[derive(Debug, Clone, Copy, PartialEq, Eq, Structural)]
pub enum ScalarType {
    Integer(IntegerType),
    Byte,
    Other,
}

/// A value a body defines: a parameter or an operation result.
#[derive(Debug, Clone, PartialEq, Eq)]
pub struct BodyValue {
    pub id: String,
    pub ty: ScalarType,
}

/// The identities of a list of values.
pub open spec fn value_ids(values: Seq<BodyValue>) -> Seq<Seq<char>> {
    values.map_values(|v: BodyValue| v.id@)
}

/// What a body operation is, as far as its obligations depend on it.
#[derive(Debug, Clone, PartialEq, Eq)]
pub enum BodyOperationKind {
    /// An operation that is total by definition.
    Total,
    /// A literal of type `ty`.
    Constant { value: i128, ty: ScalarType },
    /// An explicit conversion between scalar types.
    Convert { from: ScalarType, to: ScalarType },
    /// An indexed access and how its bound is shown.
    Bounds { access: BoundedAccess, evidence: BoundsEvidence },
    /// A view construction or narrowing.
    View,
    /// A binary64 operation, comparison or intrinsic.
    Float,
    /// A scalar integer operation.
    Integer { operator: String, operand_type: IntegerType, intent: ArithmeticIntent },
    /// A vector lane-wise operation or reduction.
    VectorArithmetic { intent: ArithmeticIntent },
    /// A body effect: the identity of the declared effect and its capability.
    Effect { effect: SemanticId, capability: String },
    /// A host call: the identity of its granted effect and its capability.
    HostCall { effect: SemanticId, capability: String },
    /// A runtime check establishing `obligation`.
    RuntimeCheck { obligation: SemanticId },
    /// A call, with what the callee requires.
    Call { callee: SemanticId, required_capabilities: Vec<String>, effects: Vec<(String, String)> },
}

/// One operation of a block.
#[derive(Debug, Clone, PartialEq, Eq)]
pub struct BodyOperation {
    pub id: String,
    pub kind: BodyOperationKind,
    pub operands: Vec<String>,
    pub results: Vec<BodyValue>,
    pub intent_requirements: Vec<SemanticId>,
}

/// One block of a body.
#[derive(Debug, Clone, PartialEq, Eq)]
pub struct BodyBlock {
    pub id: String,
    pub parameters: Vec<BodyValue>,
    pub operations: Vec<BodyOperation>,
}

/// The value of the last integer-typed literal among `ops` whose results
/// include `id`.
pub open spec fn constant_in_ops(ops: Seq<BodyOperation>, id: Seq<char>) -> Option<i128>
    decreases ops.len(),
{
    if ops.len() == 0 {
        None
    } else {
        match ops.last().kind {
            BodyOperationKind::Constant { value, ty } => if ty is Integer && value_ids(ops.last().results@).contains(id) {
                Some(value)
            } else {
                constant_in_ops(ops.drop_last(), id)
            },
            _ => constant_in_ops(ops.drop_last(), id),
        }
    }
}

/// The value of the last integer-typed literal of the body (blocks and
/// operations in order) whose results include `id`: the body's literal
/// table, where a later definition replaces an earlier one.
pub open spec fn constant_in_blocks(blocks: Seq<BodyBlock>, id: Seq<char>) -> Option<i128>
    decreases blocks.len(),
{
    if blocks.len() == 0 {
        None
    } else {
        match constant_in_ops(blocks.last().operations@, id) {
            Some(v) => Some(v),
            None => constant_in_blocks(blocks.drop_last(), id),
        }
    }
}

/// The literal value of the `i`-th operand, when it is one.
pub open spec fn operand_constant(blocks: Seq<BodyBlock>, operands: Seq<String>, i: int) -> Option<i128> {
    if 0 <= i < operands.len() {
        constant_in_blocks(blocks, operands[i]@)
    } else {
        None
    }
}

fn value_listed(xs: &Vec<BodyValue>, t: &str) -> (r: bool)
    ensures
        r == value_ids(xs@).contains(t@),
{
    let mut i: usize = 0;
    while i < xs.len()
        invariant
            i <= xs@.len(),
            forall|j: int| 0 <= j < i ==> value_ids(xs@)[j] != t@,
        decreases xs@.len() - i,
    {
        if text_eq(xs[i].id.as_str(), t) {
            assert(value_ids(xs@)[i as int] == t@);
            return true;
        }
        i = i + 1;
    }
    false
}

/// The body's literal value for `id`: the last integer-typed literal
/// defining it.
pub fn constant_value(blocks: &Vec<BodyBlock>, id: &str) -> (r: Option<i128>)
    ensures
        r == constant_in_blocks(blocks@, id@),
{
    let mut b: usize = blocks.len();
    assert(blocks@.take(b as int) =~= blocks@);
    while b > 0
        invariant
            b <= blocks@.len(),
            constant_in_blocks(blocks@, id@) == constant_in_blocks(blocks@.take(b as int), id@),
        decreases b,
    {
        let ops = &blocks[b - 1].operations;
        let mut o: usize = ops.len();
        assert(ops@.take(o as int) =~= ops@);
        while o > 0
            invariant
                0 < b <= blocks@.len(),
                ops@ == blocks@[b - 1].operations@,
                constant_in_blocks(blocks@, id@) == constant_in_blocks(blocks@.take(b as int), id@),
                o <= ops@.len(),
                constant_in_ops(ops@, id@) == constant_in_ops(ops@.take(o as int), id@),
            decreases o,
        {
            let op = &ops[o - 1];
            proof {
                assert(ops@.take(o as int).last() == ops@[o - 1]);
                assert(ops@.take(o as int).drop_last() =~= ops@.take(o - 1));
            }
            match &op.kind {
                BodyOperationKind::Constant { value, ty } => {
                    let integer = match ty {
                        ScalarType::Integer(_) => true,
                        _ => false,
                    };
                    if integer && value_listed(&op.results, id) {
                        proof {
                            let prefix = blocks@.take(b as int);
                            assert(prefix.last() == blocks@[b - 1]);
                            assert(constant_in_ops(ops@.take(o as int), id@) == Some(*value));
                        }
                        return Some(*value);
                    }
                },
                _ => {},
            }
            o = o - 1;
        }
        proof {
            let prefix = blocks@.take(b as int);
            assert(prefix.last() == blocks@[b - 1]);
            assert(prefix.drop_last() =~= blocks@.take(b - 1));
            assert(constant_in_ops(ops@, id@) is None);
        }
        b = b - 1;
    }
    None
}

/// An operation id names the bounded loop's counter decrement: the
/// elaborator's hygienic `$mncs$iteration_decrement$` form.
pub open spec fn is_iteration_decrement(op: Seq<char>) -> bool {
    let prefix = "$mncs$iteration_decrement$"@;
    prefix.len() <= op.len() && op.subrange(0, prefix.len() as int) == prefix
}

/// The operation `op` of block `block` is a bounded iteration's counter
/// step: the block is some iteration's backedge and the operation is the
/// counter decrement.
pub open spec fn counter_step_at(iterations: Seq<IterationDeclaration>, block: Seq<char>, op: Seq<char>) -> bool {
    (exists|t: int| 0 <= t < iterations.len() && (#[trigger] iterations[t]).backedge@ == block)
        && is_iteration_decrement(op)
}

/// The facts of the operation `op` of block `block`, derived from the body
/// `blocks` and the bounded iterations: a `div` or `mod` takes the body's
/// literal values of its divisor (second operand) and dividend (first
/// operand); other integer and vector arithmetic learns whether it is a
/// counter step and the intervals the body's range analysis gives its
/// operands; literals and conversions establish nothing; every other kind
/// carries over.
pub open spec fn facts_derived(
    facts: OperationFacts,
    blocks: Seq<BodyBlock>,
    ranges: Seq<(Seq<char>, (i128, i128))>,
    iterations: Seq<IterationDeclaration>,
    block: Seq<char>,
    op: BodyOperation,
) -> bool {
    match op.kind {
        BodyOperationKind::Total | BodyOperationKind::Constant { .. } | BodyOperationKind::Convert { .. } => facts is Total,
        BodyOperationKind::Bounds { access, evidence } => facts == OperationFacts::Bounds { access, evidence },
        BodyOperationKind::View => facts is View,
        BodyOperationKind::Float => facts is Float,
        BodyOperationKind::Integer { operator, operand_type, intent } => if operator@ == "div"@
            || operator@ == "mod"@ {
            facts == OperationFacts::Division {
                operand_type,
                divisor: operand_constant(blocks, op.operands@, 1),
                dividend: operand_constant(blocks, op.operands@, 0),
            }
        } else {
            facts matches OperationFacts::ScalarArithmetic { operator: o, operand_type: t, intent: i, counter_step, lhs, rhs }
                && o@ == operator@ && t == operand_type && i == intent && counter_step == counter_step_at(
                iterations,
                block,
                op.id@,
            ) && lhs == operand_range(ranges, op.operands@, 0) && rhs == operand_range(ranges, op.operands@, 1)
        },
        BodyOperationKind::VectorArithmetic { intent } => facts == OperationFacts::VectorArithmetic {
            intent,
            counter_step: counter_step_at(iterations, block, op.id@),
        },
        BodyOperationKind::Effect { effect, capability } => facts matches OperationFacts::Effect {
            effect: e,
            capability: c,
        } && e.0@ == effect.0@ && c@ == capability@,
        BodyOperationKind::HostCall { effect, capability } => facts matches OperationFacts::HostCall {
            effect: e,
            capability: c,
        } && e.0@ == effect.0@ && c@ == capability@,
        BodyOperationKind::RuntimeCheck { obligation } => facts matches OperationFacts::RuntimeCheck { obligation: o }
            && o.0@ == obligation.0@,
        BodyOperationKind::Call { callee, required_capabilities, effects } => facts matches OperationFacts::Call {
            callee: c,
            required_capabilities: r,
            effects: e,
        } && c.0@ == callee.0@ && texts(r@) == texts(required_capabilities@) && pair_texts(e@) == pair_texts(
            effects@,
        ),
    }
}

/// The operations of a body with the blocks they stand in, in order.
pub open spec fn flat_operations(blocks: Seq<BodyBlock>) -> Seq<(Seq<char>, BodyOperation)>
    decreases blocks.len(),
{
    if blocks.len() == 0 {
        seq![]
    } else {
        flat_operations(blocks.drop_last()) + blocks.last().operations@.map_values(
            |op: BodyOperation| (blocks.last().id@, op),
        )
    }
}

/// The `k`-th derived operation of a function body: its identity, its
/// derived facts and its machine-intent requirements.
pub open spec fn operation_derived(
    x: BodyOperationFacts,
    namespace: Seq<char>,
    name: Seq<char>,
    params: Seq<BodyValue>,
    blocks: Seq<BodyBlock>,
    iterations: Seq<IterationDeclaration>,
    k: int,
) -> bool {
    let (block, op) = flat_operations(blocks)[k];
    &&& x.subject.0@ == id_text(IdentityKind::Operation, seq![namespace, name, block, op.id@])
    &&& facts_derived(x.facts, blocks, body_ranges_spec(params, blocks), iterations, block, op)
    &&& id_views(x.intent_requirements@) == id_views(op.intent_requirements@)
}

/// The facts fit the arithmetic the rules are computed in: a signed
/// division's width leaves room for its minimum (see also
/// `body_representable` for what the range analysis reads).
pub open spec fn kind_representable(kind: BodyOperationKind) -> bool {
    match kind {
        BodyOperationKind::Integer { operator, operand_type, .. } => {
            &&& (operator@ == "div"@ || operator@ == "mod"@) ==> (!operand_type.signed || operand_type.bits <= 127)
            &&& (operator@ == "add"@ || operator@ == "sub"@ || operator@ == "mul"@) ==> bounds_representable(operand_type)
        },
        _ => true,
    }
}

fn backedge_listed(iterations: &Vec<IterationDeclaration>, block: &str) -> (r: bool)
    ensures
        r == exists|t: int| 0 <= t < iterations@.len() && (#[trigger] iterations@[t]).backedge@ == block@,
{
    let mut i: usize = 0;
    while i < iterations.len()
        invariant
            i <= iterations@.len(),
            forall|j: int| 0 <= j < i ==> (#[trigger] iterations@[j]).backedge@ != block@,
        decreases iterations@.len() - i,
    {
        if text_eq(iterations[i].backedge.as_str(), block) {
            return true;
        }
        i = i + 1;
    }
    false
}

fn copy_pairs(s: &Vec<(String, String)>) -> (r: Vec<(String, String)>)
    ensures
        pair_texts(r@) == pair_texts(s@),
{
    let mut out: Vec<(String, String)> = Vec::new();
    let mut i: usize = 0;
    while i < s.len()
        invariant
            i <= s@.len(),
            out@.len() == i,
            forall|j: int| 0 <= j < i ==> #[trigger] pair_texts(out@)[j] == pair_texts(s@)[j],
        decreases s@.len() - i,
    {
        let pair = (s[i].0.clone(), s[i].1.clone());
        let ghost before = out@;
        out.push(pair);
        proof {
            assert forall|j: int| 0 <= j < i + 1 implies #[trigger] pair_texts(out@)[j] == pair_texts(s@)[j] by {
                if j < i {
                    assert(out@[j] == before[j]);
                    assert(pair_texts(before)[j] == pair_texts(s@)[j]);
                }
            }
        }
        i = i + 1;
    }
    assert(pair_texts(out@) =~= pair_texts(s@));
    out
}

fn derive_facts(
    blocks: &Vec<BodyBlock>,
    ranges: &Vec<(String, (i128, i128))>,
    iterations: &Vec<IterationDeclaration>,
    block: &str,
    op: &BodyOperation,
) -> (r: OperationFacts)
    ensures
        facts_derived(r, blocks@, entry_views(ranges@), iterations@, block@, *op),
{
    match &op.kind {
        BodyOperationKind::Total | BodyOperationKind::Constant { .. } | BodyOperationKind::Convert { .. } => OperationFacts::Total,
        BodyOperationKind::Bounds { access, evidence } => OperationFacts::Bounds { access: *access, evidence: *evidence },
        BodyOperationKind::View => OperationFacts::View,
        BodyOperationKind::Float => OperationFacts::Float,
        BodyOperationKind::Integer { operator, operand_type, intent } => {
            if text_eq(operator.as_str(), "div") || text_eq(operator.as_str(), "mod") {
                let divisor = if op.operands.len() > 1 {
                    constant_value(blocks, op.operands[1].as_str())
                } else {
                    None
                };
                let dividend = if op.operands.len() > 0 {
                    constant_value(blocks, op.operands[0].as_str())
                } else {
                    None
                };
                OperationFacts::Division { operand_type: *operand_type, divisor, dividend }
            } else {
                let step = backedge_listed(iterations, block) && has_prefix(op.id.as_str(), "$mncs$iteration_decrement$");
                OperationFacts::ScalarArithmetic {
                    operator: operator.clone(),
                    operand_type: *operand_type,
                    intent: *intent,
                    counter_step: step,
                    lhs: operand_lookup(ranges, &op.operands, 0),
                    rhs: operand_lookup(ranges, &op.operands, 1),
                }
            }
        },
        BodyOperationKind::VectorArithmetic { intent } => {
            let step = backedge_listed(iterations, block) && has_prefix(op.id.as_str(), "$mncs$iteration_decrement$");
            OperationFacts::VectorArithmetic { intent: *intent, counter_step: step }
        },
        BodyOperationKind::Effect { effect, capability } => OperationFacts::Effect {
            effect: effect.duplicate(),
            capability: capability.clone(),
        },
        BodyOperationKind::HostCall { effect, capability } => OperationFacts::HostCall {
            effect: effect.duplicate(),
            capability: capability.clone(),
        },
        BodyOperationKind::RuntimeCheck { obligation } => OperationFacts::RuntimeCheck { obligation: obligation.duplicate() },
        BodyOperationKind::Call { callee, required_capabilities, effects } => OperationFacts::Call {
            callee: callee.duplicate(),
            required_capabilities: copy_strings(required_capabilities),
            effects: copy_pairs(effects),
        },
    }
}

/// The operations of a function body, in block order, each with its
/// identity, the facts derived from the body, and its machine-intent
/// requirements.
pub fn body_operation_facts(
    namespace: &str,
    name: &str,
    params: &Vec<BodyValue>,
    blocks: &Vec<BodyBlock>,
    iterations: &Vec<IterationDeclaration>,
) -> (r: Vec<BodyOperationFacts>)
    requires
        body_representable(params@, blocks@),
    ensures
        r@.len() == flat_operations(blocks@).len(),
        forall|k: int|
            0 <= k < r@.len() ==> #[trigger] operation_derived(r@[k], namespace@, name@, params@, blocks@, iterations@, k),
{
    let ranges = body_ranges(params, blocks);
    let mut out: Vec<BodyOperationFacts> = Vec::new();
    let mut b: usize = 0;
    while b < blocks.len()
        invariant
            b <= blocks@.len(),
            entry_views(ranges@) == body_ranges_spec(params@, blocks@),
            out@.len() == flat_operations(blocks@.take(b as int)).len(),
            forall|k: int|
                0 <= k < out@.len() ==> #[trigger] operation_derived(out@[k], namespace@, name@, params@, blocks@, iterations@, k),
            forall|k: int|
                0 <= k < out@.len() ==> flat_operations(blocks@.take(b as int))[k] == #[trigger] flat_operations(blocks@)[k],
        decreases blocks@.len() - b,
    {
        let block = &blocks[b];
        let ghost base = out@.len();
        let ghost now = flat_operations(blocks@.take(b + 1));
        proof {
            assert(blocks@.take(b + 1).drop_last() =~= blocks@.take(b as int));
            assert(blocks@.take(b + 1).last() == blocks@[b as int]);
            assert(now == flat_operations(blocks@.take(b as int)) + block.operations@.map_values(
                |op: BodyOperation| (block.id@, op),
            ));
        }
        let mut o: usize = 0;
        while o < block.operations.len()
            invariant
                b < blocks@.len(),
                entry_views(ranges@) == body_ranges_spec(params@, blocks@),
                block == &blocks@[b as int],
                o <= block.operations@.len(),
                base == flat_operations(blocks@.take(b as int)).len(),
                now == flat_operations(blocks@.take(b + 1)),
                now == flat_operations(blocks@.take(b as int)) + block.operations@.map_values(
                    |op: BodyOperation| (block.id@, op),
                ),
                out@.len() == base + o,
                forall|k: int|
                    0 <= k < out@.len() ==> #[trigger] operation_derived(out@[k], namespace@, name@, params@, blocks@, iterations@, k),
                forall|k: int| 0 <= k < out@.len() ==> now[k] == #[trigger] flat_operations(blocks@)[k],
                forall|k: int| 0 <= k < base ==> flat_operations(blocks@.take(b as int))[k] == #[trigger] flat_operations(blocks@)[k],
            decreases block.operations@.len() - o,
        {
            let op = &block.operations[o];
            let facts = derive_facts(blocks, &ranges, iterations, block.id.as_str(), op);
            let record = BodyOperationFacts {
                subject: operation_id(namespace, name, block.id.as_str(), op.id.as_str()),
                facts,
                intent_requirements: copy_ids(op.intent_requirements.as_slice()),
            };
            let ghost before = out@;
            out.push(record);
            proof {
                let k = base + o;
                lemma_flat_prefix(blocks@, b as int + 1, k);
                assert(now[k] == (block.id@, block.operations@[o as int]));
                assert(flat_operations(blocks@)[k] == now[k]);
                assert forall|q: int|
                    0 <= q < out@.len() implies #[trigger] operation_derived(out@[q], namespace@, name@, params@, blocks@, iterations@, q) by {
                    if q < k {
                        assert(out@[q] == before[q]);
                    } else {
                        assert(out@[q] == record);
                    }
                }
                assert forall|q: int| 0 <= q < out@.len() implies now[q] == #[trigger] flat_operations(blocks@)[q] by {
                    if q == k {
                    }
                }
            }
            o = o + 1;
        }
        proof {
            assert forall|k: int|
                0 <= k < out@.len() implies flat_operations(blocks@.take(b + 1))[k] == #[trigger] flat_operations(blocks@)[k] by {
            }
        }
        b = b + 1;
    }
    assert(blocks@.take(b as int) =~= blocks@);
    out
}

/// The flattened operations of a prefix of the blocks are a prefix of the
/// flattened operations of all of them.
proof fn lemma_flat_prefix(blocks: Seq<BodyBlock>, n: int, k: int)
    requires
        0 <= n <= blocks.len(),
        0 <= k < flat_operations(blocks.take(n)).len(),
    ensures
        k < flat_operations(blocks).len(),
        flat_operations(blocks.take(n))[k] == flat_operations(blocks)[k],
    decreases blocks.len() - n,
{
    if n < blocks.len() {
        let next = blocks.take(n + 1);
        assert(next.drop_last() =~= blocks.take(n));
        lemma_flat_prefix(blocks, n + 1, k);
    } else {
        assert(blocks.take(n) =~= blocks);
    }
}

} // verus!
