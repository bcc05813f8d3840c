//! The conservative interval analysis over one function body: every
//! integer- or byte-typed value is mapped to a closed interval that the
//! values it carries at run time stay within.
//!
//! - Parameters carry their declared bounds (a byte is `0 ..= 255`), and
//!   integer literals carry their exact value.
//! - A conversion keeps its source interval when it fits the destination
//!   type, and otherwise widens to the whole destination.
//! - `add`, `sub` and `mul` keep their saturated interval when it fits the
//!   operand type, and otherwise widen to the whole type: execution past a
//!   checked operation means it did not trap.
//! - Any other integer or byte result widens to its whole type.
//! - Block parameters and values defined more than once (loop-carried state,
//!   shadowing) are pinned to their whole declared type before the forward
//!   pass and never narrowed, so no first definition inside a loop can
//!   discharge what later iterations would overflow.
//!
//! The map is an entry list: a later entry for an identity replaces an
//! earlier one.

use vstd::prelude::*;
use vstd::string::*;

use crate::function_body::{value_ids, BodyBlock, BodyOperation, BodyOperationKind, BodyValue, ScalarType};
use crate::machine_intent::IntegerType;
use crate::obligations::{bounds_representable, integer_bounds, interval_of, range_interval, type_high, type_low};
use crate::proof_transport::texts;
use crate::text::text_eq;

verus! {

/// Range entries: identity and interval, a later entry replacing an
/// earlier one for the same identity.
pub open spec fn entry_views(v: Seq<(String, (i128, i128))>) -> Seq<(Seq<char>, (i128, i128))> {
    v.map_values(|e: (String, (i128, i128))| (e.0@, e.1))
}

/// The interval the entries give `id`: its last entry.
pub open spec fn range_of(entries: Seq<(Seq<char>, (i128, i128))>, id: Seq<char>) -> Option<(i128, i128)>
    decreases entries.len(),
{
    if entries.len() == 0 {
        None
    } else if entries.last().0 == id {
        Some(entries.last().1)
    } else {
        range_of(entries.drop_last(), id)
    }
}

/// The interval of the `i`-th operand, when it has one.
pub open spec fn operand_range(entries: Seq<(Seq<char>, (i128, i128))>, operands: Seq<String>, i: int) -> Option<(i128, i128)> {
    if 0 <= i < operands.len() {
        range_of(entries, operands[i]@)
    } else {
        None
    }
}

/// The declared bounds of a scalar type: an integer type's range, or
/// `0 ..= 255` for a byte; none for other types.
pub open spec fn scalar_bounds(ty: ScalarType) -> Option<(i128, i128)> {
    match ty {
        ScalarType::Integer(t) => Some((type_low(t) as i128, type_high(t) as i128)),
        ScalarType::Byte => Some((0i128, 255i128)),
        ScalarType::Other => None,
    }
}

/// The scalar type's bounds fit the analysis's arithmetic.
pub open spec fn scalar_representable(ty: ScalarType) -> bool {
    match ty {
        ScalarType::Integer(t) => bounds_representable(t),
        _ => true,
    }
}

fn bounds_of(ty: ScalarType) -> (r: Option<(i128, i128)>)
    requires
        scalar_representable(ty),
    ensures
        r == scalar_bounds(ty),
{
    match ty {
        ScalarType::Integer(t) => {
            let b = integer_bounds(t);
            Some(b)
        },
        ScalarType::Byte => Some((0, 255)),
        ScalarType::Other => None,
    }
}

/// How often `id` occurs in `ids`.
pub open spec fn count_of(ids: Seq<Seq<char>>, id: Seq<char>) -> nat
    decreases ids.len(),
{
    if ids.len() == 0 {
        0
    } else {
        count_of(ids.drop_last(), id) + if ids.last() == id {
            1nat
        } else {
            0nat
        }
    }
}

/// How often `id` is defined among the results of `ops`.
pub open spec fn def_count_ops(ops: Seq<BodyOperation>, id: Seq<char>) -> nat
    decreases ops.len(),
{
    if ops.len() == 0 {
        0
    } else {
        def_count_ops(ops.drop_last(), id) + count_of(value_ids(ops.last().results@), id)
    }
}

/// How often `id` is defined by an operation result of the body.
pub open spec fn def_count(blocks: Seq<BodyBlock>, id: Seq<char>) -> nat
    decreases blocks.len(),
{
    if blocks.len() == 0 {
        0
    } else {
        def_count(blocks.drop_last(), id) + def_count_ops(blocks.last().operations@, id)
    }
}

// The analysis state: range entries and pinned identities.
/// A block parameter is pinned and carries its declared bounds.
pub open spec fn param_step(st: (Seq<(Seq<char>, (i128, i128))>, Seq<Seq<char>>), v: BodyValue) -> (
    Seq<(Seq<char>, (i128, i128))>,
    Seq<Seq<char>>,
) {
    let pinned = st.1.push(v.id@);
    match scalar_bounds(v.ty) {
        Some(b) => (st.0.push((v.id@, b)), pinned),
        None => (st.0, pinned),
    }
}

pub open spec fn fold_params(st: (Seq<(Seq<char>, (i128, i128))>, Seq<Seq<char>>), vs: Seq<BodyValue>) -> (
    Seq<(Seq<char>, (i128, i128))>,
    Seq<Seq<char>>,
)
    decreases vs.len(),
{
    if vs.len() == 0 {
        st
    } else {
        param_step(fold_params(st, vs.drop_last()), vs.last())
    }
}

pub open spec fn fold_block_params(st: (Seq<(Seq<char>, (i128, i128))>, Seq<Seq<char>>), blocks: Seq<BodyBlock>) -> (
    Seq<(Seq<char>, (i128, i128))>,
    Seq<Seq<char>>,
)
    decreases blocks.len(),
{
    if blocks.len() == 0 {
        st
    } else {
        fold_params(fold_block_params(st, blocks.drop_last()), blocks.last().parameters@)
    }
}

/// A body parameter carries its declared bounds unless it has some already.
pub open spec fn body_param_step(e: Seq<(Seq<char>, (i128, i128))>, v: BodyValue) -> Seq<(Seq<char>, (i128, i128))> {
    match scalar_bounds(v.ty) {
        Some(b) => if range_of(e, v.id@) is Some {
            e
        } else {
            e.push((v.id@, b))
        },
        None => e,
    }
}

pub open spec fn fold_body_params(e: Seq<(Seq<char>, (i128, i128))>, vs: Seq<BodyValue>) -> Seq<(Seq<char>, (i128, i128))>
    decreases vs.len(),
{
    if vs.len() == 0 {
        e
    } else {
        body_param_step(fold_body_params(e, vs.drop_last()), vs.last())
    }
}

/// A result defined more than once and without an interval yet is pinned
/// to its declared bounds.
pub open spec fn pin_step(st: (Seq<(Seq<char>, (i128, i128))>, Seq<Seq<char>>), v: BodyValue, blocks: Seq<BodyBlock>) -> (
    Seq<(Seq<char>, (i128, i128))>,
    Seq<Seq<char>>,
) {
    if def_count(blocks, v.id@) > 1 && range_of(st.0, v.id@) is None {
        (
            match scalar_bounds(v.ty) {
                Some(b) => st.0.push((v.id@, b)),
                None => st.0,
            },
            st.1.push(v.id@),
        )
    } else {
        st
    }
}

pub open spec fn fold_pin_results(
    st: (Seq<(Seq<char>, (i128, i128))>, Seq<Seq<char>>),
    vs: Seq<BodyValue>,
    blocks: Seq<BodyBlock>,
) -> (Seq<(Seq<char>, (i128, i128))>, Seq<Seq<char>>)
    decreases vs.len(),
{
    if vs.len() == 0 {
        st
    } else {
        pin_step(fold_pin_results(st, vs.drop_last(), blocks), vs.last(), blocks)
    }
}

pub open spec fn fold_pin_ops(
    st: (Seq<(Seq<char>, (i128, i128))>, Seq<Seq<char>>),
    ops: Seq<BodyOperation>,
    blocks: Seq<BodyBlock>,
) -> (Seq<(Seq<char>, (i128, i128))>, Seq<Seq<char>>)
    decreases ops.len(),
{
    if ops.len() == 0 {
        st
    } else {
        fold_pin_results(fold_pin_ops(st, ops.drop_last(), blocks), ops.last().results@, blocks)
    }
}

pub open spec fn fold_pin_blocks(
    st: (Seq<(Seq<char>, (i128, i128))>, Seq<Seq<char>>),
    prefix: Seq<BodyBlock>,
    blocks: Seq<BodyBlock>,
) -> (Seq<(Seq<char>, (i128, i128))>, Seq<Seq<char>>)
    decreases prefix.len(),
{
    if prefix.len() == 0 {
        st
    } else {
        fold_pin_ops(fold_pin_blocks(st, prefix.drop_last(), blocks), prefix.last().operations@, blocks)
    }
}

/// Each unpinned result (of a scalar type, unless `any_type`) gets `val`.
pub open spec fn fill_results(
    e: Seq<(Seq<char>, (i128, i128))>,
    pinned: Seq<Seq<char>>,
    vs: Seq<BodyValue>,
    val: (i128, i128),
    any_type: bool,
) -> Seq<(Seq<char>, (i128, i128))>
    decreases vs.len(),
{
    if vs.len() == 0 {
        e
    } else {
        let e0 = fill_results(e, pinned, vs.drop_last(), val, any_type);
        let v = vs.last();
        if !pinned.contains(v.id@) && (any_type || scalar_bounds(v.ty) is Some) {
            e0.push((v.id@, val))
        } else {
            e0
        }
    }
}

/// Each result without an interval yet gets its declared bounds.
pub open spec fn default_results(e: Seq<(Seq<char>, (i128, i128))>, vs: Seq<BodyValue>) -> Seq<(Seq<char>, (i128, i128))>
    decreases vs.len(),
{
    if vs.len() == 0 {
        e
    } else {
        let e0 = default_results(e, vs.drop_last());
        let v = vs.last();
        if range_of(e0, v.id@) is None && scalar_bounds(v.ty) is Some {
            e0.push((v.id@, scalar_bounds(v.ty).unwrap()))
        } else {
            e0
        }
    }
}

/// `add`, `sub` and `mul` are the operators whose intervals are computed.
pub open spec fn interval_operator(operator: Seq<char>) -> bool {
    operator == "add"@ || operator == "sub"@ || operator == "mul"@
}

/// What one operation contributes to the forward pass.
pub open spec fn pass_step(e: Seq<(Seq<char>, (i128, i128))>, pinned: Seq<Seq<char>>, op: BodyOperation) -> Seq<
    (Seq<char>, (i128, i128)),
> {
    match op.kind {
        BodyOperationKind::Constant { value, ty } => if scalar_bounds(ty) is Some {
            fill_results(e, pinned, op.results@, (value, value), true)
        } else {
            e
        },
        BodyOperationKind::Convert { from, to } => match scalar_bounds(to) {
            None => e,
            Some(dest) => {
                let source = match operand_range(e, op.operands@, 0) {
                    Some(r) => r,
                    None => match scalar_bounds(from) {
                        Some(b) => b,
                        None => dest,
                    },
                };
                let val = if source.0 >= dest.0 && source.1 <= dest.1 {
                    source
                } else {
                    dest
                };
                fill_results(e, pinned, op.results@, val, false)
            },
        },
        BodyOperationKind::Integer { operator, operand_type, .. } => if interval_operator(operator@) {
            let dest = (type_low(operand_type) as i128, type_high(operand_type) as i128);
            let val = match interval_of(operator@, operand_range(e, op.operands@, 0), operand_range(e, op.operands@, 1)) {
                Some((lo, hi)) => if lo >= dest.0 && hi <= dest.1 {
                    (lo as i128, hi as i128)
                } else {
                    dest
                },
                None => dest,
            };
            fill_results(e, pinned, op.results@, val, false)
        } else {
            default_results(e, op.results@)
        },
        _ => default_results(e, op.results@),
    }
}

pub open spec fn fold_pass_ops(e: Seq<(Seq<char>, (i128, i128))>, pinned: Seq<Seq<char>>, ops: Seq<BodyOperation>) -> Seq<
    (Seq<char>, (i128, i128)),
>
    decreases ops.len(),
{
    if ops.len() == 0 {
        e
    } else {
        pass_step(fold_pass_ops(e, pinned, ops.drop_last()), pinned, ops.last())
    }
}

pub open spec fn fold_pass_blocks(e: Seq<(Seq<char>, (i128, i128))>, pinned: Seq<Seq<char>>, blocks: Seq<BodyBlock>) -> Seq<
    (Seq<char>, (i128, i128)),
>
    decreases blocks.len(),
{
    if blocks.len() == 0 {
        e
    } else {
        fold_pass_ops(fold_pass_blocks(e, pinned, blocks.drop_last()), pinned, blocks.last().operations@)
    }
}

/// The range entries of a body with parameters `params` and blocks
/// `blocks`: block parameters pinned to their bounds, body parameters given
/// theirs, values defined more than once pinned, then the forward pass.
pub open spec fn body_ranges_spec(params: Seq<BodyValue>, blocks: Seq<BodyBlock>) -> Seq<(Seq<char>, (i128, i128))> {
    let a = fold_block_params((seq![], seq![]), blocks);
    let b = fold_body_params(a.0, params);
    let c = fold_pin_blocks((b, a.1), blocks, blocks);
    fold_pass_blocks(c.0, c.1, blocks)
}

/// Every scalar type the analysis reads has bounds that fit `i128`.
pub open spec fn values_representable(vs: Seq<BodyValue>) -> bool {
    forall|i: int| 0 <= i < vs.len() ==> scalar_representable(#[trigger] vs[i].ty)
}

pub open spec fn operation_representable(op: BodyOperation) -> bool {
    &&& values_representable(op.results@)
    &&& match op.kind {
        BodyOperationKind::Convert { from, to } => scalar_representable(from) && scalar_representable(to),
        BodyOperationKind::Integer { operator, operand_type, .. } => interval_operator(operator@) ==> bounds_representable(
            operand_type,
        ),
        _ => true,
    }
}

pub open spec fn body_representable(params: Seq<BodyValue>, blocks: Seq<BodyBlock>) -> bool {
    &&& values_representable(params)
    &&& forall|b: int| 0 <= b < blocks.len() ==> values_representable(#[trigger] blocks[b].parameters@)
    &&& forall|b: int, o: int|
        0 <= b < blocks.len() && 0 <= o < blocks[b].operations@.len() ==> operation_representable(
            #[trigger] blocks[b].operations@[o],
        )
}

// Executable analysis.
/// The interval the entries give `id`.
pub fn range_lookup(entries: &Vec<(String, (i128, i128))>, id: &str) -> (r: Option<(i128, i128)>)
    ensures
        r == range_of(entry_views(entries@), id@),
{
    let mut i: usize = entries.len();
    assert(entry_views(entries@).take(i as int) =~= entry_views(entries@));
    while i > 0
        invariant
            i <= entries@.len(),
            range_of(entry_views(entries@), id@) == range_of(entry_views(entries@).take(i as int), id@),
        decreases i,
    {
        let ghost t = entry_views(entries@).take(i as int);
        assert(t.drop_last() =~= entry_views(entries@).take(i - 1));
        assert(t.last() == (entries@[i - 1].0@, entries@[i - 1].1));
        if text_eq(entries[i - 1].0.as_str(), id) {
            return Some(entries[i - 1].1);
        }
        i = i - 1;
    }
    None
}

pub(crate) fn operand_lookup(entries: &Vec<(String, (i128, i128))>, operands: &Vec<String>, i: usize) -> (r: Option<(i128, i128)>)
    ensures
        r == operand_range(entry_views(entries@), operands@, i as int),
{
    if i < operands.len() {
        range_lookup(entries, operands[i].as_str())
    } else {
        None
    }
}

fn push_entry(entries: &mut Vec<(String, (i128, i128))>, id: &String, val: (i128, i128))
    ensures
        entry_views(final(entries)@) == entry_views(old(entries)@).push((id@, val)),
{
    entries.push((id.clone(), val));
    assert(entry_views(entries@) =~= entry_views(old(entries)@).push((id@, val)));
}

fn push_pin(pinned: &mut Vec<String>, id: &String)
    ensures
        texts(final(pinned)@) == texts(old(pinned)@).push(id@),
{
    pinned.push(id.clone());
    assert(texts(pinned@) =~= texts(old(pinned)@).push(id@));
}

fn pinned_has(pinned: &Vec<String>, id: &str) -> (r: bool)
    ensures
        r == texts(pinned@).contains(id@),
{
    let mut i: usize = 0;
    while i < pinned.len()
        invariant
            i <= pinned@.len(),
            forall|j: int| 0 <= j < i ==> texts(pinned@)[j] != id@,
        decreases pinned@.len() - i,
    {
        if text_eq(pinned[i].as_str(), id) {
            assert(texts(pinned@)[i as int] == id@);
            return true;
        }
        i = i + 1;
    }
    false
}

fn params_into(entries: &mut Vec<(String, (i128, i128))>, pinned: &mut Vec<String>, vs: &Vec<BodyValue>)
    requires
        values_representable(vs@),
    ensures
        (entry_views(final(entries)@), texts(final(pinned)@)) == fold_params(
            (entry_views(old(entries)@), texts(old(pinned)@)),
            vs@,
        ),
{
    let ghost start = (entry_views(entries@), texts(pinned@));
    let mut i: usize = 0;
    while i < vs.len()
        invariant
            i <= vs@.len(),
            values_representable(vs@),
            (entry_views(entries@), texts(pinned@)) == fold_params(start, vs@.take(i as int)),
        decreases vs@.len() - i,
    {
        let v = &vs[i];
        proof {
            assert(vs@.take(i + 1).drop_last() =~= vs@.take(i as int));
            assert(scalar_representable(vs@[i as int].ty));
        }
        push_pin(pinned, &v.id);
        match bounds_of(v.ty) {
            Some(b) => push_entry(entries, &v.id, b),
            None => {},
        }
        i = i + 1;
    }
    assert(vs@.take(i as int) =~= vs@);
}

fn body_params_into(entries: &mut Vec<(String, (i128, i128))>, vs: &Vec<BodyValue>)
    requires
        values_representable(vs@),
    ensures
        entry_views(final(entries)@) == fold_body_params(entry_views(old(entries)@), vs@),
{
    let ghost start = entry_views(entries@);
    let mut i: usize = 0;
    while i < vs.len()
        invariant
            i <= vs@.len(),
            values_representable(vs@),
            entry_views(entries@) == fold_body_params(start, vs@.take(i as int)),
        decreases vs@.len() - i,
    {
        let v = &vs[i];
        proof {
            assert(vs@.take(i + 1).drop_last() =~= vs@.take(i as int));
            assert(scalar_representable(vs@[i as int].ty));
        }
        match bounds_of(v.ty) {
            Some(b) => {
                if range_lookup(entries, v.id.as_str()).is_none() {
                    push_entry(entries, &v.id, b);
                }
            },
            None => {},
        }
        i = i + 1;
    }
    assert(vs@.take(i as int) =~= vs@);
}

/// Whether `id` is defined by more than one operation result of the body.
fn defined_twice(blocks: &Vec<BodyBlock>, id: &str) -> (r: bool)
    ensures
        r == (def_count(blocks@, id@) > 1),
{
    let mut count: usize = 0;
    let mut b: usize = 0;
    while b < blocks.len()
        invariant
            b <= blocks@.len(),
            count == (if def_count(blocks@.take(b as int), id@) > 2 { 2 } else { def_count(blocks@.take(b as int), id@) }),
        decreases blocks@.len() - b,
    {
        let ops = &blocks[b].operations;
        let ghost before = def_count(blocks@.take(b as int), id@);
        proof {
            assert(blocks@.take(b + 1).drop_last() =~= blocks@.take(b as int));
        }
        let mut o: usize = 0;
        while o < ops.len()
            invariant
                o <= ops@.len(),
                count == (if before + def_count_ops(ops@.take(o as int), id@) > 2 { 2 } else { before + def_count_ops(
                    ops@.take(o as int),
                    id@,
                ) }),
            decreases ops@.len() - o,
        {
            let results = &ops[o].results;
            let ghost ids = value_ids(results@);
            proof {
                assert(ops@.take(o + 1).drop_last() =~= ops@.take(o as int));
            }
            let mut r: usize = 0;
            let ghost base = before + def_count_ops(ops@.take(o as int), id@);
            while r < results.len()
                invariant
                    r <= results@.len(),
                    ids == value_ids(results@),
                    count == (if base + count_of(ids.take(r as int), id@) > 2 { 2 } else { base + count_of(
                        ids.take(r as int),
                        id@,
                    ) }),
                decreases results@.len() - r,
            {
                proof {
                    let t = ids.take(r + 1);
                    assert(t.drop_last() =~= ids.take(r as int));
                    assert(t.last() == results@[r as int].id@);
                }
                if text_eq(results[r].id.as_str(), id) && count < 2 {
                    count = count + 1;
                }
                r = r + 1;
            }
            assert(ids.take(r as int) =~= ids);
            o = o + 1;
        }
        assert(ops@.take(o as int) =~= ops@);
        b = b + 1;
    }
    assert(blocks@.take(b as int) =~= blocks@);
    count > 1
}

fn pin_results_into(
    entries: &mut Vec<(String, (i128, i128))>,
    pinned: &mut Vec<String>,
    vs: &Vec<BodyValue>,
    blocks: &Vec<BodyBlock>,
)
    requires
        values_representable(vs@),
    ensures
        (entry_views(final(entries)@), texts(final(pinned)@)) == fold_pin_results(
            (entry_views(old(entries)@), texts(old(pinned)@)),
            vs@,
            blocks@,
        ),
{
    let ghost start = (entry_views(entries@), texts(pinned@));
    let mut i: usize = 0;
    while i < vs.len()
        invariant
            i <= vs@.len(),
            values_representable(vs@),
            (entry_views(entries@), texts(pinned@)) == fold_pin_results(start, vs@.take(i as int), blocks@),
        decreases vs@.len() - i,
    {
        let v = &vs[i];
        proof {
            assert(vs@.take(i + 1).drop_last() =~= vs@.take(i as int));
            assert(scalar_representable(vs@[i as int].ty));
        }
        if defined_twice(blocks, v.id.as_str()) && range_lookup(entries, v.id.as_str()).is_none() {
            match bounds_of(v.ty) {
                Some(b) => push_entry(entries, &v.id, b),
                None => {},
            }
            push_pin(pinned, &v.id);
        }
        i = i + 1;
    }
    assert(vs@.take(i as int) =~= vs@);
}

fn pin_blocks_into(entries: &mut Vec<(String, (i128, i128))>, pinned: &mut Vec<String>, blocks: &Vec<BodyBlock>)
    requires
        forall|b: int, o: int|
            0 <= b < blocks@.len() && 0 <= o < blocks@[b].operations@.len() ==> operation_representable(
                #[trigger] blocks@[b].operations@[o],
            ),
    ensures
        (entry_views(final(entries)@), texts(final(pinned)@)) == fold_pin_blocks(
            (entry_views(old(entries)@), texts(old(pinned)@)),
            blocks@,
            blocks@,
        ),
{
    let ghost start = (entry_views(entries@), texts(pinned@));
    let mut b: usize = 0;
    while b < blocks.len()
        invariant
            b <= blocks@.len(),
            forall|b: int, o: int|
                0 <= b < blocks@.len() && 0 <= o < blocks@[b].operations@.len() ==> operation_representable(
                    #[trigger] blocks@[b].operations@[o],
                ),
            (entry_views(entries@), texts(pinned@)) == fold_pin_blocks(start, blocks@.take(b as int), blocks@),
        decreases blocks@.len() - b,
    {
        let ops = &blocks[b].operations;
        let ghost mid = fold_pin_blocks(start, blocks@.take(b as int), blocks@);
        proof {
            assert(blocks@.take(b + 1).drop_last() =~= blocks@.take(b as int));
        }
        let mut o: usize = 0;
        while o < ops.len()
            invariant
                b < blocks@.len(),
                ops == &blocks@[b as int].operations,
                forall|b: int, o: int|
                    0 <= b < blocks@.len() && 0 <= o < blocks@[b].operations@.len() ==> operation_representable(
                        #[trigger] blocks@[b].operations@[o],
                    ),
                o <= ops@.len(),
                (entry_views(entries@), texts(pinned@)) == fold_pin_ops(mid, ops@.take(o as int), blocks@),
            decreases ops@.len() - o,
        {
            proof {
                assert(ops@.take(o + 1).drop_last() =~= ops@.take(o as int));
                assert(operation_representable(blocks@[b as int].operations@[o as int]));
            }
            pin_results_into(entries, pinned, &ops[o].results, blocks);
            o = o + 1;
        }
        assert(ops@.take(o as int) =~= ops@);
        b = b + 1;
    }
    assert(blocks@.take(b as int) =~= blocks@);
}

fn fill_results_into(
    entries: &mut Vec<(String, (i128, i128))>,
    pinned: &Vec<String>,
    vs: &Vec<BodyValue>,
    val: (i128, i128),
    any_type: bool,
)
    ensures
        entry_views(final(entries)@) == fill_results(entry_views(old(entries)@), texts(pinned@), vs@, val, any_type),
{
    let ghost start = entry_views(entries@);
    let mut i: usize = 0;
    while i < vs.len()
        invariant
            i <= vs@.len(),
            entry_views(entries@) == fill_results(start, texts(pinned@), vs@.take(i as int), val, any_type),
        decreases vs@.len() - i,
    {
        let v = &vs[i];
        proof {
            assert(vs@.take(i + 1).drop_last() =~= vs@.take(i as int));
        }
        let scalar = match v.ty {
            ScalarType::Other => false,
            _ => true,
        };
        if !pinned_has(pinned, v.id.as_str()) && (any_type || scalar) {
            push_entry(entries, &v.id, val);
        }
        i = i + 1;
    }
    assert(vs@.take(i as int) =~= vs@);
}

fn default_results_into(entries: &mut Vec<(String, (i128, i128))>, vs: &Vec<BodyValue>)
    requires
        values_representable(vs@),
    ensures
        entry_views(final(entries)@) == default_results(entry_views(old(entries)@), vs@),
{
    let ghost start = entry_views(entries@);
    let mut i: usize = 0;
    while i < vs.len()
        invariant
            i <= vs@.len(),
            values_representable(vs@),
            entry_views(entries@) == default_results(start, vs@.take(i as int)),
        decreases vs@.len() - i,
    {
        let v = &vs[i];
        proof {
            assert(vs@.take(i + 1).drop_last() =~= vs@.take(i as int));
            assert(scalar_representable(vs@[i as int].ty));
        }
        if range_lookup(entries, v.id.as_str()).is_none() {
            match bounds_of(v.ty) {
                Some(b) => push_entry(entries, &v.id, b),
                None => {},
            }
        }
        i = i + 1;
    }
    assert(vs@.take(i as int) =~= vs@);
}

fn pass_into(entries: &mut Vec<(String, (i128, i128))>, pinned: &Vec<String>, op: &BodyOperation)
    requires
        operation_representable(*op),
    ensures
        entry_views(final(entries)@) == pass_step(entry_views(old(entries)@), texts(pinned@), *op),
{
    match &op.kind {
        BodyOperationKind::Constant { value, ty } => {
            let scalar = match ty {
                ScalarType::Other => false,
                _ => true,
            };
            if scalar {
                fill_results_into(entries, pinned, &op.results, (*value, *value), true);
            }
        },
        BodyOperationKind::Convert { from, to } => {
            match bounds_of(*to) {
                None => {},
                Some(dest) => {
                    let source = match operand_lookup(entries, &op.operands, 0) {
                        Some(r) => r,
                        None => match bounds_of(*from) {
                            Some(b) => b,
                            None => dest,
                        },
                    };
                    let val = if source.0 >= dest.0 && source.1 <= dest.1 {
                        source
                    } else {
                        dest
                    };
                    fill_results_into(entries, pinned, &op.results, val, false);
                },
            }
        },
        BodyOperationKind::Integer { operator, operand_type, .. } => {
            if text_eq(operator.as_str(), "add") || text_eq(operator.as_str(), "sub") || text_eq(operator.as_str(), "mul") {
                let dest = integer_bounds(*operand_type);
                let lhs = operand_lookup(entries, &op.operands, 0);
                let rhs = operand_lookup(entries, &op.operands, 1);
                let val = match range_interval(operator.as_str(), lhs, rhs) {
                    Some((lo, hi)) => if lo >= dest.0 && hi <= dest.1 {
                        (lo, hi)
                    } else {
                        dest
                    },
                    None => dest,
                };
                fill_results_into(entries, pinned, &op.results, val, false);
            } else {
                default_results_into(entries, &op.results);
            }
        },
        _ => default_results_into(entries, &op.results),
    }
}

fn pass_blocks_into(entries: &mut Vec<(String, (i128, i128))>, pinned: &Vec<String>, blocks: &Vec<BodyBlock>)
    requires
        forall|b: int, o: int|
            0 <= b < blocks@.len() && 0 <= o < blocks@[b].operations@.len() ==> operation_representable(
                #[trigger] blocks@[b].operations@[o],
            ),
    ensures
        entry_views(final(entries)@) == fold_pass_blocks(entry_views(old(entries)@), texts(pinned@), blocks@),
{
    let ghost start = entry_views(entries@);
    let mut b: usize = 0;
    while b < blocks.len()
        invariant
            b <= blocks@.len(),
            forall|b: int, o: int|
                0 <= b < blocks@.len() && 0 <= o < blocks@[b].operations@.len() ==> operation_representable(
                    #[trigger] blocks@[b].operations@[o],
                ),
            entry_views(entries@) == fold_pass_blocks(start, texts(pinned@), blocks@.take(b as int)),
        decreases blocks@.len() - b,
    {
        let ops = &blocks[b].operations;
        let ghost mid = fold_pass_blocks(start, texts(pinned@), blocks@.take(b as int));
        proof {
            assert(blocks@.take(b + 1).drop_last() =~= blocks@.take(b as int));
        }
        let mut o: usize = 0;
        while o < ops.len()
            invariant
                b < blocks@.len(),
                ops == &blocks@[b as int].operations,
                forall|b: int, o: int|
                    0 <= b < blocks@.len() && 0 <= o < blocks@[b].operations@.len() ==> operation_representable(
                        #[trigger] blocks@[b].operations@[o],
                    ),
                o <= ops@.len(),
                entry_views(entries@) == fold_pass_ops(mid, texts(pinned@), ops@.take(o as int)),
            decreases ops@.len() - o,
        {
            proof {
                assert(ops@.take(o + 1).drop_last() =~= ops@.take(o as int));
                assert(operation_representable(blocks@[b as int].operations@[o as int]));
            }
            pass_into(entries, pinned, &ops[o]);
            o = o + 1;
        }
        assert(ops@.take(o as int) =~= ops@);
        b = b + 1;
    }
    assert(blocks@.take(b as int) =~= blocks@);
}

/// The range entries of a body (see `body_ranges_spec`): the interval of
/// each integer- or byte-typed value is its last entry.
pub fn body_ranges(params: &Vec<BodyValue>, blocks: &Vec<BodyBlock>) -> (r: Vec<(String, (i128, i128))>)
    requires
        body_representable(params@, blocks@),
    ensures
        entry_views(r@) == body_ranges_spec(params@, blocks@),
{
    let mut entries: Vec<(String, (i128, i128))> = Vec::new();
    let mut pinned: Vec<String> = Vec::new();
    assert(entry_views(entries@) =~= Seq::<(Seq<char>, (i128, i128))>::empty());
    assert(texts(pinned@) =~= Seq::<Seq<char>>::empty());
    let ghost init = (entry_views(entries@), texts(pinned@));
    let mut b: usize = 0;
    while b < blocks.len()
        invariant
            b <= blocks@.len(),
            body_representable(params@, blocks@),
            (entry_views(entries@), texts(pinned@)) == fold_block_params(init, blocks@.take(b as int)),
        decreases blocks@.len() - b,
    {
        proof {
            assert(blocks@.take(b + 1).drop_last() =~= blocks@.take(b as int));
            assert(values_representable(blocks@[b as int].parameters@));
        }
        params_into(&mut entries, &mut pinned, &blocks[b].parameters);
        b = b + 1;
    }
    assert(blocks@.take(b as int) =~= blocks@);
    body_params_into(&mut entries, params);
    pin_blocks_into(&mut entries, &mut pinned, blocks);
    pass_blocks_into(&mut entries, &pinned, blocks);
    entries
}

} // verus!
