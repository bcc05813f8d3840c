//! The shared differential corpora, read from their JSON documents: each
//! case's proof buffer, indices and expectation, for the proof kernel and
//! for the dependent kernel.

use vstd::prelude::*;
use vstd::string::*;

use crate::json::{
    array_of, bool_of, deref, get_in, i64_of, item_at, json_array, json_bool, json_get, json_i64, json_item,
    json_text, json_u64, text_of, u64_of, JsonValue,
};
use crate::proof_dep::artifact::{DepCorpusCase, DepEntry};
use crate::proof_dep::check::{DepAssumptionSet, DepAssumptionUse};
use crate::proof_dep::terms::{tag_named, DepCell, DepTag, PROOF_DEP_BUFFER_CAPACITY};
use crate::proof_kernel::artifact::{
    proof_tag_named, ProofCell, ProofCorpusCase, ProofTag, ProofVerdict, PROOF_BUFFER_CAPACITY,
};
use crate::text::{push_char, text_eq};

verus! {

/// `{"integer": {"value": n}}`.
pub open spec fn corpus_integer(v: Option<JsonValue>) -> Option<i64> {
    i64_of(get_in(get_in(v, "integer"@), "value"@))
}

/// `{"byte": {"value": n}}`, when `n` fits a `usize`.
pub open spec fn corpus_byte(v: Option<JsonValue>) -> Option<usize> {
    match u64_of(get_in(get_in(v, "byte"@), "value"@)) {
        Some(b) => if b <= usize::MAX {
            Some(b as usize)
        } else {
            None
        },
        None => None,
    }
}

/// What follows the last `::` among the first `end` characters of `s`
/// (all of `s` when there is none).
pub open spec fn tail_segment(s: Seq<char>, end: int) -> Seq<char>
    decreases end,
{
    if end < 2 {
        s
    } else if s[end - 2] == ':' && s[end - 1] == ':' {
        s.skip(end)
    } else {
        tail_segment(s, end - 1)
    }
}

/// The argument slot a field name sets, or -1.
pub open spec fn arg_slot(name: Seq<char>) -> int {
    if name == "arg0"@ {
        0
    } else if name == "arg1"@ {
        1
    } else if name == "arg2"@ {
        2
    } else if name == "arg3"@ {
        3
    } else {
        -1
    }
}

/// One `[name, value]` field of a cell record applied to (tag name, args).
pub open spec fn cell_field(field: JsonValue, state: (Option<Seq<char>>, Seq<i64>)) -> Option<(Option<Seq<char>>, Seq<i64>)> {
    match array_of(Some(field)) {
        None => None,
        Some(pair) => match text_of(item_at(pair, 0)) {
            None => None,
            Some(name) => if pair.len() < 2 {
                None
            } else if arg_slot(name) >= 0 {
                match corpus_integer(Some(pair[1])) {
                    Some(x) => Some((state.0, state.1.update(arg_slot(name), x))),
                    None => None,
                }
            } else if name == "tag"@ {
                match text_of(get_in(get_in(Some(pair[1]), "finite"@), "variant_identity"@)) {
                    Some(t) => Some((Some(tail_segment(t, t.len() as int)), state.1)),
                    None => None,
                }
            } else {
                None
            },
        },
    }
}

/// The first `n` fields of a cell record, from no tag and zero arguments.
pub open spec fn cell_fields(fields: Seq<JsonValue>, n: nat) -> Option<(Option<Seq<char>>, Seq<i64>)>
    decreases n,
{
    if n == 0 {
        Some((None, seq![0i64, 0i64, 0i64, 0i64]))
    } else {
        match cell_fields(fields, (n - 1) as nat) {
            None => None,
            Some(state) => cell_field(fields[n - 1], state),
        }
    }
}

/// A cell value's tag name (the last tag field's short name) and arguments.
pub open spec fn cell_parts(v: Option<JsonValue>) -> Option<(Option<Seq<char>>, Seq<i64>)> {
    match array_of(get_in(get_in(v, "record"@), "fields"@)) {
        None => None,
        Some(fields) => cell_fields(fields, fields.len()),
    }
}

pub open spec fn name_view(n: Option<String>) -> Option<Seq<char>> {
    match n {
        Some(s) => Some(s@),
        None => None,
    }
}

fn read_integer(v: Option<&JsonValue>) -> (r: Option<i64>)
    ensures
        r == corpus_integer(deref(v)),
{
    json_i64(json_get(json_get(v, "integer"), "value"))
}

fn read_byte(v: Option<&JsonValue>) -> (r: Option<usize>)
    ensures
        r == corpus_byte(deref(v)),
{
    match json_u64(json_get(json_get(v, "byte"), "value")) {
        Some(b) => if b as u128 <= usize::MAX as u128 {
            Some(b as usize)
        } else {
            None
        },
        None => None,
    }
}

fn short_name(s: &str) -> (r: String)
    ensures
        r@ == tail_segment(s@, s@.len() as int),
{
    let n = s.unicode_len();
    let mut end: usize = n;
    while end >= 2 && !(s.get_char(end - 2) == ':' && s.get_char(end - 1) == ':')
        invariant
            n == s@.len(),
            end <= n,
            tail_segment(s@, n as int) == tail_segment(s@, end as int),
        decreases end,
    {
        end = end - 1;
    }
    let start: usize = if end < 2 { 0 } else { end };
    let mut out = String::new();
    let mut i: usize = start;
    while i < n
        invariant
            start <= i <= n,
            n == s@.len(),
            out@ == s@.subrange(start as int, i as int),
        decreases n - i,
    {
        push_char(&mut out, s.get_char(i));
        assert(s@.subrange(start as int, i as int + 1) =~= s@.subrange(start as int, i as int).push(s@[i as int]));
        i = i + 1;
    }
    assert(s@.skip(start as int) =~= s@.subrange(start as int, n as int));
    assert(s@.skip(0) =~= s@);
    out
}

/// Apply one field of a cell record; `false` when the field is malformed.
fn read_cell_field(
    field: Option<&JsonValue>,
    name: &mut Option<String>,
    a0: &mut i64,
    a1: &mut i64,
    a2: &mut i64,
    a3: &mut i64,
) -> (ok: bool)
    requires
        field is Some,
    ensures
        ok ==> cell_field(deref(field).unwrap(), (name_view(*old(name)), seq![*old(a0), *old(a1), *old(a2), *old(a3)]))
            == Some((name_view(*final(name)), seq![*final(a0), *final(a1), *final(a2), *final(a3)])),
        !ok ==> cell_field(deref(field).unwrap(), (name_view(*old(name)), seq![*old(a0), *old(a1), *old(a2), *old(a3)]))
            is None,
{
    let ghost state = (name_view(*name), seq![*a0, *a1, *a2, *a3]);
    let pair = match json_array(field) {
        Some(pair) => pair,
        None => return false,
    };
    let label = match json_text(json_item(pair, 0)) {
        Some(label) => label,
        None => return false,
    };
    if pair.len() < 2 {
        return false;
    }
    let item = json_item(pair, 1);
    if text_eq(label.as_str(), "arg0") || text_eq(label.as_str(), "arg1") || text_eq(label.as_str(), "arg2")
        || text_eq(label.as_str(), "arg3") {
        let x = match read_integer(item) {
            Some(x) => x,
            None => return false,
        };
        if text_eq(label.as_str(), "arg0") {
            *a0 = x;
        } else if text_eq(label.as_str(), "arg1") {
            *a1 = x;
        } else if text_eq(label.as_str(), "arg2") {
            *a2 = x;
        } else {
            *a3 = x;
        }
        assert(state.1.update(arg_slot(label@), x) =~= seq![*a0, *a1, *a2, *a3]);
        true
    } else if text_eq(label.as_str(), "tag") {
        let variant = match json_text(json_get(json_get(item, "finite"), "variant_identity")) {
            Some(variant) => variant,
            None => return false,
        };
        *name = Some(short_name(variant.as_str()));
        true
    } else {
        false
    }
}

proof fn lemma_cell_fields_stay_none(fields: Seq<JsonValue>, n: nat, m: nat)
    requires
        n <= m,
        cell_fields(fields, n) is None,
    ensures
        cell_fields(fields, m) is None,
    decreases m - n,
{
    if n < m {
        lemma_cell_fields_stay_none(fields, n, (m - 1) as nat);
    }
}

fn read_cell_parts(v: Option<&JsonValue>) -> (r: Option<(Option<String>, [i64; 4])>)
    ensures
        match r {
            Some((name, args)) => cell_parts(deref(v)) == Some(
                (
                    name_view(name),
                    args@,
                ),
            ),
            None => cell_parts(deref(v)) is None,
        },
{
    let fields = match json_array(json_get(json_get(v, "record"), "fields")) {
        Some(fields) => fields,
        None => return None,
    };
    let mut name: Option<String> = None;
    let mut a0: i64 = 0;
    let mut a1: i64 = 0;
    let mut a2: i64 = 0;
    let mut a3: i64 = 0;
    let mut i: usize = 0;
    while i < fields.len()
        invariant
            i <= fields@.len(),
            cell_parts(deref(v)) == cell_fields(fields@, fields@.len()),
            cell_fields(fields@, i as nat) == Some(
                (
                    name_view(name),
                    seq![a0, a1, a2, a3],
                ),
            ),
        decreases fields@.len() - i,
    {
        let ghost state = (name_view(name), seq![a0, a1, a2, a3]);
        let ok = read_cell_field(json_item(fields, i), &mut name, &mut a0, &mut a1, &mut a2, &mut a3);
        if !ok {
            proof {
                lemma_cell_fields_stay_none(fields@, (i + 1) as nat, fields@.len());
            }
            return None;
        }
        i = i + 1;
    }
    Some((name, [a0, a1, a2, a3]))
}

/// A proof corpus case as (id, cells as (tag, arguments), count, proof,
/// proposition, expected verdict).
pub type ProofCaseView = (Seq<char>, Seq<(ProofTag, Seq<i64>)>, usize, usize, usize, Option<ProofVerdict>);

/// The first item of an array, when there is one.
pub open spec fn first_of(items: Option<Seq<JsonValue>>) -> Option<JsonValue> {
    match items {
        Some(a) => item_at(a, 0),
        None => None,
    }
}

/// A case's id: its `id`, or its `case_id` when it has no `id`.
pub open spec fn case_id_of(case: JsonValue) -> Option<Seq<char>> {
    text_of(
        if get_in(Some(case), "id"@) is Some {
            get_in(Some(case), "id"@)
        } else {
            get_in(Some(case), "case_id"@)
        },
    )
}

/// The arguments of a case's request.
pub open spec fn case_arguments(case: JsonValue) -> Option<Seq<JsonValue>> {
    array_of(get_in(get_in(Some(case), "request"@), "arguments"@))
}

/// The cell values of the buffer argument.
pub open spec fn buffer_values(arguments: Seq<JsonValue>) -> Option<Seq<JsonValue>> {
    array_of(get_in(get_in(item_at(arguments, 0), "sequence"@), "values"@))
}

pub open spec fn verdict_coded(code: i64) -> Option<ProofVerdict> {
    if code == 0 {
        Some(ProofVerdict::Pass)
    } else if code == 1 {
        Some(ProofVerdict::Fail)
    } else if code == 2 {
        Some(ProofVerdict::Unknown)
    } else {
        None
    }
}

/// The first `n` cell values as proof cells (tag, arguments).
pub open spec fn proof_cells(values: Seq<JsonValue>, n: nat) -> Option<Seq<(ProofTag, Seq<i64>)>>
    decreases n,
{
    if n == 0 {
        Some(seq![])
    } else {
        match proof_cells(values, (n - 1) as nat) {
            None => None,
            Some(prev) => match cell_parts(Some(values[n - 1])) {
                Some((Some(name), args)) => match proof_tag_named(name) {
                    Some(tag) => Some(prev.push((tag, args))),
                    None => None,
                },
                _ => None,
            },
        }
    }
}

/// A proof corpus case as (id, cells, count, proof, proposition, expected).
pub open spec fn proof_case_view(c: ProofCorpusCase) -> ProofCaseView {
    (c.id@, c.cells@.map_values(|x: ProofCell| (x.tag, x.args@)), c.count, c.proof, c.proposition, c.expected)
}

/// One case of the proof-kernel corpus, or the first thing wrong with it.
pub open spec fn proof_case(case: JsonValue) -> Result<ProofCaseView, Seq<char>> {
    match case_id_of(case) {
        None => Err("case has no id"@),
        Some(id) => match case_arguments(case) {
            None => Err(id + ": no request arguments"@),
            Some(args) => match buffer_values(args) {
                None => Err(id + ": no sequence values"@),
                Some(values) => if values.len() != PROOF_BUFFER_CAPACITY {
                    Err(id + ": buffer is not "@ + crate::text::decimal(PROOF_BUFFER_CAPACITY as nat) + " cells"@)
                } else {
                    match proof_cells(values, values.len()) {
                        None => Err(id + ": bad cell"@),
                        Some(cells) => match corpus_byte(item_at(args, 1)) {
                            None => Err(id + ": bad count"@),
                            Some(count) => match corpus_byte(item_at(args, 2)) {
                                None => Err(id + ": bad proof"@),
                                Some(proof_index) => match corpus_byte(item_at(args, 3)) {
                                    None => Err(id + ": bad prop"@),
                                    Some(proposition) => Ok(
                                        (
                                            id,
                                            cells,
                                            count,
                                            proof_index,
                                            proposition,
                                            match corpus_integer(first_of(array_of(get_in(Some(case), "expected"@)))) {
                                                Some(code) => verdict_coded(code),
                                                None => None,
                                            },
                                        ),
                                    ),
                                },
                            },
                        },
                    }
                },
            },
        },
    }
}

/// The first `n` cases, or the first error among them.
pub open spec fn proof_cases(cases: Seq<JsonValue>, n: nat) -> Result<Seq<ProofCaseView>, Seq<char>>
    decreases n,
{
    if n == 0 {
        Ok(seq![])
    } else {
        match proof_cases(cases, (n - 1) as nat) {
            Err(e) => Err(e),
            Ok(prev) => match proof_case(cases[n - 1]) {
                Err(e) => Err(e),
                Ok(c) => Ok(prev.push(c)),
            },
        }
    }
}

/// The proof-kernel corpus a document holds.
pub open spec fn proof_corpus(document: JsonValue) -> Result<Seq<ProofCaseView>, Seq<char>> {
    match array_of(get_in(Some(document), "cases"@)) {
        None => Err("corpus has no cases array"@),
        Some(cases) => proof_cases(cases, cases.len()),
    }
}

fn read_case_id(case: &JsonValue) -> (r: Option<String>)
    ensures
        name_view(r) == case_id_of(*case),
{
    let found = match json_get(Some(case), "id") {
        Some(id) => Some(id),
        None => json_get(Some(case), "case_id"),
    };
    match json_text(found) {
        Some(text) => Some(text.clone()),
        None => None,
    }
}

fn suffixed(id: &String, suffix: &str) -> (r: String)
    ensures
        r@ == id@ + suffix@,
{
    id.clone().concat(suffix)
}

fn read_proof_cells(values: &Vec<JsonValue>) -> (r: Option<Vec<ProofCell>>)
    ensures
        match r {
            Some(cells) => proof_cells(values@, values@.len()) == Some(cells@.map_values(|x: ProofCell| (x.tag, x.args@))),
            None => proof_cells(values@, values@.len()) is None,
        },
{
    let mut cells: Vec<ProofCell> = Vec::new();
    let mut i: usize = 0;
    while i < values.len()
        invariant
            i <= values@.len(),
            proof_cells(values@, i as nat) == Some(cells@.map_values(|x: ProofCell| (x.tag, x.args@))),
        decreases values@.len() - i,
    {
        let parts = read_cell_parts(json_item(values, i));
        let cell = match parts {
            Some((Some(name), args)) => match ProofTag::from_name(name.as_str()) {
                Some(tag) => Some(ProofCell::new(tag, args)),
                None => None,
            },
            _ => None,
        };
        match cell {
            Some(cell) => {
                let ghost before = cells@;
                cells.push(cell);
                assert(cells@.map_values(|x: ProofCell| (x.tag, x.args@)) =~= before.map_values(
                    |x: ProofCell| (x.tag, x.args@),
                ).push((cell.tag, cell.args@)));
            },
            None => {
                proof {
                    lemma_proof_cells_stay_none(values@, (i + 1) as nat, values@.len());
                }
                return None;
            },
        }
        i = i + 1;
    }
    Some(cells)
}

proof fn lemma_proof_cells_stay_none(values: Seq<JsonValue>, n: nat, m: nat)
    requires
        n <= m,
        proof_cells(values, n) is None,
    ensures
        proof_cells(values, m) is None,
    decreases m - n,
{
    if n < m {
        lemma_proof_cells_stay_none(values, n, (m - 1) as nat);
    }
}

fn read_proof_case(case: &JsonValue) -> (r: Result<ProofCorpusCase, String>)
    ensures
        match r {
            Ok(c) => proof_case(*case) is Ok && proof_case(*case)->Ok_0 == proof_case_view(c),
            Err(e) => proof_case(*case) is Err && proof_case(*case)->Err_0 == e@,
        },
{
    let id = match read_case_id(case) {
        Some(id) => id,
        None => return Err(String::from_str("case has no id")),
    };
    let args = match json_array(json_get(json_get(Some(case), "request"), "arguments")) {
        Some(args) => args,
        None => return Err(suffixed(&id, ": no request arguments")),
    };
    let values = match json_array(json_get(json_get(json_item(args, 0), "sequence"), "values")) {
        Some(values) => values,
        None => return Err(suffixed(&id, ": no sequence values")),
    };
    if values.len() != PROOF_BUFFER_CAPACITY {
        let mut message = suffixed(&id, ": buffer is not ");
        crate::text::push_decimal(&mut message, PROOF_BUFFER_CAPACITY as u64);
        message.append(" cells");
        return Err(message);
    }
    let cells = match read_proof_cells(values) {
        Some(cells) => cells,
        None => return Err(suffixed(&id, ": bad cell")),
    };
    let count = match read_byte(json_item(args, 1)) {
        Some(count) => count,
        None => return Err(suffixed(&id, ": bad count")),
    };
    let proof_index = match read_byte(json_item(args, 2)) {
        Some(index) => index,
        None => return Err(suffixed(&id, ": bad proof")),
    };
    let proposition = match read_byte(json_item(args, 3)) {
        Some(index) => index,
        None => return Err(suffixed(&id, ": bad prop")),
    };
    let first = match json_array(json_get(Some(case), "expected")) {
        Some(items) => json_item(items, 0),
        None => None,
    };
    let expected = match read_integer(first) {
        Some(0) => Some(ProofVerdict::Pass),
        Some(1) => Some(ProofVerdict::Fail),
        Some(2) => Some(ProofVerdict::Unknown),
        _ => None,
    };
    let c = ProofCorpusCase { id, cells, count, proof: proof_index, proposition, expected };
    assert(proof_case_view(c).1 == c.cells@.map_values(|x: ProofCell| (x.tag, x.args@)));
    Ok(c)
}

/// The cases of a proof-kernel corpus document, in order, or the first
/// error: a missing cases array, or the first malformed case.
pub fn proof_corpus_cases(document: &JsonValue) -> (r: Result<Vec<ProofCorpusCase>, String>)
    ensures
        match r {
            Ok(cases) => proof_corpus(*document) is Ok && proof_corpus(*document)->Ok_0 == cases@.map_values(
                |c: ProofCorpusCase| proof_case_view(c),
            ),
            Err(e) => proof_corpus(*document) is Err && proof_corpus(*document)->Err_0 == e@,
        },
{
    let cases = match json_array(json_get(Some(document), "cases")) {
        Some(cases) => cases,
        None => return Err(String::from_str("corpus has no cases array")),
    };
    let mut parsed: Vec<ProofCorpusCase> = Vec::new();
    let mut i: usize = 0;
    while i < cases.len()
        invariant
            i <= cases@.len(),
            proof_corpus(*document) == proof_cases(cases@, cases@.len()),
            proof_cases(cases@, i as nat) is Ok,
            proof_cases(cases@, i as nat)->Ok_0 == parsed@.map_values(|c: ProofCorpusCase| proof_case_view(c)),
        decreases cases@.len() - i,
    {
        match read_proof_case(&cases[i]) {
            Ok(c) => {
                let ghost before = parsed@;
                parsed.push(c);
                assert(parsed@.map_values(|c: ProofCorpusCase| proof_case_view(c)) =~= before.map_values(
                    |c: ProofCorpusCase| proof_case_view(c),
                ).push(proof_case_view(c)));
            },
            Err(e) => {
                proof {
                    lemma_proof_cases_stay_err(cases@, (i + 1) as nat, cases@.len(), e@);
                }
                return Err(e);
            },
        }
        i = i + 1;
    }
    Ok(parsed)
}

proof fn lemma_proof_cases_stay_err(cases: Seq<JsonValue>, n: nat, m: nat, e: Seq<char>)
    requires
        n <= m,
        proof_cases(cases, n) is Err,
        proof_cases(cases, n)->Err_0 == e,
    ensures
        proof_cases(cases, m) is Err,
        proof_cases(cases, m)->Err_0 == e,
    decreases m - n,
{
    if n < m {
        lemma_proof_cases_stay_err(cases, n, (m - 1) as nat, e);
    }
}

/// A dependent corpus case as (id, entry, cells as (tag, arguments), count,
/// first, second, expected code, expected set as (uses, validity)).
pub type DepCaseView = (
    Seq<char>,
    DepEntry,
    Seq<(DepTag, Seq<i64>)>,
    usize,
    usize,
    usize,
    i64,
    Option<(Seq<(i64, i64, i64)>, bool)>,
);

pub open spec fn set_view(s: DepAssumptionSet) -> (Seq<(i64, i64, i64)>, bool) {
    (s.uses@.map_values(|u: DepAssumptionUse| (u.hyp, u.level, u.carrier)), s.valid)
}

pub open spec fn dep_case_view(c: DepCorpusCase) -> DepCaseView {
    (
        c.id@,
        c.entry,
        c.cells@.map_values(|x: DepCell| (x.tag, x.args@)),
        c.count,
        c.first,
        c.second,
        c.expected,
        match c.expected_set {
            Some(set) => Some(set_view(set)),
            None => None,
        },
    )
}

/// The entry a request's target function names.
pub open spec fn entry_named(function: Seq<char>) -> Option<DepEntry> {
    if function == "check_proof_code"@ {
        Some(DepEntry::Check)
    } else if function == "assumptions_code"@ {
        Some(DepEntry::Assumptions)
    } else if function == "assumption_set"@ {
        Some(DepEntry::AssumptionSet)
    } else if function == "probe_eval_code"@ {
        Some(DepEntry::Eval)
    } else if function == "probe_defeq_code"@ {
        Some(DepEntry::Defeq)
    } else {
        None
    }
}

/// The value of the first well-formed `[name, value]` field called `name`.
pub open spec fn record_member(fields: Seq<JsonValue>, name: Seq<char>) -> Option<JsonValue>
    decreases fields.len(),
{
    if fields.len() == 0 {
        None
    } else {
        match array_of(Some(fields[0])) {
            Some(pair) => if text_of(item_at(pair, 0)) == Some(name) && pair.len() >= 2 {
                Some(pair[1])
            } else {
                record_member(fields.drop_first(), name)
            },
            None => record_member(fields.drop_first(), name),
        }
    }
}

/// The field `name` of a record value.
pub open spec fn record_field(v: JsonValue, name: Seq<char>) -> Option<JsonValue> {
    match array_of(get_in(get_in(Some(v), "record"@), "fields"@)) {
        Some(fields) => record_member(fields, name),
        None => None,
    }
}

/// The first `n` items as corpus integers.
pub open spec fn integers(items: Seq<JsonValue>, n: nat) -> Option<Seq<i64>>
    decreases n,
{
    if n == 0 {
        Some(seq![])
    } else {
        match integers(items, (n - 1) as nat) {
            None => None,
            Some(prev) => match corpus_integer(Some(items[n - 1])) {
                Some(x) => Some(prev.push(x)),
                None => None,
            },
        }
    }
}

/// `{"sequence": {"values": [integer, ...]}}`.
pub open spec fn integer_sequence(v: Option<JsonValue>) -> Option<Seq<i64>> {
    match array_of(get_in(get_in(v, "sequence"@), "values"@)) {
        Some(items) => integers(items, items.len()),
        None => None,
    }
}

/// A pinned assumption-set record: `count` uses from the parallel `hyp`,
/// `level` and `carrier` sequences, and the validity flag.
pub open spec fn assumption_set_record(v: JsonValue) -> Option<(Seq<(i64, i64, i64)>, bool)> {
    let count = corpus_integer(record_field(v, "count"@));
    let valid = bool_of(get_in(get_in(record_field(v, "valid"@), "boolean"@), "value"@));
    let hyp = integer_sequence(record_field(v, "hyp"@));
    let level = integer_sequence(record_field(v, "level"@));
    let carrier = integer_sequence(record_field(v, "carrier"@));
    if count is None || count.unwrap() < 0 || count.unwrap() > usize::MAX || valid is None || hyp is None || level is None
        || carrier is None {
        None
    } else {
        let n = count.unwrap() as int;
        if hyp.unwrap().len() < n || level.unwrap().len() < n || carrier.unwrap().len() < n {
            None
        } else {
            Some((Seq::new(n as nat, |k: int| (hyp.unwrap()[k], level.unwrap()[k], carrier.unwrap()[k])), valid.unwrap()))
        }
    }
}

/// The first `n` cell values as dependent cells (tag, arguments).
pub open spec fn dep_cells(values: Seq<JsonValue>, n: nat) -> Option<Seq<(DepTag, Seq<i64>)>>
    decreases n,
{
    if n == 0 {
        Some(seq![])
    } else {
        match dep_cells(values, (n - 1) as nat) {
            None => None,
            Some(prev) => match cell_parts(Some(values[n - 1])) {
                Some((Some(name), args)) => match tag_named(name) {
                    Some(tag) => Some(prev.push((tag, args))),
                    None => None,
                },
                _ => None,
            },
        }
    }
}

/// The part of a dependent case after its buffer: indices and expectation.
pub open spec fn dep_case_tail(
    case: JsonValue,
    id: Seq<char>,
    entry: DepEntry,
    args: Seq<JsonValue>,
    cells: Seq<(DepTag, Seq<i64>)>,
) -> Result<DepCaseView, Seq<char>> {
    match corpus_byte(item_at(args, 1)) {
        None => Err(id + ": bad count"@),
        Some(count) => match corpus_byte(item_at(args, 2)) {
            None => Err(id + ": bad index"@),
            Some(first) => {
                let second = if entry == DepEntry::Eval {
                    Some(0usize)
                } else {
                    corpus_byte(item_at(args, 3))
                };
                match second {
                    None => Err(id + ": bad index"@),
                    Some(second) => match first_of(array_of(get_in(Some(case), "expected"@))) {
                        None => Err(id + ": bad expectation"@),
                        Some(expected) => if entry == DepEntry::AssumptionSet {
                            match assumption_set_record(expected) {
                                None => Err(id + ": bad set expectation"@),
                                Some(set) => Ok((id, entry, cells, count, first, second, 0i64, Some(set))),
                            }
                        } else {
                            match corpus_integer(Some(expected)) {
                                None => Err(id + ": bad expectation"@),
                                Some(code) => Ok((id, entry, cells, count, first, second, code, None)),
                            }
                        },
                    },
                }
            },
        },
    }
}

/// One case of the dependent corpus, or the first thing wrong with it.
pub open spec fn dep_case(case: JsonValue) -> Result<DepCaseView, Seq<char>> {
    match text_of(get_in(Some(case), "id"@)) {
        None => Err("case has no id"@),
        Some(id) => match get_in(Some(case), "request"@) {
            None => Err(id + ": no request"@),
            Some(request) => match text_of(get_in(get_in(Some(request), "target"@), "function"@)) {
                None => Err(id + ": no target function"@),
                Some(function) => match entry_named(function) {
                    None => Err(id + ": unknown entry "@ + function),
                    Some(entry) => match array_of(get_in(Some(request), "arguments"@)) {
                        None => Err(id + ": no request arguments"@),
                        Some(args) => match buffer_values(args) {
                            None => Err(id + ": no sequence values"@),
                            Some(values) => if values.len() != PROOF_DEP_BUFFER_CAPACITY {
                                Err(id + ": buffer is not "@ + crate::text::decimal(PROOF_DEP_BUFFER_CAPACITY as nat) + " cells"@)
                            } else {
                                match dep_cells(values, values.len()) {
                                    None => Err(id + ": bad cell"@),
                                    Some(cells) => dep_case_tail(case, id, entry, args, cells),
                                }
                            },
                        },
                    },
                },
            },
        },
    }
}

pub open spec fn dep_cases(cases: Seq<JsonValue>, n: nat) -> Result<Seq<DepCaseView>, Seq<char>>
    decreases n,
{
    if n == 0 {
        Ok(seq![])
    } else {
        match dep_cases(cases, (n - 1) as nat) {
            Err(e) => Err(e),
            Ok(prev) => match dep_case(cases[n - 1]) {
                Err(e) => Err(e),
                Ok(c) => Ok(prev.push(c)),
            },
        }
    }
}

/// The dependent corpus a document holds.
pub open spec fn dep_corpus(document: JsonValue) -> Result<Seq<DepCaseView>, Seq<char>> {
    match array_of(get_in(Some(document), "cases"@)) {
        None => Err("corpus has no cases array"@),
        Some(cases) => dep_cases(cases, cases.len()),
    }
}

fn read_record_field<'a>(v: &'a JsonValue, name: &str) -> (r: Option<&'a JsonValue>)
    ensures
        deref(r) == record_field(*v, name@),
{
    let fields = match json_array(json_get(json_get(Some(v), "record"), "fields")) {
        Some(fields) => fields,
        None => return None,
    };
    let mut i: usize = 0;
    assert(fields@.skip(0) =~= fields@);
    while i < fields.len()
        invariant
            i <= fields@.len(),
            record_field(*v, name@) == record_member(fields@, name@),
            record_member(fields@, name@) == record_member(fields@.skip(i as int), name@),
        decreases fields@.len() - i,
    {
        proof {
            crate::frame::lemma_skip_step(fields@, i as int);
        }
        match json_array(json_item(fields, i)) {
            Some(pair) => {
                let matches = match json_text(json_item(pair, 0)) {
                    Some(label) => text_eq(label.as_str(), name),
                    None => false,
                };
                if matches && pair.len() >= 2 {
                    return Some(&pair[1]);
                }
            },
            None => {},
        }
        i = i + 1;
    }
    assert(fields@.skip(i as int).len() == 0);
    None
}

fn read_integers(v: Option<&JsonValue>) -> (r: Option<Vec<i64>>)
    ensures
        match r {
            Some(xs) => integer_sequence(deref(v)) == Some(xs@),
            None => integer_sequence(deref(v)) is None,
        },
{
    let items = match json_array(json_get(json_get(v, "sequence"), "values")) {
        Some(items) => items,
        None => return None,
    };
    let mut out: Vec<i64> = Vec::new();
    let mut i: usize = 0;
    while i < items.len()
        invariant
            i <= items@.len(),
            integer_sequence(deref(v)) == integers(items@, items@.len()),
            integers(items@, i as nat) == Some(out@),
        decreases items@.len() - i,
    {
        match read_integer(json_item(items, i)) {
            Some(x) => out.push(x),
            None => {
                proof {
                    lemma_integers_stay_none(items@, (i + 1) as nat, items@.len());
                }
                return None;
            },
        }
        i = i + 1;
    }
    Some(out)
}

proof fn lemma_integers_stay_none(items: Seq<JsonValue>, n: nat, m: nat)
    requires
        n <= m,
        integers(items, n) is None,
    ensures
        integers(items, m) is None,
    decreases m - n,
{
    if n < m {
        lemma_integers_stay_none(items, n, (m - 1) as nat);
    }
}

fn read_assumption_set(v: &JsonValue) -> (r: Option<DepAssumptionSet>)
    ensures
        match r {
            Some(set) => assumption_set_record(*v) == Some(set_view(set)),
            None => assumption_set_record(*v) is None,
        },
{
    let count_value = match read_integer(read_record_field(v, "count")) {
        Some(c) => c,
        None => return None,
    };
    if count_value < 0 || count_value as i128 > usize::MAX as i128 {
        return None;
    }
    let count = count_value as usize;
    let valid = match json_bool(json_get(json_get(read_record_field(v, "valid"), "boolean"), "value")) {
        Some(b) => b,
        None => return None,
    };
    let hyp = match read_integers(read_record_field(v, "hyp")) {
        Some(xs) => xs,
        None => return None,
    };
    let level = match read_integers(read_record_field(v, "level")) {
        Some(xs) => xs,
        None => return None,
    };
    let carrier = match read_integers(read_record_field(v, "carrier")) {
        Some(xs) => xs,
        None => return None,
    };
    if hyp.len() < count || level.len() < count || carrier.len() < count {
        return None;
    }
    let mut uses: Vec<DepAssumptionUse> = Vec::new();
    let mut slot: usize = 0;
    while slot < count
        invariant
            slot <= count,
            count <= hyp@.len(),
            count <= level@.len(),
            count <= carrier@.len(),
            uses@.len() == slot,
            forall|k: int| 0 <= k < slot ==> (#[trigger] uses@[k]) == (DepAssumptionUse { hyp: hyp@[k], level: level@[k], carrier: carrier@[k] }),
        decreases count - slot,
    {
        uses.push(DepAssumptionUse { hyp: hyp[slot], level: level[slot], carrier: carrier[slot] });
        slot = slot + 1;
    }
    let set = DepAssumptionSet { uses, valid };
    assert(set_view(set).0 =~= Seq::new(count as nat, |k: int| (hyp@[k], level@[k], carrier@[k])));
    Some(set)
}

fn read_dep_cells(values: &Vec<JsonValue>) -> (r: Option<Vec<DepCell>>)
    ensures
        match r {
            Some(cells) => dep_cells(values@, values@.len()) == Some(cells@.map_values(|x: DepCell| (x.tag, x.args@))),
            None => dep_cells(values@, values@.len()) is None,
        },
{
    let mut cells: Vec<DepCell> = Vec::new();
    let mut i: usize = 0;
    while i < values.len()
        invariant
            i <= values@.len(),
            dep_cells(values@, i as nat) == Some(cells@.map_values(|x: DepCell| (x.tag, x.args@))),
        decreases values@.len() - i,
    {
        let parts = read_cell_parts(json_item(values, i));
        let cell = match parts {
            Some((Some(name), args)) => match DepTag::from_name(name.as_str()) {
                Some(tag) => Some(DepCell::new(tag, args)),
                None => None,
            },
            _ => None,
        };
        match cell {
            Some(cell) => {
                let ghost before = cells@;
                cells.push(cell);
                assert(cells@.map_values(|x: DepCell| (x.tag, x.args@)) =~= before.map_values(
                    |x: DepCell| (x.tag, x.args@),
                ).push((cell.tag, cell.args@)));
            },
            None => {
                proof {
                    lemma_dep_cells_stay_none(values@, (i + 1) as nat, values@.len());
                }
                return None;
            },
        }
        i = i + 1;
    }
    Some(cells)
}

proof fn lemma_dep_cells_stay_none(values: Seq<JsonValue>, n: nat, m: nat)
    requires
        n <= m,
        dep_cells(values, n) is None,
    ensures
        dep_cells(values, m) is None,
    decreases m - n,
{
    if n < m {
        lemma_dep_cells_stay_none(values, n, (m - 1) as nat);
    }
}

fn read_dep_case(case: &JsonValue) -> (r: Result<DepCorpusCase, String>)
    ensures
        match r {
            Ok(c) => dep_case(*case) is Ok && dep_case(*case)->Ok_0 == dep_case_view(c),
            Err(e) => dep_case(*case) is Err && dep_case(*case)->Err_0 == e@,
        },
{
    let id = match json_text(json_get(Some(case), "id")) {
        Some(id) => id.clone(),
        None => return Err(String::from_str("case has no id")),
    };
    let request = match json_get(Some(case), "request") {
        Some(request) => request,
        None => return Err(suffixed(&id, ": no request")),
    };
    let function = match json_text(json_get(json_get(Some(request), "target"), "function")) {
        Some(function) => function,
        None => return Err(suffixed(&id, ": no target function")),
    };
    let entry = if text_eq(function.as_str(), "check_proof_code") {
        DepEntry::Check
    } else if text_eq(function.as_str(), "assumptions_code") {
        DepEntry::Assumptions
    } else if text_eq(function.as_str(), "assumption_set") {
        DepEntry::AssumptionSet
    } else if text_eq(function.as_str(), "probe_eval_code") {
        DepEntry::Eval
    } else if text_eq(function.as_str(), "probe_defeq_code") {
        DepEntry::Defeq
    } else {
        let mut message = suffixed(&id, ": unknown entry ");
        message.append(function.as_str());
        return Err(message);
    };
    let args = match json_array(json_get(Some(request), "arguments")) {
        Some(args) => args,
        None => return Err(suffixed(&id, ": no request arguments")),
    };
    let values = match json_array(json_get(json_get(json_item(args, 0), "sequence"), "values")) {
        Some(values) => values,
        None => return Err(suffixed(&id, ": no sequence values")),
    };
    if values.len() != PROOF_DEP_BUFFER_CAPACITY {
        let mut message = suffixed(&id, ": buffer is not ");
        crate::text::push_decimal(&mut message, PROOF_DEP_BUFFER_CAPACITY as u64);
        message.append(" cells");
        return Err(message);
    }
    let cells = match read_dep_cells(values) {
        Some(cells) => cells,
        None => return Err(suffixed(&id, ": bad cell")),
    };
    let count = match read_byte(json_item(args, 1)) {
        Some(count) => count,
        None => return Err(suffixed(&id, ": bad count")),
    };
    let first = match read_byte(json_item(args, 2)) {
        Some(index) => index,
        None => return Err(suffixed(&id, ": bad index")),
    };
    let second = if entry == DepEntry::Eval {
        0
    } else {
        match read_byte(json_item(args, 3)) {
            Some(index) => index,
            None => return Err(suffixed(&id, ": bad index")),
        }
    };
    let expected_value = match json_array(json_get(Some(case), "expected")) {
        Some(items) => match json_item(items, 0) {
            Some(value) => value,
            None => return Err(suffixed(&id, ": bad expectation")),
        },
        None => return Err(suffixed(&id, ": bad expectation")),
    };
    let (expected, expected_set) = if entry == DepEntry::AssumptionSet {
        match read_assumption_set(expected_value) {
            Some(set) => (0i64, Some(set)),
            None => return Err(suffixed(&id, ": bad set expectation")),
        }
    } else {
        match read_integer(Some(expected_value)) {
            Some(code) => (code, None),
            None => return Err(suffixed(&id, ": bad expectation")),
        }
    };
    let c = DepCorpusCase { id, entry, cells, count, first, second, expected, expected_set };
    Ok(c)
}

/// The cases of a dependent-kernel corpus document, in order, or the first
/// error: a missing cases array, or the first malformed case.
pub fn dep_corpus_cases(document: &JsonValue) -> (r: Result<Vec<DepCorpusCase>, String>)
    ensures
        match r {
            Ok(cases) => dep_corpus(*document) is Ok && dep_corpus(*document)->Ok_0 == cases@.map_values(
                |c: DepCorpusCase| dep_case_view(c),
            ),
            Err(e) => dep_corpus(*document) is Err && dep_corpus(*document)->Err_0 == e@,
        },
{
    let cases = match json_array(json_get(Some(document), "cases")) {
        Some(cases) => cases,
        None => return Err(String::from_str("corpus has no cases array")),
    };
    let mut parsed: Vec<DepCorpusCase> = Vec::new();
    let mut i: usize = 0;
    while i < cases.len()
        invariant
            i <= cases@.len(),
            dep_corpus(*document) == dep_cases(cases@, cases@.len()),
            dep_cases(cases@, i as nat) is Ok,
            dep_cases(cases@, i as nat)->Ok_0 == parsed@.map_values(|c: DepCorpusCase| dep_case_view(c)),
        decreases cases@.len() - i,
    {
        match read_dep_case(&cases[i]) {
            Ok(c) => {
                let ghost before = parsed@;
                let ghost cv = dep_case_view(c);
                parsed.push(c);
                assert(parsed@.map_values(|c: DepCorpusCase| dep_case_view(c)) =~= before.map_values(
                    |c: DepCorpusCase| dep_case_view(c),
                ).push(cv));
            },
            Err(e) => {
                proof {
                    lemma_dep_cases_stay_err(cases@, (i + 1) as nat, cases@.len(), e@);
                }
                return Err(e);
            },
        }
        i = i + 1;
    }
    Ok(parsed)
}

proof fn lemma_dep_cases_stay_err(cases: Seq<JsonValue>, n: nat, m: nat, e: Seq<char>)
    requires
        n <= m,
        dep_cases(cases, n) is Err,
        dep_cases(cases, n)->Err_0 == e,
    ensures
        dep_cases(cases, m) is Err,
        dep_cases(cases, m)->Err_0 == e,
    decreases m - n,
{
    if n < m {
        lemma_dep_cases_stay_err(cases, n, (m - 1) as nat, e);
    }
}

} // verus!
