//! A deliberately small, deterministic, evidence-aware SSA artifact:
//! functions of blocks with parameters (the phi-like join), instructions
//! with their operands, results, capability uses, machine-intent links and
//! obligations, terminators, and bounded iterations; the validation that
//! reports every structural error; and the evidence-gated elision of an
//! overflow check, which keeps every validation outcome.

use vstd::prelude::*;
use vstd::string::*;

use crate::identity::{id_views, SemanticId};
use crate::ir::{IrType, MachineIntentLinks, PathKind};
use crate::machine_intent::{ArithmeticIntent, CapabilityUse, IntegerType};
use crate::obligations::ObligationRecord;
use crate::proof_transport::{texts, ProofRelationship};
use crate::provenance::{transformation_identity, TransformationRecord};
use crate::digest::{sha256_hex, sha256_hex_of};
use crate::evidence::EvidenceFreshness;
use crate::machine_intent::ObligationStatus;
use crate::proof_kernel::range::{EvidenceAuthorityClass, VerifierResult};
use crate::text::{decimal, push_decimal, text_eq};

verus! {

pub const SSA_SCHEMA_VERSION: &'static str = "0.4";

/// A value: a function input, a block parameter or an instruction result.
#[derive(Debug, Clone, PartialEq, Eq)]
pub struct SsaValue {
    pub identity: SemanticId,
    pub semantic_identity: Option<SemanticId>,
    pub ty: IrType,
    pub producer: Option<SemanticId>,
    pub block: SemanticId,
}

/// What an instruction is, as far as validation tells kinds apart:
/// integer arithmetic (which must keep its machine intent and obligation
/// link), calls (whose callee and capability uses are checked), effects
/// (which must use a capability), and every other kind, named by `kind`.
#[derive(Debug, Clone, PartialEq, Eq)]
pub enum SsaInstructionKind {
    Integer { operator: String, operand_type: IntegerType, intent: ArithmeticIntent },
    Call { function: SemanticId, required_capabilities: Vec<SemanticId> },
    Effect,
    Other { kind: String },
}

#[derive(Debug, Clone, PartialEq, Eq)]
pub struct SsaInstruction {
    pub identity: SemanticId,
    /// The semantic operation the instruction lowers, when it has one.
    pub semantic_identity: Option<SemanticId>,
    pub hir_identity: Option<SemanticId>,
    pub kind: SsaInstructionKind,
    pub inputs: Vec<SemanticId>,
    pub outputs: Vec<SsaValue>,
    pub effects: Vec<SemanticId>,
    pub capability_uses: Vec<CapabilityUse>,
    pub contracts: Vec<SemanticId>,
    pub assumptions: Vec<SemanticId>,
    pub evidence: Vec<SemanticId>,
    pub machine_intent: Option<MachineIntentLinks>,
    pub obligations: Vec<SemanticId>,
}

#[derive(Debug, Clone, PartialEq, Eq)]
pub enum SsaTerminator {
    Return { values: Vec<SemanticId> },
    Branch { target: SemanticId, arguments: Vec<SemanticId> },
    ConditionalBranch {
        condition: SemanticId,
        then_target: SemanticId,
        then_arguments: Vec<SemanticId>,
        else_target: SemanticId,
        else_arguments: Vec<SemanticId>,
    },
    Failure,
}

#[derive(Debug, Clone, PartialEq, Eq)]
pub struct SsaBlock {
    pub identity: SemanticId,
    pub semantic_identity: Option<SemanticId>,
    pub path: PathKind,
    pub parameters: Vec<SsaValue>,
    pub instructions: Vec<SsaInstruction>,
    pub terminator: SsaTerminator,
    pub failure_target: Option<SemanticId>,
}

/// What a bounded iteration counts over.
#[derive(Debug, Clone, Copy, PartialEq, Eq, Structural)]
pub enum IterationDomain {
    Attempts,
    OverSequence,
}

#[derive(Debug, Clone, PartialEq, Eq)]
pub struct SsaBoundedIteration {
    pub identity: SemanticId,
    pub bound: u32,
    pub domain: IterationDomain,
    pub state_type: IrType,
    pub preheader: SemanticId,
    pub header: SemanticId,
    pub body_entry: SemanticId,
    pub backedge: SemanticId,
    pub exit: SemanticId,
    pub body_blocks: Vec<SemanticId>,
    pub callees: Vec<SemanticId>,
    pub required_capabilities: Vec<SemanticId>,
    pub obligations: Vec<SemanticId>,
}

/// Whether a function's control flow may only cycle through declared
/// bounded iterations.
#[derive(Debug, Clone, Copy, PartialEq, Eq, Structural)]
pub enum BodyCyclePolicy {
    Legacy,
    BoundedIterationOnly,
}

#[derive(Debug, Clone, PartialEq, Eq)]
pub struct SsaFunction {
    pub identity: SemanticId,
    pub semantic_identity: SemanticId,
    pub inputs: Vec<SsaValue>,
    pub outputs: Vec<SsaValue>,
    pub cycle_policy: BodyCyclePolicy,
    pub bounded_iterations: Vec<SsaBoundedIteration>,
    pub blocks: Vec<SsaBlock>,
}

#[derive(Debug, Clone, PartialEq, Eq)]
pub struct SsaTraceEntry {
    pub semantic_identity: SemanticId,
    pub hir_identities: Vec<SemanticId>,
    pub ssa_identities: Vec<SemanticId>,
}

#[derive(Debug, Clone, PartialEq, Eq)]
pub struct SsaTraceMap {
    pub entries: Vec<SsaTraceEntry>,
}

/// A logical record declaration carried into the SSA: its fields, sorted
/// by name, with their types.
#[derive(Debug, Clone, PartialEq, Eq)]
pub struct SsaRecordType {
    pub identity: SemanticId,
    pub name: String,
    pub fields: Vec<(String, IrType)>,
}

#[derive(Debug, Clone, PartialEq, Eq)]
pub struct SsaModule {
    pub schema_version: String,
    pub identity: SemanticId,
    pub semantic_identity: SemanticId,
    pub hir_fingerprint: String,
    pub record_types: Vec<SsaRecordType>,
    pub functions: Vec<SsaFunction>,
    pub obligations: Vec<ObligationRecord>,
    pub trace: SsaTraceMap,
    pub transformations: Vec<TransformationRecord>,
    pub proof_relationships: Vec<ProofRelationship>,
}

#[derive(Debug, Clone, PartialEq, Eq)]
pub struct SsaDiagnostic {
    pub code: String,
    pub path: String,
    pub message: String,
}

#[derive(Debug, Clone, PartialEq, Eq)]
pub struct SsaValidationReport {
    pub valid: bool,
    pub errors: Vec<SsaDiagnostic>,
}

/// The iteration ceilings of the source profile: the largest bound of an
/// attempts iteration and of a sequence traversal.
#[derive(Debug, Clone, Copy, PartialEq, Eq, Structural)]
pub struct IterationCeilings {
    pub attempts: u32,
    pub sequence: u32,
}

/// A diagnostic as plain values: code, path and message.
pub type DiagView = (Seq<char>, Seq<char>, Seq<char>);

pub open spec fn diag_views(ds: Seq<SsaDiagnostic>) -> Seq<DiagView> {
    ds.map_values(|d: SsaDiagnostic| (d.code@, d.path@, d.message@))
}

fn push_diag(errors: &mut Vec<SsaDiagnostic>, code: &str, path: &str, message: &str)
    ensures
        diag_views(final(errors)@) == diag_views(old(errors)@).push((code@, path@, message@)),
{
    errors.push(SsaDiagnostic { code: String::from_str(code), path: String::from_str(path), message: String::from_str(message) });
    assert(diag_views(errors@) =~= diag_views(old(errors)@).push((code@, path@, message@)));
}

/// `d` once when `c` holds.
pub open spec fn when(c: bool, d: DiagView) -> Seq<DiagView> {
    if c {
        seq![d]
    } else {
        seq![]
    }
}

// ---------------------------------------------------------------------
// Blocks, successors, reachability and dominance.

pub open spec fn block_ids(f: SsaFunction) -> Seq<Seq<char>> {
    f.blocks@.map_values(|b: SsaBlock| b.identity.0@)
}

/// The blocks a terminator can transfer to, then the failure target.
pub open spec fn targets_of(b: SsaBlock) -> Seq<Seq<char>> {
    let t = match b.terminator {
        SsaTerminator::Branch { target, .. } => seq![target.0@],
        SsaTerminator::ConditionalBranch { then_target, else_target, .. } => seq![then_target.0@, else_target.0@],
        _ => seq![],
    };
    match b.failure_target {
        Some(x) => t.push(x.0@),
        None => t,
    }
}

fn targets_exec(b: &SsaBlock) -> (r: Vec<SemanticId>)
    ensures
        id_views(r@) == targets_of(*b),
{
    let mut out: Vec<SemanticId> = Vec::new();
    match &b.terminator {
        SsaTerminator::Branch { target, .. } => out.push(target.duplicate()),
        SsaTerminator::ConditionalBranch { then_target, else_target, .. } => {
            out.push(then_target.duplicate());
            out.push(else_target.duplicate());
        },
        _ => {},
    }
    match &b.failure_target {
        Some(x) => out.push(x.duplicate()),
        None => {},
    }
    assert(id_views(out@) =~= targets_of(*b));
    out
}

/// Block `i` is the last block with its identity: its successors are the
/// ones a map keyed by block identity keeps.
pub open spec fn last_of_id(f: SsaFunction, i: int) -> bool {
    forall|j: int| i < j < f.blocks@.len() ==> f.blocks@[j].identity.0@ != f.blocks@[i].identity.0@
}

fn is_last_of_id(f: &SsaFunction, i: usize) -> (r: bool)
    requires
        i < f.blocks@.len(),
    ensures
        r == last_of_id(*f, i as int),
{
    let len = f.blocks.len();
    let mut j = i + 1;
    while j < len
        invariant
            len == f.blocks@.len(),
            i < j <= f.blocks@.len(),
            forall|k: int| i < k < j ==> f.blocks@[k].identity.0@ != f.blocks@[i as int].identity.0@,
        decreases f.blocks@.len() - j,
    {
        if f.blocks[j].identity.same(&f.blocks[i].identity) {
            return false;
        }
        j = j + 1;
    }
    true
}

/// The entry block: the first one.
pub open spec fn entry_of(f: SsaFunction) -> Option<Seq<char>> {
    if f.blocks@.len() > 0 {
        Some(f.blocks@[0].identity.0@)
    } else {
        None
    }
}

/// `x` is reached from the entry within `k` steps along successors,
/// never through `avoid`.
pub open spec fn reached(f: SsaFunction, avoid: Option<Seq<char>>, k: nat, x: Seq<char>) -> bool
    decreases k, 0nat,
{
    if k == 0 {
        entry_of(f) == Some(x) && avoid != Some(x)
    } else {
        reached(f, avoid, (k - 1) as nat, x) || stepped(f, avoid, (k - 1) as nat, x, f.blocks@.len() as nat)
    }
}

/// Some block among the first `n`, reached within `k` steps and the last of
/// its identity, has `x` as a successor, and `x` is not `avoid`.
pub open spec fn stepped(f: SsaFunction, avoid: Option<Seq<char>>, k: nat, x: Seq<char>, n: nat) -> bool
    decreases k, n,
{
    if n == 0 {
        false
    } else {
        stepped(f, avoid, k, x, (n - 1) as nat) || ((n - 1) < f.blocks@.len() && last_of_id(f, n - 1) && reached(
            f,
            avoid,
            k,
            f.blocks@[n - 1].identity.0@,
        ) && targets_of(f.blocks@[n - 1]).contains(x) && avoid != Some(x))
    }
}

/// `x` is reachable from the entry (every reachable block is reached in
/// as many steps as there are blocks).
pub open spec fn reachable(f: SsaFunction, x: Seq<char>) -> bool {
    reached(f, None, f.blocks@.len() as nat, x)
}

/// `d` dominates `b`: both are reachable and every path from the entry to
/// `b` passes through `d`.
pub open spec fn dominates(f: SsaFunction, d: Seq<char>, b: Seq<char>) -> bool {
    reachable(f, b) && reachable(f, d) && !reached(f, Some(d), f.blocks@.len() as nat, b)
}

fn id_listed(xs: &Vec<SemanticId>, t: &SemanticId) -> (r: bool)
    ensures
        r == id_views(xs@).contains(t.0@),
{
    let mut i: usize = 0;
    while i < xs.len()
        invariant
            i <= xs@.len(),
            forall|j: int| 0 <= j < i ==> id_views(xs@)[j] != t.0@,
        decreases xs@.len() - i,
    {
        if xs[i].same(t) {
            assert(id_views(xs@)[i as int] == t.0@);
            return true;
        }
        i = i + 1;
    }
    false
}

fn option_is(avoid: &Option<SemanticId>, x: &SemanticId) -> (r: bool)
    ensures
        r == (opt_view(*avoid) == Some(x.0@)),
{
    match avoid {
        Some(a) => a.same(x),
        None => false,
    }
}

/// The identities reached within `k` steps, never through `avoid`.
fn reached_set(f: &SsaFunction, avoid: &Option<SemanticId>, k: usize) -> (r: Vec<SemanticId>)
    ensures
        forall|x: Seq<char>|
            #![trigger id_views(r@).contains(x)]
            id_views(r@).contains(x) <==> reached(
                *f,
                opt_view(*avoid),
                k as nat,
                x,
            ),
    decreases k,
{
    let ghost av = opt_view(*avoid);
    if k == 0 {
        let mut out: Vec<SemanticId> = Vec::new();
        if f.blocks.len() > 0 && !option_is(avoid, &f.blocks[0].identity) {
            out.push(f.blocks[0].identity.duplicate());
        }
        proof {
            assert forall|x: Seq<char>| #![trigger id_views(out@).contains(x)] id_views(out@).contains(x) <==> reached(*f, av, 0, x) by {
                if id_views(out@).contains(x) {
                    assert(id_views(out@)[0] == x);
                }
                if reached(*f, av, 0, x) {
                    assert(id_views(out@)[0] == x);
                }
            }
        }
        return out;
    }
    let before = reached_set(f, avoid, k - 1);
    let mut out: Vec<SemanticId> = Vec::new();
    let mut i: usize = 0;
    while i < before.len()
        invariant
            i <= before@.len(),
            out@.len() == i,
            forall|j: int| 0 <= j < i ==> (#[trigger] out@[j]).0@ == before@[j].0@,
        decreases before@.len() - i,
    {
        out.push(before[i].duplicate());
        i = i + 1;
    }
    assert(id_views(out@) =~= id_views(before@));
    let mut n: usize = 0;
    while n < f.blocks.len()
        invariant
            n <= f.blocks@.len(),
            av == opt_view(*avoid),
            forall|x: Seq<char>|
                #![trigger id_views(before@).contains(x)]
                id_views(before@).contains(x) <==> reached(*f, av, (k - 1) as nat, x),
            forall|x: Seq<char>|
                #![trigger id_views(out@).contains(x)]
                id_views(out@).contains(x) <==> (reached(*f, av, (k - 1) as nat, x) || stepped(
                    *f,
                    av,
                    (k - 1) as nat,
                    x,
                    n as nat,
                )),
        decreases f.blocks@.len() - n,
    {
        let block = &f.blocks[n];
        if is_last_of_id(f, n) && id_listed(&before, &block.identity) {
            let targets = targets_exec(block);
            let mut t: usize = 0;
            while t < targets.len()
                invariant
                    t <= targets@.len(),
                    n < f.blocks@.len(),
                    block == &f.blocks@[n as int],
                    id_views(targets@) == targets_of(*block),
                    last_of_id(*f, n as int),
                    reached(*f, av, (k - 1) as nat, block.identity.0@),
                    av == opt_view(*avoid),
                    forall|x: Seq<char>|
                        #![trigger id_views(out@).contains(x)]
                        id_views(out@).contains(x) <==> (reached(*f, av, (k - 1) as nat, x) || stepped(
                            *f,
                            av,
                            (k - 1) as nat,
                            x,
                            n as nat,
                        ) || (id_views(targets@).take(t as int).contains(x) && av != Some(x))),
                decreases targets@.len() - t,
            {
                let x = &targets[t];
                let ghost xv = x.0@;
                proof {
                    assert(id_views(targets@).take(t + 1) =~= id_views(targets@).take(t as int).push(xv));
                }
                let ghost prev = out@;
                let skip = option_is(avoid, x);
                let present = id_listed(&out, x);
                if !skip && !present {
                    out.push(x.duplicate());
                    proof {
                        assert(id_views(out@) =~= id_views(prev).push(xv));
                    }
                }
                proof {
                    let tk = id_views(targets@).take(t as int);
                    let tk1 = id_views(targets@).take(t + 1);
                    assert forall|y: Seq<char>| #![trigger id_views(out@).contains(y)] id_views(out@).contains(y) <==> (reached(*f, av, (k - 1) as nat, y)
                        || stepped(*f, av, (k - 1) as nat, y, n as nat) || (tk1.contains(y) && av != Some(y))) by {
                        if y == xv {
                            assert(tk1[t as int] == xv);
                            if !skip && !present {
                                assert(id_views(out@)[id_views(out@).len() - 1] == xv);
                            }
                        } else {
                            if tk1.contains(y) {
                                let q = choose|q: int| 0 <= q < tk1.len() && tk1[q] == y;
                                assert(tk[q] == y);
                            }
                            if tk.contains(y) {
                                let q = choose|q: int| 0 <= q < tk.len() && tk[q] == y;
                                assert(tk1[q] == y);
                            }
                            if !skip && !present {
                                if id_views(out@).contains(y) {
                                    let q = choose|q: int| 0 <= q < id_views(out@).len() && id_views(out@)[q] == y;
                                    assert(id_views(prev)[q] == y);
                                }
                                if id_views(prev).contains(y) {
                                    let q = choose|q: int| 0 <= q < id_views(prev).len() && id_views(prev)[q] == y;
                                    assert(id_views(out@)[q] == y);
                                }
                            }
                        }
                    }
                }
                t = t + 1;
            }
            proof {
                assert(id_views(targets@).take(t as int) =~= id_views(targets@));
                assert forall|x: Seq<char>| #![trigger id_views(out@).contains(x)] id_views(out@).contains(x) <==> (reached(*f, av, (k - 1) as nat, x) || stepped(
                    *f,
                    av,
                    (k - 1) as nat,
                    x,
                    (n + 1) as nat,
                )) by {
                    assert(stepped(*f, av, (k - 1) as nat, x, (n + 1) as nat) == (stepped(*f, av, (k - 1) as nat, x, n as nat) || (
                    targets_of(f.blocks@[n as int]).contains(x) && av != Some(x))));
                }
            }
        } else {
            proof {
                assert forall|x: Seq<char>| #![trigger id_views(out@).contains(x)] id_views(out@).contains(x) <==> (reached(*f, av, (k - 1) as nat, x) || stepped(
                    *f,
                    av,
                    (k - 1) as nat,
                    x,
                    (n + 1) as nat,
                )) by {
                    if !last_of_id(*f, n as int) {
                    } else {
                        assert(!reached(*f, av, (k - 1) as nat, block.identity.0@));
                    }
                }
            }
        }
        n = n + 1;
    }
    proof {
        assert forall|x: Seq<char>| #![trigger id_views(out@).contains(x)] id_views(out@).contains(x) <==> reached(*f, av, k as nat, x) by {
        }
    }
    out
}

/// Whether `x` is reachable from the entry.
fn is_reachable(f: &SsaFunction, x: &SemanticId) -> (r: bool)
    ensures
        r == reachable(*f, x.0@),
{
    let set = reached_set(f, &None, f.blocks.len());
    id_listed(&set, x)
}

/// Whether `d` dominates `b`.
fn does_dominate(f: &SsaFunction, d: &SemanticId, b: &SemanticId) -> (r: bool)
    ensures
        r == dominates(*f, d.0@, b.0@),
{
    if !is_reachable(f, b) || !is_reachable(f, d) {
        return false;
    }
    let avoiding = reached_set(f, &Some(d.duplicate()), f.blocks.len());
    !id_listed(&avoiding, b)
}

// ---------------------------------------------------------------------
// Structural checks of a function.

/// The identities in `s` are pairwise distinct.
pub open spec fn distinct(s: Seq<Seq<char>>) -> bool {
    forall|i: int, j: int| 0 <= i < j < s.len() ==> s[i] != s[j]
}

/// `diag` once for each of `ts` that is not one of `ids`.
pub open spec fn per_unknown(ts: Seq<Seq<char>>, ids: Seq<Seq<char>>, diag: DiagView) -> Seq<DiagView>
    decreases ts.len(),
{
    if ts.len() == 0 {
        seq![]
    } else {
        per_unknown(ts.drop_last(), ids, diag) + when(!ids.contains(ts.last()), diag)
    }
}

/// One SSA004 per terminator or failure target naming no block, in block
/// order.
pub open spec fn unknown_target_errors(f: SsaFunction, n: nat, path: Seq<char>) -> Seq<DiagView>
    decreases n,
{
    if n == 0 || n > f.blocks@.len() {
        seq![]
    } else {
        unknown_target_errors(f, (n - 1) as nat, path) + per_unknown(
            targets_of(f.blocks@[n - 1]),
            block_ids(f),
            ("SSA004"@, path, "SSA terminator targets an unknown block"@),
        )
    }
}

/// One SSA005 per unreachable block, in block order.
pub open spec fn unreachable_errors(f: SsaFunction, n: nat, path: Seq<char>) -> Seq<DiagView>
    decreases n,
{
    if n == 0 || n > f.blocks@.len() {
        seq![]
    } else {
        unreachable_errors(f, (n - 1) as nat, path) + when(
            !reachable(f, f.blocks@[n - 1].identity.0@),
            ("SSA005"@, path, "unreachable SSA block is not supported"@),
        )
    }
}

/// Some bounded iteration declares the edge from `from` to `to` as its
/// backedge to its header.
pub open spec fn declared_backedge(f: SsaFunction, from: Seq<char>, to: Seq<char>) -> bool {
    exists|i: int|
        0 <= i < f.bounded_iterations@.len() && (#[trigger] f.bounded_iterations@[i]).backedge.0@ == from
            && f.bounded_iterations@[i].header.0@ == to
}

/// `ts[m]` is the first occurrence of its identity in `ts`.
pub open spec fn first_in(ts: Seq<Seq<char>>, m: int) -> bool {
    forall|j: int| 0 <= j < m ==> ts[j] != ts[m]
}

/// One SSA018 per distinct successor `t` of `from` (among the first `m`
/// targets) that dominates `from` on an edge no iteration declares.
pub open spec fn cycle_target_errors(f: SsaFunction, from: Seq<char>, ts: Seq<Seq<char>>, m: nat, path: Seq<char>) -> Seq<
    DiagView,
>
    decreases m,
{
    if m == 0 || m > ts.len() {
        seq![]
    } else {
        cycle_target_errors(f, from, ts, (m - 1) as nat, path) + when(
            first_in(ts, m - 1) && dominates(f, ts[m - 1], from) && !declared_backedge(f, from, ts[m - 1]),
            ("SSA018"@, path, "SSA cycle is not an exact semantically bounded iteration backedge"@),
        )
    }
}

/// Under the bounded-iteration-only policy, one SSA018 per retreating edge
/// (its target dominates its source) that is not a declared backedge; the
/// successors of an identity are those of its last block.
pub open spec fn cycle_errors(f: SsaFunction, n: nat, path: Seq<char>) -> Seq<DiagView>
    decreases n,
{
    if n == 0 || n > f.blocks@.len() {
        seq![]
    } else {
        cycle_errors(f, (n - 1) as nat, path) + if last_of_id(f, n - 1) {
            cycle_target_errors(
                f,
                f.blocks@[n - 1].identity.0@,
                targets_of(f.blocks@[n - 1]),
                targets_of(f.blocks@[n - 1]).len(),
                path,
            )
        } else {
            seq![]
        }
    }
}

fn distinct_ids(f: &SsaFunction) -> (r: bool)
    ensures
        r == distinct(block_ids(*f)),
{
    let mut i: usize = 0;
    while i < f.blocks.len()
        invariant
            i <= f.blocks@.len(),
            forall|a: int, b: int| 0 <= a < b < f.blocks@.len() && a < i ==> block_ids(*f)[a] != block_ids(*f)[b],
        decreases f.blocks@.len() - i,
    {
        let mut j: usize = i + 1;
        while j < f.blocks.len()
            invariant
                i < f.blocks@.len(),
                i < j <= f.blocks@.len(),
                forall|a: int, b: int| 0 <= a < b < f.blocks@.len() && a < i ==> block_ids(*f)[a] != block_ids(*f)[b],
                forall|b: int| i < b < j ==> block_ids(*f)[i as int] != block_ids(*f)[b],
            decreases f.blocks@.len() - j,
        {
            if f.blocks[i].identity.same(&f.blocks[j].identity) {
                assert(block_ids(*f)[i as int] == block_ids(*f)[j as int]);
                return false;
            }
            j = j + 1;
        }
        i = i + 1;
    }
    true
}

fn block_id_list(f: &SsaFunction) -> (r: Vec<SemanticId>)
    ensures
        id_views(r@) == block_ids(*f),
{
    let mut out: Vec<SemanticId> = Vec::new();
    let mut i: usize = 0;
    while i < f.blocks.len()
        invariant
            i <= f.blocks@.len(),
            out@.len() == i,
            forall|j: int| 0 <= j < i ==> (#[trigger] out@[j]).0@ == f.blocks@[j].identity.0@,
        decreases f.blocks@.len() - i,
    {
        out.push(f.blocks[i].identity.duplicate());
        i = i + 1;
    }
    assert(id_views(out@) =~= block_ids(*f));
    out
}

fn push_per_unknown(errors: &mut Vec<SsaDiagnostic>, ts: &Vec<SemanticId>, ids: &Vec<SemanticId>, code: &str, path: &str, message: &str)
    ensures
        diag_views(final(errors)@) == diag_views(old(errors)@) + per_unknown(id_views(ts@), id_views(ids@), (code@, path@, message@)),
{
    let ghost start = diag_views(errors@);
    let mut i: usize = 0;
    while i < ts.len()
        invariant
            i <= ts@.len(),
            diag_views(errors@) == start + per_unknown(id_views(ts@).take(i as int), id_views(ids@), (code@, path@, message@)),
        decreases ts@.len() - i,
    {
        proof {
            assert(id_views(ts@).take(i + 1).drop_last() =~= id_views(ts@).take(i as int));
        }
        if !id_listed(ids, &ts[i]) {
            push_diag(errors, code, path, message);
        }
        i = i + 1;
    }
    assert(id_views(ts@).take(i as int) =~= id_views(ts@));
}

fn push_unknown_targets(errors: &mut Vec<SsaDiagnostic>, f: &SsaFunction, ids: &Vec<SemanticId>, path: &str)
    requires
        id_views(ids@) == block_ids(*f),
    ensures
        diag_views(final(errors)@) == diag_views(old(errors)@) + unknown_target_errors(*f, f.blocks@.len() as nat, path@),
{
    let ghost start = diag_views(errors@);
    let mut n: usize = 0;
    while n < f.blocks.len()
        invariant
            n <= f.blocks@.len(),
            id_views(ids@) == block_ids(*f),
            diag_views(errors@) == start + unknown_target_errors(*f, n as nat, path@),
        decreases f.blocks@.len() - n,
    {
        let targets = targets_exec(&f.blocks[n]);
        let ghost mid = diag_views(errors@);
        push_per_unknown(errors, &targets, ids, "SSA004", path, "SSA terminator targets an unknown block");
        proof {
            reveal_strlit("SSA004");
            assert(diag_views(errors@) =~= start + unknown_target_errors(*f, (n + 1) as nat, path@));
        }
        n = n + 1;
    }
}

fn push_unreachable(errors: &mut Vec<SsaDiagnostic>, f: &SsaFunction, path: &str)
    ensures
        diag_views(final(errors)@) == diag_views(old(errors)@) + unreachable_errors(*f, f.blocks@.len() as nat, path@),
{
    let ghost start = diag_views(errors@);
    let mut n: usize = 0;
    while n < f.blocks.len()
        invariant
            n <= f.blocks@.len(),
            diag_views(errors@) == start + unreachable_errors(*f, n as nat, path@),
        decreases f.blocks@.len() - n,
    {
        if !is_reachable(f, &f.blocks[n].identity) {
            push_diag(errors, "SSA005", path, "unreachable SSA block is not supported");
        }
        assert(diag_views(errors@) =~= start + unreachable_errors(*f, (n + 1) as nat, path@));
        n = n + 1;
    }
}

fn is_declared_backedge(f: &SsaFunction, from: &SemanticId, to: &SemanticId) -> (r: bool)
    ensures
        r == declared_backedge(*f, from.0@, to.0@),
{
    let mut i: usize = 0;
    while i < f.bounded_iterations.len()
        invariant
            i <= f.bounded_iterations@.len(),
            forall|j: int|
                0 <= j < i ==> !((#[trigger] f.bounded_iterations@[j]).backedge.0@ == from.0@
                    && f.bounded_iterations@[j].header.0@ == to.0@),
        decreases f.bounded_iterations@.len() - i,
    {
        if f.bounded_iterations[i].backedge.same(from) && f.bounded_iterations[i].header.same(to) {
            return true;
        }
        i = i + 1;
    }
    false
}

fn is_first_in(ts: &Vec<SemanticId>, m: usize) -> (r: bool)
    requires
        m < ts@.len(),
    ensures
        r == first_in(id_views(ts@), m as int),
{
    let mut j: usize = 0;
    while j < m
        invariant
            j <= m < ts@.len(),
            forall|q: int| 0 <= q < j ==> id_views(ts@)[q] != id_views(ts@)[m as int],
        decreases m - j,
    {
        if ts[j].same(&ts[m]) {
            assert(id_views(ts@)[j as int] == id_views(ts@)[m as int]);
            return false;
        }
        j = j + 1;
    }
    true
}

fn push_cycle_errors(errors: &mut Vec<SsaDiagnostic>, f: &SsaFunction, path: &str)
    ensures
        diag_views(final(errors)@) == diag_views(old(errors)@) + cycle_errors(*f, f.blocks@.len() as nat, path@),
{
    let ghost start = diag_views(errors@);
    let mut n: usize = 0;
    while n < f.blocks.len()
        invariant
            n <= f.blocks@.len(),
            diag_views(errors@) == start + cycle_errors(*f, n as nat, path@),
        decreases f.blocks@.len() - n,
    {
        let block = &f.blocks[n];
        if is_last_of_id(f, n) {
            let targets = targets_exec(block);
            let ghost mid = diag_views(errors@);
            let ghost ts = id_views(targets@);
            let mut m: usize = 0;
            while m < targets.len()
                invariant
                    m <= targets@.len(),
                    n < f.blocks@.len(),
                    block == &f.blocks@[n as int],
                    ts == id_views(targets@),
                    ts == targets_of(f.blocks@[n as int]),
                    diag_views(errors@) == mid + cycle_target_errors(*f, block.identity.0@, ts, m as nat, path@),
                decreases targets@.len() - m,
            {
                if is_first_in(&targets, m) && does_dominate(f, &targets[m], &block.identity)
                    && !is_declared_backedge(f, &block.identity, &targets[m]) {
                    push_diag(errors, "SSA018", path, "SSA cycle is not an exact semantically bounded iteration backedge");
                }
                assert(diag_views(errors@) =~= mid + cycle_target_errors(*f, block.identity.0@, ts, (m + 1) as nat, path@));
                m = m + 1;
            }
            assert(diag_views(errors@) =~= start + cycle_errors(*f, (n + 1) as nat, path@));
        } else {
            assert(diag_views(errors@) =~= start + cycle_errors(*f, (n + 1) as nat, path@));
        }
        n = n + 1;
    }
}

// ---------------------------------------------------------------------
// Bounded iterations.

pub open spec fn type_view(t: IrType) -> Seq<char> {
    match t {
        IrType::Named(s) => s@,
    }
}

fn same_type(a: &IrType, b: &IrType) -> (r: bool)
    ensures
        r == (type_view(*a) == type_view(*b)),
{
    match (a, b) {
        (IrType::Named(x), IrType::Named(y)) => text_eq(x.as_str(), y.as_str()),
    }
}

/// The first block with identity `id`.
pub open spec fn find_block(bs: Seq<SsaBlock>, id: Seq<char>) -> Option<SsaBlock>
    decreases bs.len(),
{
    if bs.len() == 0 {
        None
    } else if bs[0].identity.0@ == id {
        Some(bs[0])
    } else {
        find_block(bs.drop_first(), id)
    }
}

fn find_block_exec(f: &SsaFunction, id: &SemanticId) -> (r: Option<usize>)
    ensures
        match r {
            Some(i) => i < f.blocks@.len() && find_block(f.blocks@, id.0@) == Some(f.blocks@[i as int]),
            None => find_block(f.blocks@, id.0@) is None,
        },
{
    let mut i: usize = 0;
    assert(f.blocks@.skip(0) =~= f.blocks@);
    while i < f.blocks.len()
        invariant
            i <= f.blocks@.len(),
            find_block(f.blocks@, id.0@) == find_block(f.blocks@.skip(i as int), id.0@),
        decreases f.blocks@.len() - i,
    {
        assert(f.blocks@.skip(i as int)[0] == f.blocks@[i as int]);
        assert(f.blocks@.skip(i as int).drop_first() =~= f.blocks@.skip(i + 1));
        if f.blocks[i].identity.same(id) {
            return Some(i);
        }
        i = i + 1;
    }
    None
}

/// All five region blocks of the iteration are blocks of the function.
pub open spec fn region_ok(f: SsaFunction, it: SsaBoundedIteration) -> bool {
    let ids = block_ids(f);
    ids.contains(it.preheader.0@) && ids.contains(it.header.0@) && ids.contains(it.body_entry.0@) && ids.contains(
        it.backedge.0@,
    ) && ids.contains(it.exit.0@)
}

/// The header carries exactly the iteration state and a `u64` counter.
pub open spec fn header_ok(f: SsaFunction, it: SsaBoundedIteration) -> bool {
    find_block(f.blocks@, it.header.0@) matches Some(h) && h.parameters@.len() == 2 && type_view(h.parameters@[0].ty)
        == type_view(it.state_type) && type_view(h.parameters@[1].ty) == "u64"@
}

/// Block `b` is one of the iteration's body blocks.
pub open spec fn in_body(f: SsaFunction, it: SsaBoundedIteration, b: int) -> bool {
    id_views(it.body_blocks@).contains(f.blocks@[b].identity.0@)
}

/// The instruction is a call to `x`.
pub open spec fn calls_to(i: SsaInstruction, x: Seq<char>) -> bool {
    match i.kind {
        SsaInstructionKind::Call { function, .. } => function.0@ == x,
        _ => false,
    }
}

/// The instruction is a call that requires capability `x`.
pub open spec fn requires_cap(i: SsaInstruction, x: Seq<char>) -> bool {
    match i.kind {
        SsaInstructionKind::Call { required_capabilities, .. } => id_views(required_capabilities@).contains(x),
        _ => false,
    }
}

/// Some call in the iteration's body blocks targets `x`.
pub open spec fn body_calls(f: SsaFunction, it: SsaBoundedIteration, x: Seq<char>) -> bool {
    exists|b: int, k: int|
        0 <= b < f.blocks@.len() && in_body(f, it, b) && 0 <= k < f.blocks@[b].instructions@.len() && #[trigger] calls_to(f.blocks@[b].instructions@[k], x)
}

/// Some call in the iteration's body blocks requires capability `x`.
pub open spec fn body_requires(f: SsaFunction, it: SsaBoundedIteration, x: Seq<char>) -> bool {
    exists|b: int, k: int|
        0 <= b < f.blocks@.len() && in_body(f, it, b) && 0 <= k < f.blocks@[b].instructions@.len() && #[trigger] requires_cap(f.blocks@[b].instructions@[k], x)
}

/// The iteration's callees and required capabilities are exactly those of
/// the calls in its body blocks.
pub open spec fn closure_ok(f: SsaFunction, it: SsaBoundedIteration) -> bool {
    (forall|x: Seq<char>| body_calls(f, it, x) <==> id_views(it.callees@).contains(x)) && (forall|x: Seq<char>|
        body_requires(f, it, x) <==> id_views(it.required_capabilities@).contains(x))
}

/// The iteration keeps its six obligations, each one of the module's.
pub open spec fn obligations_ok(it: SsaBoundedIteration, known: Seq<Seq<char>>) -> bool {
    it.obligations@.len() == 6 && forall|i: int| 0 <= i < it.obligations@.len() ==> known.contains(#[trigger] id_views(it.obligations@)[i])
}

/// The errors of one bounded iteration: its ceiling; then a missing region
/// block, or else its header shape, call closure and obligations.
pub open spec fn iteration_errors(
    f: SsaFunction,
    it: SsaBoundedIteration,
    known: Seq<Seq<char>>,
    ceilings: IterationCeilings,
    path: Seq<char>,
) -> Seq<DiagView> {
    let ceiling = match it.domain {
        IterationDomain::Attempts => when(
            !(1 <= it.bound <= ceilings.attempts),
            ("SSA019"@, path, "SSA bounded iteration has an invalid Profile 0.4 ceiling"@),
        ),
        IterationDomain::OverSequence => when(
            it.bound > ceilings.sequence,
            ("SSA019"@, path, "SSA sequence traversal exceeds the declared profile ceiling"@),
        ),
    };
    if !region_ok(f, it) {
        ceiling.push(("SSA020"@, path, "SSA bounded iteration references a missing region block"@))
    } else {
        ceiling + when(!header_ok(f, it), ("SSA021"@, path, "SSA bounded iteration carried state/counter shape is malformed"@))
            + when(!closure_ok(f, it), ("SSA022"@, path, "SSA bounded iteration lost exact call/authority closure"@))
            + when(
            !obligations_ok(it, known),
            ("SSA023"@, path, "SSA bounded iteration lost its bound/resource/authority/state/completion obligations"@),
        )
    }
}

pub open spec fn iterations_errors(f: SsaFunction, n: nat, known: Seq<Seq<char>>, ceilings: IterationCeilings, path: Seq<char>) -> Seq<
    DiagView,
>
    decreases n,
{
    if n == 0 || n > f.bounded_iterations@.len() {
        seq![]
    } else {
        iterations_errors(f, (n - 1) as nat, known, ceilings, path) + iteration_errors(
            f,
            f.bounded_iterations@[n - 1],
            known,
            ceilings,
            path,
        )
    }
}

fn append_ids(out: &mut Vec<SemanticId>, xs: &Vec<SemanticId>)
    ensures
        id_views(final(out)@) == id_views(old(out)@) + id_views(xs@),
{
    let ghost start = id_views(out@);
    let mut i: usize = 0;
    while i < xs.len()
        invariant
            i <= xs@.len(),
            out@.len() == start.len() + i,
            id_views(out@) == start + id_views(xs@).take(i as int),
        decreases xs@.len() - i,
    {
        let ghost prev = out@;
        let x = xs[i].duplicate();
        out.push(x);
        proof {
            assert(out@ == prev.push(x));
            assert forall|q: int| 0 <= q < out@.len() implies #[trigger] id_views(out@)[q] == (start + id_views(xs@).take(i + 1))[q] by {
                if q < prev.len() {
                    assert(out@[q] == prev[q]);
                    assert(id_views(prev)[q] == (start + id_views(xs@).take(i as int))[q]);
                }
            }
            assert(id_views(out@) =~= start + id_views(xs@).take(i + 1));
        }
        i = i + 1;
    }
    assert(id_views(xs@).take(i as int) =~= id_views(xs@));
}

/// Some instruction among the blocks before `b`, and the first `k`
/// instructions of block `b`, lies in one of the iteration's body blocks
/// and satisfies `p`.
pub open spec fn found_upto(f: SsaFunction, it: SsaBoundedIteration, p: spec_fn(SsaInstruction) -> bool, b: int, k: int) -> bool {
    exists|bb: int, kk: int|
        0 <= bb < f.blocks@.len() && in_body(f, it, bb) && 0 <= kk < f.blocks@[bb].instructions@.len() && (bb < b || (bb
            == b && kk < k)) && #[trigger] p(f.blocks@[bb].instructions@[kk])
}

proof fn lemma_found_step(f: SsaFunction, it: SsaBoundedIteration, p: spec_fn(SsaInstruction) -> bool, b: int, k: int)
    requires
        0 <= b < f.blocks@.len(),
        0 <= k < f.blocks@[b].instructions@.len(),
    ensures
        found_upto(f, it, p, b, k + 1) == (found_upto(f, it, p, b, k) || (in_body(f, it, b) && p(
            f.blocks@[b].instructions@[k],
        ))),
{
    if found_upto(f, it, p, b, k + 1) {
        let (bb, kk) = choose|bb: int, kk: int|
            0 <= bb < f.blocks@.len() && in_body(f, it, bb) && 0 <= kk < f.blocks@[bb].instructions@.len() && (bb < b || (
            bb == b && kk < k + 1)) && #[trigger] p(f.blocks@[bb].instructions@[kk]);
        if !(bb == b && kk == k) {
            assert(found_upto(f, it, p, b, k));
        }
    }
    if in_body(f, it, b) && p(f.blocks@[b].instructions@[k]) {
        assert(p(f.blocks@[b].instructions@[k]));
    }
}

proof fn lemma_found_block(f: SsaFunction, it: SsaBoundedIteration, p: spec_fn(SsaInstruction) -> bool, b: int)
    requires
        0 <= b < f.blocks@.len(),
    ensures
        found_upto(f, it, p, b, f.blocks@[b].instructions@.len() as int) == found_upto(f, it, p, b + 1, 0),
{
    if found_upto(f, it, p, b + 1, 0) {
        let (bb, kk) = choose|bb: int, kk: int|
            0 <= bb < f.blocks@.len() && in_body(f, it, bb) && 0 <= kk < f.blocks@[bb].instructions@.len() && (bb < b + 1 || (
            bb == b + 1 && kk < 0)) && #[trigger] p(f.blocks@[bb].instructions@[kk]);
        assert(p(f.blocks@[bb].instructions@[kk]));
    }
    if found_upto(f, it, p, b, f.blocks@[b].instructions@.len() as int) {
        let (bb, kk) = choose|bb: int, kk: int|
            0 <= bb < f.blocks@.len() && in_body(f, it, bb) && 0 <= kk < f.blocks@[bb].instructions@.len() && (bb < b || (
            bb == b && kk < f.blocks@[b].instructions@.len())) && #[trigger] p(f.blocks@[bb].instructions@[kk]);
        assert(p(f.blocks@[bb].instructions@[kk]));
    }
}

proof fn lemma_found_all(f: SsaFunction, it: SsaBoundedIteration, x: Seq<char>)
    ensures
        found_upto(f, it, |i: SsaInstruction| calls_to(i, x), f.blocks@.len() as int, 0) == body_calls(f, it, x),
        found_upto(f, it, |i: SsaInstruction| requires_cap(i, x), f.blocks@.len() as int, 0) == body_requires(f, it, x),
{
    let pc = |i: SsaInstruction| calls_to(i, x);
    let pr = |i: SsaInstruction| requires_cap(i, x);
    if body_calls(f, it, x) {
        let (bb, kk) = choose|bb: int, kk: int|
            0 <= bb < f.blocks@.len() && in_body(f, it, bb) && 0 <= kk < f.blocks@[bb].instructions@.len() && #[trigger] calls_to(f.blocks@[bb].instructions@[kk], x);
        assert(pc(f.blocks@[bb].instructions@[kk]));
    }
    if found_upto(f, it, pc, f.blocks@.len() as int, 0) {
        let (bb, kk) = choose|bb: int, kk: int|
            0 <= bb < f.blocks@.len() && in_body(f, it, bb) && 0 <= kk < f.blocks@[bb].instructions@.len() && (bb < f.blocks@.len() || (
            bb == f.blocks@.len() && kk < 0)) && #[trigger] pc(f.blocks@[bb].instructions@[kk]);
        assert(calls_to(f.blocks@[bb].instructions@[kk], x));
    }
    if body_requires(f, it, x) {
        let (bb, kk) = choose|bb: int, kk: int|
            0 <= bb < f.blocks@.len() && in_body(f, it, bb) && 0 <= kk < f.blocks@[bb].instructions@.len() && #[trigger] requires_cap(f.blocks@[bb].instructions@[kk], x);
        assert(pr(f.blocks@[bb].instructions@[kk]));
    }
    if found_upto(f, it, pr, f.blocks@.len() as int, 0) {
        let (bb, kk) = choose|bb: int, kk: int|
            0 <= bb < f.blocks@.len() && in_body(f, it, bb) && 0 <= kk < f.blocks@[bb].instructions@.len() && (bb < f.blocks@.len() || (
            bb == f.blocks@.len() && kk < 0)) && #[trigger] pr(f.blocks@[bb].instructions@[kk]);
        assert(requires_cap(f.blocks@[bb].instructions@[kk], x));
    }
}

/// The callees and the capabilities required by the calls in the
/// iteration's body blocks.
fn body_closure(f: &SsaFunction, it: &SsaBoundedIteration) -> (r: (Vec<SemanticId>, Vec<SemanticId>))
    ensures
        forall|x: Seq<char>| #![trigger id_views(r.0@).contains(x)] id_views(r.0@).contains(x) <==> body_calls(*f, *it, x),
        forall|x: Seq<char>| #![trigger id_views(r.1@).contains(x)] id_views(r.1@).contains(x) <==> body_requires(*f, *it, x),
{
    let mut callees: Vec<SemanticId> = Vec::new();
    let mut caps: Vec<SemanticId> = Vec::new();
    let mut b: usize = 0;
    while b < f.blocks.len()
        invariant
            b <= f.blocks@.len(),
            forall|x: Seq<char>|
                #![trigger id_views(callees@).contains(x)]
                id_views(callees@).contains(x) <==> found_upto(*f, *it, |i: SsaInstruction| calls_to(i, x), b as int, 0),
            forall|x: Seq<char>|
                #![trigger id_views(caps@).contains(x)]
                id_views(caps@).contains(x) <==> found_upto(*f, *it, |i: SsaInstruction| requires_cap(i, x), b as int, 0),
        decreases f.blocks@.len() - b,
    {
        let block = &f.blocks[b];
        let inside = id_listed(&it.body_blocks, &block.identity);
        let mut k: usize = 0;
        while k < block.instructions.len()
            invariant
                b < f.blocks@.len(),
                block == &f.blocks@[b as int],
                inside == in_body(*f, *it, b as int),
                k <= block.instructions@.len(),
                forall|x: Seq<char>|
                    #![trigger id_views(callees@).contains(x)]
                    id_views(callees@).contains(x) <==> found_upto(*f, *it, |i: SsaInstruction| calls_to(i, x), b as int, k as int),
                forall|x: Seq<char>|
                    #![trigger id_views(caps@).contains(x)]
                    id_views(caps@).contains(x) <==> found_upto(*f, *it, |i: SsaInstruction| requires_cap(i, x), b as int, k as int),
            decreases block.instructions@.len() - k,
        {
            let ghost c0 = id_views(callees@);
            let ghost k0 = id_views(caps@);
            let ghost ins = f.blocks@[b as int].instructions@[k as int];
            assert(ins == block.instructions@[k as int]);
            if inside {
                match &block.instructions[k].kind {
                    SsaInstructionKind::Call { function, required_capabilities } => {
                        callees.push(function.duplicate());
                        append_ids(&mut caps, required_capabilities);
                        proof {
                            assert(id_views(callees@) =~= c0.push(function.0@));
                        }
                    },
                    _ => {},
                }
            }
            proof {
                assert forall|x: Seq<char>|
                    #![trigger id_views(callees@).contains(x)]
                    id_views(callees@).contains(x) <==> found_upto(*f, *it, |i: SsaInstruction| calls_to(i, x), b as int, k + 1) by {
                    lemma_found_step(*f, *it, |i: SsaInstruction| calls_to(i, x), b as int, k as int);
                    assert(c0.contains(x) <==> found_upto(*f, *it, |i: SsaInstruction| calls_to(i, x), b as int, k as int));
                    if inside && ins.kind is Call {
                        if c0.contains(x) {
                            let q = choose|q: int| 0 <= q < c0.len() && c0[q] == x;
                            assert(id_views(callees@)[q] == x);
                        }
                        if id_views(callees@).contains(x) {
                            let q = choose|q: int| 0 <= q < id_views(callees@).len() && id_views(callees@)[q] == x;
                            if q < c0.len() {
                                assert(c0[q] == x);
                            }
                        }
                        if calls_to(ins, x) {
                            assert(id_views(callees@)[c0.len() as int] == x);
                        }
                    }
                }
                assert forall|x: Seq<char>|
                    #![trigger id_views(caps@).contains(x)]
                    id_views(caps@).contains(x) <==> found_upto(*f, *it, |i: SsaInstruction| requires_cap(i, x), b as int, k + 1) by {
                    lemma_found_step(*f, *it, |i: SsaInstruction| requires_cap(i, x), b as int, k as int);
                    assert(k0.contains(x) <==> found_upto(*f, *it, |i: SsaInstruction| requires_cap(i, x), b as int, k as int));
                    if inside && ins.kind is Call {
                        let rv = match ins.kind {
                            SsaInstructionKind::Call { required_capabilities, .. } => id_views(required_capabilities@),
                            _ => seq![],
                        };
                        assert(id_views(caps@) == k0 + rv);
                        if rv.contains(x) {
                            let q = choose|q: int| 0 <= q < rv.len() && rv[q] == x;
                            assert(id_views(caps@)[k0.len() + q] == x);
                        }
                        if k0.contains(x) {
                            let q = choose|q: int| 0 <= q < k0.len() && k0[q] == x;
                            assert(id_views(caps@)[q] == x);
                        }
                        if id_views(caps@).contains(x) {
                            let q = choose|q: int| 0 <= q < id_views(caps@).len() && id_views(caps@)[q] == x;
                            if q < k0.len() {
                                assert(k0[q] == x);
                            } else {
                                assert(rv[q - k0.len()] == x);
                            }
                        }
                    }
                }
            }
            k = k + 1;
        }
        proof {
            assert forall|x: Seq<char>|
                #![trigger id_views(callees@).contains(x)]
                id_views(callees@).contains(x) <==> found_upto(*f, *it, |i: SsaInstruction| calls_to(i, x), b + 1, 0) by {
                lemma_found_block(*f, *it, |i: SsaInstruction| calls_to(i, x), b as int);
            }
            assert forall|x: Seq<char>|
                #![trigger id_views(caps@).contains(x)]
                id_views(caps@).contains(x) <==> found_upto(*f, *it, |i: SsaInstruction| requires_cap(i, x), b + 1, 0) by {
                lemma_found_block(*f, *it, |i: SsaInstruction| requires_cap(i, x), b as int);
            }
        }
        b = b + 1;
    }
    proof {
        assert forall|x: Seq<char>| #![trigger id_views(callees@).contains(x)] id_views(callees@).contains(x) <==> body_calls(*f, *it, x) by {
            lemma_found_all(*f, *it, x);
        }
        assert forall|x: Seq<char>| #![trigger id_views(caps@).contains(x)] id_views(caps@).contains(x) <==> body_requires(*f, *it, x) by {
            lemma_found_all(*f, *it, x);
        }
    }
    (callees, caps)
}

fn same_members(a: &Vec<SemanticId>, b: &Vec<SemanticId>) -> (r: bool)
    ensures
        r == forall|x: Seq<char>| id_views(a@).contains(x) <==> id_views(b@).contains(x),
{
    let mut i: usize = 0;
    while i < a.len()
        invariant
            i <= a@.len(),
            forall|q: int| 0 <= q < i ==> id_views(b@).contains(#[trigger] id_views(a@)[q]),
        decreases a@.len() - i,
    {
        if !id_listed(b, &a[i]) {
            assert(id_views(a@).contains(id_views(a@)[i as int]));
            return false;
        }
        i = i + 1;
    }
    let mut j: usize = 0;
    while j < b.len()
        invariant
            j <= b@.len(),
            forall|q: int| 0 <= q < a@.len() ==> id_views(b@).contains(#[trigger] id_views(a@)[q]),
            forall|q: int| 0 <= q < j ==> id_views(a@).contains(#[trigger] id_views(b@)[q]),
        decreases b@.len() - j,
    {
        if !id_listed(a, &b[j]) {
            assert(id_views(b@).contains(id_views(b@)[j as int]));
            return false;
        }
        j = j + 1;
    }
    proof {
        assert forall|x: Seq<char>| id_views(a@).contains(x) <==> id_views(b@).contains(x) by {
            if id_views(a@).contains(x) {
                let q = choose|q: int| 0 <= q < id_views(a@).len() && id_views(a@)[q] == x;
            }
            if id_views(b@).contains(x) {
                let q = choose|q: int| 0 <= q < id_views(b@).len() && id_views(b@)[q] == x;
            }
        }
    }
    true
}

fn all_known(xs: &Vec<SemanticId>, known: &Vec<SemanticId>) -> (r: bool)
    ensures
        r == forall|i: int| 0 <= i < xs@.len() ==> id_views(known@).contains(#[trigger] id_views(xs@)[i]),
{
    let mut i: usize = 0;
    while i < xs.len()
        invariant
            i <= xs@.len(),
            forall|q: int| 0 <= q < i ==> id_views(known@).contains(#[trigger] id_views(xs@)[q]),
        decreases xs@.len() - i,
    {
        if !id_listed(known, &xs[i]) {
            assert(!id_views(known@).contains(id_views(xs@)[i as int]));
            return false;
        }
        i = i + 1;
    }
    true
}

fn push_iteration_errors(
    errors: &mut Vec<SsaDiagnostic>,
    f: &SsaFunction,
    ids: &Vec<SemanticId>,
    known: &Vec<SemanticId>,
    ceilings: IterationCeilings,
    path: &str,
)
    requires
        id_views(ids@) == block_ids(*f),
    ensures
        diag_views(final(errors)@) == diag_views(old(errors)@) + iterations_errors(
            *f,
            f.bounded_iterations@.len() as nat,
            id_views(known@),
            ceilings,
            path@,
        ),
{
    let ghost start = diag_views(errors@);
    let mut n: usize = 0;
    while n < f.bounded_iterations.len()
        invariant
            n <= f.bounded_iterations@.len(),
            id_views(ids@) == block_ids(*f),
            diag_views(errors@) == start + iterations_errors(*f, n as nat, id_views(known@), ceilings, path@),
        decreases f.bounded_iterations@.len() - n,
    {
        let it = &f.bounded_iterations[n];
        let ghost mid = diag_views(errors@);
        match it.domain {
            IterationDomain::Attempts => {
                if !(1 <= it.bound && it.bound <= ceilings.attempts) {
                    push_diag(errors, "SSA019", path, "SSA bounded iteration has an invalid Profile 0.4 ceiling");
                }
            },
            IterationDomain::OverSequence => {
                if it.bound > ceilings.sequence {
                    push_diag(errors, "SSA019", path, "SSA sequence traversal exceeds the declared profile ceiling");
                }
            },
        }
        let region = id_listed(ids, &it.preheader) && id_listed(ids, &it.header) && id_listed(ids, &it.body_entry)
            && id_listed(ids, &it.backedge) && id_listed(ids, &it.exit);
        if !region {
            push_diag(errors, "SSA020", path, "SSA bounded iteration references a missing region block");
        } else {
            let shape = match find_block_exec(f, &it.header) {
                Some(h) => {
                    let hb = &f.blocks[h];
                    hb.parameters.len() == 2 && same_type(&hb.parameters[0].ty, &it.state_type) && match &hb.parameters[1].ty {
                        IrType::Named(t) => text_eq(t.as_str(), "u64"),
                    }
                },
                None => false,
            };
            if !shape {
                push_diag(errors, "SSA021", path, "SSA bounded iteration carried state/counter shape is malformed");
            }
            let (callees, caps) = body_closure(f, it);
            let closure = same_members(&callees, &it.callees) && same_members(&caps, &it.required_capabilities);
            proof {
                if closure {
                    assert forall|x: Seq<char>| body_calls(*f, *it, x) <==> id_views(it.callees@).contains(x) by {
                        assert(id_views(callees@).contains(x) <==> body_calls(*f, *it, x));
                    }
                    assert forall|x: Seq<char>| body_requires(*f, *it, x) <==> id_views(it.required_capabilities@).contains(x) by {
                        assert(id_views(caps@).contains(x) <==> body_requires(*f, *it, x));
                    }
                } else {
                    if closure_ok(*f, *it) {
                        assert forall|x: Seq<char>| id_views(callees@).contains(x) <==> id_views(it.callees@).contains(x) by {
                            assert(id_views(callees@).contains(x) <==> body_calls(*f, *it, x));
                        }
                        assert forall|x: Seq<char>| id_views(caps@).contains(x) <==> id_views(it.required_capabilities@).contains(x) by {
                            assert(id_views(caps@).contains(x) <==> body_requires(*f, *it, x));
                        }
                    }
                }
            }
            if !closure {
                push_diag(errors, "SSA022", path, "SSA bounded iteration lost exact call/authority closure");
            }
            if !(it.obligations.len() == 6 && all_known(&it.obligations, known)) {
                push_diag(
                    errors,
                    "SSA023",
                    path,
                    "SSA bounded iteration lost its bound/resource/authority/state/completion obligations",
                );
            }
        }
        assert(diag_views(errors@) =~= start + iterations_errors(*f, (n + 1) as nat, id_views(known@), ceilings, path@));
        n = n + 1;
    }
}

// ---------------------------------------------------------------------
// Definitions and availability.

/// A definition: value identity, defining block (none for a function
/// input) and type.
pub type DefView = (Seq<char>, Option<Seq<char>>, Seq<char>);

pub open spec fn value_defs(vs: Seq<SsaValue>, block: Option<Seq<char>>) -> Seq<DefView> {
    vs.map_values(|v: SsaValue| (v.identity.0@, block, type_view(v.ty)))
}

pub open spec fn output_defs(ins: Seq<SsaInstruction>, block: Option<Seq<char>>) -> Seq<DefView>
    decreases ins.len(),
{
    if ins.len() == 0 {
        seq![]
    } else {
        output_defs(ins.drop_last(), block) + value_defs(ins.last().outputs@, block)
    }
}

pub open spec fn blocks_defs(bs: Seq<SsaBlock>) -> Seq<DefView>
    decreases bs.len(),
{
    if bs.len() == 0 {
        seq![]
    } else {
        blocks_defs(bs.drop_last()) + value_defs(bs.last().parameters@, Some(bs.last().identity.0@)) + output_defs(
            bs.last().instructions@,
            Some(bs.last().identity.0@),
        )
    }
}

/// Every definition of the function in order: inputs, then each block's
/// parameters and its instructions' results.
pub open spec fn defs_of(f: SsaFunction) -> Seq<DefView> {
    value_defs(f.inputs@, None) + blocks_defs(f.blocks@)
}

pub open spec fn def_ids(ds: Seq<DefView>) -> Seq<Seq<char>> {
    ds.map_values(|x: DefView| x.0)
}

/// One SSA002 per definition of an identity defined before it.
pub open spec fn duplicate_errors(ds: Seq<DefView>, path: Seq<char>) -> Seq<DiagView>
    decreases ds.len(),
{
    if ds.len() == 0 {
        seq![]
    } else {
        duplicate_errors(ds.drop_last(), path) + when(
            def_ids(ds.drop_last()).contains(ds.last().0),
            ("SSA002"@, path, "duplicate SSA value definition"@),
        )
    }
}

fn copy_type(t: &IrType) -> (r: IrType)
    ensures
        type_view(r) == type_view(*t),
{
    match t {
        IrType::Named(s) => IrType::Named(s.clone()),
    }
}

fn copy_id_opt(o: &Option<SemanticId>) -> (r: Option<SemanticId>)
    ensures
        (opt_view(r)) == (opt_view(*o)),
{
    match o {
        Some(x) => Some(x.duplicate()),
        None => None,
    }
}

pub open spec fn opt_view(o: Option<SemanticId>) -> Option<Seq<char>> {
    match o {
        Some(x) => Some(x.0@),
        None => None,
    }
}

pub open spec fn def_entry_views(v: Seq<(SemanticId, Option<SemanticId>, IrType)>) -> Seq<DefView> {
    v.map_values(
        |e: (SemanticId, Option<SemanticId>, IrType)|
            (
                e.0.0@,
                opt_view(e.1),
                type_view(e.2),
            ),
    )
}

fn push_value_defs(out: &mut Vec<(SemanticId, Option<SemanticId>, IrType)>, vs: &Vec<SsaValue>, block: &Option<SemanticId>)
    ensures
        def_entry_views(final(out)@) == def_entry_views(old(out)@) + value_defs(
            vs@,
            opt_view(*block),
        ),
{
    let ghost bv = opt_view(*block);
    let ghost start = def_entry_views(out@);
    let mut i: usize = 0;
    while i < vs.len()
        invariant
            i <= vs@.len(),
            bv == opt_view(*block),
            out@.len() == start.len() + i,
            def_entry_views(out@) == start + value_defs(vs@, bv).take(i as int),
        decreases vs@.len() - i,
    {
        let ghost prev = out@;
        let e = (vs[i].identity.duplicate(), copy_id_opt(block), copy_type(&vs[i].ty));
        out.push(e);
        proof {
            assert(out@ == prev.push(e));
            assert forall|q: int| 0 <= q < out@.len() implies #[trigger] def_entry_views(out@)[q] == (start + value_defs(vs@, bv).take(i + 1))[q] by {
                if q < prev.len() {
                    assert(out@[q] == prev[q]);
                    assert(def_entry_views(prev)[q] == (start + value_defs(vs@, bv).take(i as int))[q]);
                }
            }
            assert(def_entry_views(out@) =~= start + value_defs(vs@, bv).take(i + 1));
        }
        i = i + 1;
    }
    assert(value_defs(vs@, bv).take(i as int) =~= value_defs(vs@, bv));
}

/// Every definition of the function (see `defs_of`).
fn definitions(f: &SsaFunction) -> (r: Vec<(SemanticId, Option<SemanticId>, IrType)>)
    ensures
        def_entry_views(r@) == defs_of(*f),
{
    let mut out: Vec<(SemanticId, Option<SemanticId>, IrType)> = Vec::new();
    assert(def_entry_views(out@) =~= Seq::<DefView>::empty());
    push_value_defs(&mut out, &f.inputs, &None);
    let ghost base = def_entry_views(out@);
    let mut b: usize = 0;
    while b < f.blocks.len()
        invariant
            b <= f.blocks@.len(),
            base == value_defs(f.inputs@, None),
            def_entry_views(out@) == base + blocks_defs(f.blocks@.take(b as int)),
        decreases f.blocks@.len() - b,
    {
        let block = &f.blocks[b];
        let here = Some(block.identity.duplicate());
        let ghost hv = Some(block.identity.0@);
        push_value_defs(&mut out, &block.parameters, &here);
        let ghost mid = def_entry_views(out@);
        let mut k: usize = 0;
        while k < block.instructions.len()
            invariant
                k <= block.instructions@.len(),
                hv == opt_view(here),
                def_entry_views(out@) == mid + output_defs(block.instructions@.take(k as int), hv),
            decreases block.instructions@.len() - k,
        {
            push_value_defs(&mut out, &block.instructions[k].outputs, &here);
            proof {
                let t = block.instructions@.take(k + 1);
                assert(t.drop_last() =~= block.instructions@.take(k as int));
                assert(t.last() == block.instructions@[k as int]);
            }
            k = k + 1;
        }
        proof {
            assert(block.instructions@.take(k as int) =~= block.instructions@);
            let t = f.blocks@.take(b + 1);
            assert(t.drop_last() =~= f.blocks@.take(b as int));
            assert(t.last() == f.blocks@[b as int]);
            assert(def_entry_views(out@) =~= base + blocks_defs(f.blocks@.take(b + 1)));
        }
        b = b + 1;
    }
    assert(f.blocks@.take(b as int) =~= f.blocks@);
    assert(def_entry_views(out@) =~= defs_of(*f));
    out
}

fn push_duplicate_errors(errors: &mut Vec<SsaDiagnostic>, defs: &Vec<(SemanticId, Option<SemanticId>, IrType)>, path: &str)
    ensures
        diag_views(final(errors)@) == diag_views(old(errors)@) + duplicate_errors(def_entry_views(defs@), path@),
{
    let ghost start = diag_views(errors@);
    let ghost dv = def_entry_views(defs@);
    let mut i: usize = 0;
    while i < defs.len()
        invariant
            i <= defs@.len(),
            dv == def_entry_views(defs@),
            diag_views(errors@) == start + duplicate_errors(dv.take(i as int), path@),
        decreases defs@.len() - i,
    {
        let mut seen = false;
        let mut j: usize = 0;
        while j < i
            invariant
                j <= i < defs@.len(),
                dv == def_entry_views(defs@),
                seen == def_ids(dv.take(j as int)).contains(dv[i as int].0),
            decreases i - j,
        {
            let ghost old_ids = def_ids(dv.take(j as int));
            let ghost target = dv[i as int].0;
            proof {
                assert(def_ids(dv.take(j + 1)) =~= old_ids.push(dv[j as int].0));
                assert(dv[j as int].0 == defs@[j as int].0.0@);
                assert(dv[i as int].0 == defs@[i as int].0.0@);
            }
            if defs[j].0.same(&defs[i].0) {
                seen = true;
            }
            proof {
                let new_ids = def_ids(dv.take(j + 1));
                if old_ids.contains(target) {
                    let q = choose|q: int| 0 <= q < old_ids.len() && old_ids[q] == target;
                    assert(new_ids[q] == target);
                }
                if dv[j as int].0 == target {
                    assert(new_ids[j as int] == target);
                }
                if new_ids.contains(target) {
                    let q = choose|q: int| 0 <= q < new_ids.len() && new_ids[q] == target;
                    if q < j {
                        assert(old_ids[q] == target);
                    }
                }
            }
            j = j + 1;
        }
        proof {
            let t = dv.take(i + 1);
            assert(t.drop_last() =~= dv.take(i as int));
            assert(t.last() == dv[i as int]);
        }
        if seen {
            push_diag(errors, "SSA002", path, "duplicate SSA value definition");
        }
        i = i + 1;
    }
    assert(dv.take(i as int) =~= dv);
}

/// An available value: identity and type.
pub type AvailView = (Seq<char>, Seq<char>);

/// The type of the last available entry for `id`.
pub open spec fn lookup_type(e: Seq<AvailView>, id: Seq<char>) -> Option<Seq<char>>
    decreases e.len(),
{
    if e.len() == 0 {
        None
    } else if e.last().0 == id {
        Some(e.last().1)
    } else {
        lookup_type(e.drop_last(), id)
    }
}

pub open spec fn values_avail(vs: Seq<SsaValue>) -> Seq<AvailView> {
    vs.map_values(|v: SsaValue| (v.identity.0@, type_view(v.ty)))
}

pub open spec fn outputs_avail(ins: Seq<SsaInstruction>) -> Seq<AvailView>
    decreases ins.len(),
{
    if ins.len() == 0 {
        seq![]
    } else {
        outputs_avail(ins.drop_last()) + values_avail(ins.last().outputs@)
    }
}

/// Definition `i` is the last definition of its identity.
pub open spec fn last_def(ds: Seq<DefView>, i: int) -> bool {
    forall|j: int| i < j < ds.len() ==> ds[j].0 != ds[i].0
}

/// The values defined (for the last time) in another block that dominates
/// block `b`, among the first `n` definitions.
pub open spec fn dominating_defs(f: SsaFunction, ds: Seq<DefView>, n: nat, b: Seq<char>) -> Seq<AvailView>
    decreases n,
{
    if n == 0 || n > ds.len() {
        seq![]
    } else {
        dominating_defs(f, ds, (n - 1) as nat, b) + {
            let x = ds[n - 1];
            if last_def(ds, n - 1) && x.1 is Some && x.1.unwrap() != b && dominates(f, x.1.unwrap(), b) {
                seq![(x.0, x.2)]
            } else {
                seq![]
            }
        }
    }
}

/// What is available at the start of block `blk`: the function inputs,
/// the block's parameters, then the values of dominating blocks; a later
/// entry for an identity replaces an earlier one.
pub open spec fn avail_base(f: SsaFunction, blk: SsaBlock) -> Seq<AvailView> {
    values_avail(f.inputs@) + values_avail(blk.parameters@) + dominating_defs(f, defs_of(f), defs_of(f).len(), blk.identity.0@)
}

/// What is available before instruction `k` of block `blk`.
pub open spec fn avail_at(f: SsaFunction, blk: SsaBlock, k: int) -> Seq<AvailView> {
    avail_base(f, blk) + outputs_avail(blk.instructions@.take(k))
}

/// `diag` once for each of `xs` that is not available in `e`.
pub open spec fn per_missing(xs: Seq<Seq<char>>, e: Seq<AvailView>, diag: DiagView) -> Seq<DiagView>
    decreases xs.len(),
{
    if xs.len() == 0 {
        seq![]
    } else {
        per_missing(xs.drop_last(), e, diag) + when(lookup_type(e, xs.last()) is None, diag)
    }
}

/// The capabilities a list of capability uses names.
pub open spec fn capability_views(uses: Seq<CapabilityUse>) -> Seq<Seq<char>> {
    uses.map_values(|u: CapabilityUse| u.capability.0@)
}

fn capability_ids(uses: &Vec<CapabilityUse>) -> (r: Vec<SemanticId>)
    ensures
        id_views(r@) == capability_views(uses@),
{
    let mut out: Vec<SemanticId> = Vec::new();
    let mut i: usize = 0;
    while i < uses.len()
        invariant
            i <= uses@.len(),
            out@.len() == i,
            forall|k: int| 0 <= k < i ==> (#[trigger] out@[k]).0@ == uses@[k].capability.0@,
        decreases uses@.len() - i,
    {
        out.push(uses[i].capability.duplicate());
        i = i + 1;
    }
    assert(id_views(out@) =~= capability_views(uses@));
    out
}

pub open spec fn same_set(a: Seq<Seq<char>>, b: Seq<Seq<char>>) -> bool {
    forall|x: Seq<char>| a.contains(x) <==> b.contains(x)
}

/// The errors of an instruction's kind: integer arithmetic must keep its
/// machine intent and an obligation link; an effect must use a capability;
/// a call must target a semantic function and use exactly the
/// capabilities it requires.
pub open spec fn kind_errors(ins: SsaInstruction, semantic: Seq<Seq<char>>, path: Seq<char>) -> Seq<DiagView> {
    match ins.kind {
        SsaInstructionKind::Integer { .. } => when(
            ins.machine_intent is None,
            ("SSA012"@, path, "integer SSA instruction lost machine intent"@),
        ) + when(ins.obligations@.len() == 0, ("SSA013"@, path, "integer SSA instruction has no obligation link"@)),
        SsaInstructionKind::Effect => when(
            ins.capability_uses@.len() == 0,
            ("SSA010"@, path, "effect SSA instruction has no capability use"@),
        ),
        SsaInstructionKind::Call { function, required_capabilities } => when(
            !semantic.contains(function.0@),
            ("SSA016"@, path, "call SSA instruction targets an unknown semantic function identity"@),
        ) + when(
            !same_set(id_views(required_capabilities@), capability_views(ins.capability_uses@)),
            ("SSA017"@, path, "call SSA instruction does not retain exact required capability uses"@),
        ),
        SsaInstructionKind::Other { .. } => seq![],
    }
}

/// The errors of instruction `k` of block `blk`: each operand that is
/// undefined or not dominated, each unknown obligation, then its kind's.
pub open spec fn instruction_errors(
    f: SsaFunction,
    blk: SsaBlock,
    k: int,
    known: Seq<Seq<char>>,
    semantic: Seq<Seq<char>>,
    path: Seq<char>,
) -> Seq<DiagView> {
    let ins = blk.instructions@[k];
    per_missing(id_views(ins.inputs@), avail_at(f, blk, k), ("SSA006"@, path, "SSA operand is undefined or not dominated"@))
        + per_unknown(id_views(ins.obligations@), known, ("SSA011"@, path, "SSA instruction references an unknown obligation"@))
        + kind_errors(ins, semantic, path)
}

pub open spec fn instructions_errors(
    f: SsaFunction,
    blk: SsaBlock,
    k: nat,
    known: Seq<Seq<char>>,
    semantic: Seq<Seq<char>>,
    path: Seq<char>,
) -> Seq<DiagView>
    decreases k,
{
    if k == 0 || k > blk.instructions@.len() {
        seq![]
    } else {
        instructions_errors(f, blk, (k - 1) as nat, known, semantic, path) + instruction_errors(
            f,
            blk,
            k - 1,
            known,
            semantic,
            path,
        )
    }
}

/// One SSA008 per argument among the first `m` whose available type is not
/// its parameter's.
pub open spec fn argument_errors(params: Seq<SsaValue>, args: Seq<Seq<char>>, e: Seq<AvailView>, m: nat, path: Seq<char>) -> Seq<
    DiagView,
>
    decreases m,
{
    if m == 0 || m > params.len() || m > args.len() {
        seq![]
    } else {
        argument_errors(params, args, e, (m - 1) as nat, path) + when(
            lookup_type(e, args[m - 1]) != Some(type_view(params[m - 1].ty)),
            ("SSA008"@, path, "SSA branch argument type mismatch"@),
        )
    }
}

pub open spec fn min_len(a: nat, b: nat) -> nat {
    if a <= b {
        a
    } else {
        b
    }
}

/// The errors of an edge to `target` with `args`: none when the target is
/// no block; otherwise an arity mismatch with the first block of that
/// identity, then each argument whose type differs.
pub open spec fn edge_errors(f: SsaFunction, target: Seq<char>, args: Seq<Seq<char>>, e: Seq<AvailView>, path: Seq<char>) -> Seq<
    DiagView,
> {
    if !block_ids(f).contains(target) {
        seq![]
    } else {
        match find_block(f.blocks@, target) {
            None => seq![],
            Some(tb) => when(
                tb.parameters@.len() != args.len(),
                ("SSA007"@, path, "SSA branch argument arity does not match block parameters"@),
            ) + argument_errors(tb.parameters@, args, e, min_len(tb.parameters@.len(), args.len()), path),
        }
    }
}

/// The errors of a block's terminator, with `e` available at its end.
pub open spec fn terminator_errors(f: SsaFunction, blk: SsaBlock, e: Seq<AvailView>, path: Seq<char>) -> Seq<DiagView> {
    match blk.terminator {
        SsaTerminator::Return { values } => when(
            values@.len() != f.outputs@.len(),
            ("SSA009"@, path, "SSA return arity mismatch"@),
        ),
        SsaTerminator::Branch { target, arguments } => edge_errors(f, target.0@, id_views(arguments@), e, path),
        SsaTerminator::ConditionalBranch { condition, then_target, then_arguments, else_target, else_arguments } => when(
            lookup_type(e, condition.0@) is None,
            ("SSA006"@, path, "SSA branch condition is undefined"@),
        ) + edge_errors(f, then_target.0@, id_views(then_arguments@), e, path) + edge_errors(
            f,
            else_target.0@,
            id_views(else_arguments@),
            e,
            path,
        ),
        SsaTerminator::Failure => seq![],
    }
}

/// The dataflow errors of the first `n` blocks: each block's instruction
/// errors, then its terminator's.
pub open spec fn blocks_errors(f: SsaFunction, n: nat, known: Seq<Seq<char>>, semantic: Seq<Seq<char>>, path: Seq<char>) -> Seq<
    DiagView,
>
    decreases n,
{
    if n == 0 || n > f.blocks@.len() {
        seq![]
    } else {
        let blk = f.blocks@[n - 1];
        blocks_errors(f, (n - 1) as nat, known, semantic, path) + instructions_errors(
            f,
            blk,
            blk.instructions@.len(),
            known,
            semantic,
            path,
        ) + terminator_errors(f, blk, avail_at(f, blk, blk.instructions@.len() as int), path)
    }
}

pub open spec fn avail_views(v: Seq<(SemanticId, IrType)>) -> Seq<AvailView> {
    v.map_values(|e: (SemanticId, IrType)| (e.0.0@, type_view(e.1)))
}

fn lookup_exec(e: &Vec<(SemanticId, IrType)>, id: &SemanticId) -> (r: Option<usize>)
    ensures
        match r {
            Some(i) => i < e@.len() && lookup_type(avail_views(e@), id.0@) == Some(type_view(e@[i as int].1)),
            None => lookup_type(avail_views(e@), id.0@) is None,
        },
{
    let mut i: usize = e.len();
    assert(avail_views(e@).take(i as int) =~= avail_views(e@));
    while i > 0
        invariant
            i <= e@.len(),
            lookup_type(avail_views(e@), id.0@) == lookup_type(avail_views(e@).take(i as int), id.0@),
        decreases i,
    {
        let ghost t = avail_views(e@).take(i as int);
        assert(t.drop_last() =~= avail_views(e@).take(i - 1));
        assert(t.last() == (e@[i - 1].0.0@, type_view(e@[i - 1].1)));
        if e[i - 1].0.same(id) {
            return Some(i - 1);
        }
        i = i - 1;
    }
    None
}

fn push_values_avail(e: &mut Vec<(SemanticId, IrType)>, vs: &Vec<SsaValue>)
    ensures
        avail_views(final(e)@) == avail_views(old(e)@) + values_avail(vs@),
{
    let ghost start = avail_views(e@);
    let mut i: usize = 0;
    while i < vs.len()
        invariant
            i <= vs@.len(),
            e@.len() == start.len() + i,
            avail_views(e@) == start + values_avail(vs@).take(i as int),
        decreases vs@.len() - i,
    {
        let ghost prev = e@;
        let x = (vs[i].identity.duplicate(), copy_type(&vs[i].ty));
        e.push(x);
        proof {
            assert(e@ == prev.push(x));
            assert forall|q: int| 0 <= q < e@.len() implies #[trigger] avail_views(e@)[q] == (start + values_avail(vs@).take(i + 1))[q] by {
                if q < prev.len() {
                    assert(e@[q] == prev[q]);
                    assert(avail_views(prev)[q] == (start + values_avail(vs@).take(i as int))[q]);
                }
            }
            assert(avail_views(e@) =~= start + values_avail(vs@).take(i + 1));
        }
        i = i + 1;
    }
    assert(values_avail(vs@).take(i as int) =~= values_avail(vs@));
}

/// What is available at the start of block `b` (see `avail_base`).
fn block_base(f: &SsaFunction, defs: &Vec<(SemanticId, Option<SemanticId>, IrType)>, b: usize) -> (r: Vec<(SemanticId, IrType)>)
    requires
        b < f.blocks@.len(),
        def_entry_views(defs@) == defs_of(*f),
    ensures
        avail_views(r@) == avail_base(*f, f.blocks@[b as int]),
{
    let block = &f.blocks[b];
    let mut out: Vec<(SemanticId, IrType)> = Vec::new();
    assert(avail_views(out@) =~= Seq::<AvailView>::empty());
    push_values_avail(&mut out, &f.inputs);
    push_values_avail(&mut out, &block.parameters);
    let ghost head = avail_views(out@);
    let ghost ds = def_entry_views(defs@);
    let mut i: usize = 0;
    while i < defs.len()
        invariant
            i <= defs@.len(),
            b < f.blocks@.len(),
            block == &f.blocks@[b as int],
            ds == def_entry_views(defs@),
            ds == defs_of(*f),
            avail_views(out@) == head + dominating_defs(*f, ds, i as nat, block.identity.0@),
        decreases defs@.len() - i,
    {
        let mut last = true;
        let mut j: usize = i + 1;
        while j < defs.len()
            invariant
                i < j <= defs@.len(),
                ds == def_entry_views(defs@),
                last == forall|q: int| i < q < j ==> ds[q].0 != ds[i as int].0,
            decreases defs@.len() - j,
        {
            proof {
                assert(ds[j as int].0 == defs@[j as int].0.0@);
                assert(ds[i as int].0 == defs@[i as int].0.0@);
            }
            if defs[j].0.same(&defs[i].0) {
                last = false;
            }
            j = j + 1;
        }
        let ghost prev = avail_views(out@);
        let qualifies = last && match &defs[i].1 {
            Some(d) => !d.same(&block.identity) && does_dominate(f, d, &block.identity),
            None => false,
        };
        if qualifies {
            let entry = (defs[i].0.duplicate(), copy_type(&defs[i].2));
            let ghost before = out@;
            out.push(entry);
            proof {
                assert(avail_views(out@) =~= avail_views(before).push((ds[i as int].0, ds[i as int].2)));
            }
        }
        proof {
            assert(ds[i as int].1 == opt_view(defs@[i as int].1));
            assert(avail_views(out@) =~= head + dominating_defs(*f, ds, (i + 1) as nat, block.identity.0@));
        }
        i = i + 1;
    }
    out
}

fn push_per_missing(errors: &mut Vec<SsaDiagnostic>, xs: &Vec<SemanticId>, e: &Vec<(SemanticId, IrType)>, code: &str, path: &str, message: &str)
    ensures
        diag_views(final(errors)@) == diag_views(old(errors)@) + per_missing(id_views(xs@), avail_views(e@), (code@, path@, message@)),
{
    let ghost start = diag_views(errors@);
    let mut i: usize = 0;
    while i < xs.len()
        invariant
            i <= xs@.len(),
            diag_views(errors@) == start + per_missing(id_views(xs@).take(i as int), avail_views(e@), (code@, path@, message@)),
        decreases xs@.len() - i,
    {
        proof {
            assert(id_views(xs@).take(i + 1).drop_last() =~= id_views(xs@).take(i as int));
        }
        if lookup_exec(e, &xs[i]).is_none() {
            push_diag(errors, code, path, message);
        }
        i = i + 1;
    }
    assert(id_views(xs@).take(i as int) =~= id_views(xs@));
}

fn push_kind_errors(errors: &mut Vec<SsaDiagnostic>, ins: &SsaInstruction, semantic: &Vec<SemanticId>, path: &str)
    ensures
        diag_views(final(errors)@) == diag_views(old(errors)@) + kind_errors(*ins, id_views(semantic@), path@),
{
    let ghost start = diag_views(errors@);
    match &ins.kind {
        SsaInstructionKind::Integer { .. } => {
            if ins.machine_intent.is_none() {
                push_diag(errors, "SSA012", path, "integer SSA instruction lost machine intent");
            }
            if ins.obligations.len() == 0 {
                push_diag(errors, "SSA013", path, "integer SSA instruction has no obligation link");
            }
            assert(diag_views(errors@) =~= start + kind_errors(*ins, id_views(semantic@), path@));
        },
        SsaInstructionKind::Effect => {
            if ins.capability_uses.len() == 0 {
                push_diag(errors, "SSA010", path, "effect SSA instruction has no capability use");
            }
            assert(diag_views(errors@) =~= start + kind_errors(*ins, id_views(semantic@), path@));
        },
        SsaInstructionKind::Call { function, required_capabilities } => {
            if !id_listed(semantic, function) {
                push_diag(errors, "SSA016", path, "call SSA instruction targets an unknown semantic function identity");
            }
            let used = capability_ids(&ins.capability_uses);
            if !same_members(required_capabilities, &used) {
                push_diag(errors, "SSA017", path, "call SSA instruction does not retain exact required capability uses");
            }
            assert(diag_views(errors@) =~= start + kind_errors(*ins, id_views(semantic@), path@));
        },
        SsaInstructionKind::Other { .. } => {
            assert(diag_views(errors@) =~= start + kind_errors(*ins, id_views(semantic@), path@));
        },
    }
}

/// The errors of one edge (see `edge_errors`).
fn push_edge_errors(
    errors: &mut Vec<SsaDiagnostic>,
    f: &SsaFunction,
    ids: &Vec<SemanticId>,
    target: &SemanticId,
    args: &Vec<SemanticId>,
    e: &Vec<(SemanticId, IrType)>,
    path: &str,
)
    requires
        id_views(ids@) == block_ids(*f),
    ensures
        diag_views(final(errors)@) == diag_views(old(errors)@) + edge_errors(*f, target.0@, id_views(args@), avail_views(e@), path@),
{
    let ghost start = diag_views(errors@);
    if !id_listed(ids, target) {
        assert(diag_views(errors@) =~= start + edge_errors(*f, target.0@, id_views(args@), avail_views(e@), path@));
        return;
    }
    match find_block_exec(f, target) {
        None => {
            assert(diag_views(errors@) =~= start + edge_errors(*f, target.0@, id_views(args@), avail_views(e@), path@));
        },
        Some(t) => {
            let tb = &f.blocks[t];
            if tb.parameters.len() != args.len() {
                push_diag(errors, "SSA007", path, "SSA branch argument arity does not match block parameters");
            }
            let ghost head = diag_views(errors@);
            let m: usize = if tb.parameters.len() <= args.len() {
                tb.parameters.len()
            } else {
                args.len()
            };
            let ghost params = tb.parameters@;
            let ghost av = id_views(args@);
            let mut i: usize = 0;
            while i < m
                invariant
                    i <= m,
                    m <= tb.parameters@.len(),
                    m <= args@.len(),
                    params == tb.parameters@,
                    av == id_views(args@),
                    diag_views(errors@) == head + argument_errors(params, av, avail_views(e@), i as nat, path@),
                decreases m - i,
            {
                let ok = match lookup_exec(e, &args[i]) {
                    Some(j) => same_type(&e[j].1, &tb.parameters[i].ty),
                    None => false,
                };
                if !ok {
                    push_diag(errors, "SSA008", path, "SSA branch argument type mismatch");
                }
                proof {
                    assert(av[i as int] == args@[i as int].0@);
                }
                assert(diag_views(errors@) =~= head + argument_errors(params, av, avail_views(e@), (i + 1) as nat, path@));
                i = i + 1;
            }
            assert(m as nat == min_len(params.len(), av.len()));
            assert(diag_views(errors@) =~= start + edge_errors(*f, target.0@, id_views(args@), avail_views(e@), path@));
        },
    }
}

fn push_terminator_errors(
    errors: &mut Vec<SsaDiagnostic>,
    f: &SsaFunction,
    ids: &Vec<SemanticId>,
    blk: &SsaBlock,
    e: &Vec<(SemanticId, IrType)>,
    path: &str,
)
    requires
        id_views(ids@) == block_ids(*f),
    ensures
        diag_views(final(errors)@) == diag_views(old(errors)@) + terminator_errors(*f, *blk, avail_views(e@), path@),
{
    let ghost start = diag_views(errors@);
    match &blk.terminator {
        SsaTerminator::Return { values } => {
            if values.len() != f.outputs.len() {
                push_diag(errors, "SSA009", path, "SSA return arity mismatch");
            }
        },
        SsaTerminator::Branch { target, arguments } => {
            push_edge_errors(errors, f, ids, target, arguments, e, path);
        },
        SsaTerminator::ConditionalBranch { condition, then_target, then_arguments, else_target, else_arguments } => {
            if lookup_exec(e, condition).is_none() {
                push_diag(errors, "SSA006", path, "SSA branch condition is undefined");
            }
            push_edge_errors(errors, f, ids, then_target, then_arguments, e, path);
            push_edge_errors(errors, f, ids, else_target, else_arguments, e, path);
        },
        SsaTerminator::Failure => {},
    }
    assert(diag_views(errors@) =~= start + terminator_errors(*f, *blk, avail_views(e@), path@));
}

fn push_instruction_errors(
    errors: &mut Vec<SsaDiagnostic>,
    ins: &SsaInstruction,
    e: &Vec<(SemanticId, IrType)>,
    known: &Vec<SemanticId>,
    semantic: &Vec<SemanticId>,
    path: &str,
)
    ensures
        diag_views(final(errors)@) == diag_views(old(errors)@) + per_missing(
            id_views(ins.inputs@),
            avail_views(e@),
            ("SSA006"@, path@, "SSA operand is undefined or not dominated"@),
        ) + per_unknown(id_views(ins.obligations@), id_views(known@), ("SSA011"@, path@, "SSA instruction references an unknown obligation"@))
            + kind_errors(*ins, id_views(semantic@), path@),
{
    let ghost start = diag_views(errors@);
    push_per_missing(errors, &ins.inputs, e, "SSA006", path, "SSA operand is undefined or not dominated");
    push_per_unknown(errors, &ins.obligations, known, "SSA011", path, "SSA instruction references an unknown obligation");
    push_kind_errors(errors, ins, semantic, path);
    assert(diag_views(errors@) =~= start + per_missing(
        id_views(ins.inputs@),
        avail_views(e@),
        ("SSA006"@, path@, "SSA operand is undefined or not dominated"@),
    ) + per_unknown(id_views(ins.obligations@), id_views(known@), ("SSA011"@, path@, "SSA instruction references an unknown obligation"@))
        + kind_errors(*ins, id_views(semantic@), path@));
}

/// The dataflow errors of block `b` (see `blocks_errors`).
fn push_block_errors(
    errors: &mut Vec<SsaDiagnostic>,
    f: &SsaFunction,
    defs: &Vec<(SemanticId, Option<SemanticId>, IrType)>,
    ids: &Vec<SemanticId>,
    b: usize,
    known: &Vec<SemanticId>,
    semantic: &Vec<SemanticId>,
    path: &str,
)
    requires
        b < f.blocks@.len(),
        def_entry_views(defs@) == defs_of(*f),
        id_views(ids@) == block_ids(*f),
    ensures
        diag_views(final(errors)@) == diag_views(old(errors)@) + instructions_errors(
            *f,
            f.blocks@[b as int],
            f.blocks@[b as int].instructions@.len(),
            id_views(known@),
            id_views(semantic@),
            path@,
        ) + terminator_errors(*f, f.blocks@[b as int], avail_at(*f, f.blocks@[b as int], f.blocks@[b as int].instructions@.len() as int), path@),
{
    let ghost start = diag_views(errors@);
    let blk = &f.blocks[b];
    let mut e = block_base(f, defs, b);
    assert(blk.instructions@.take(0) =~= Seq::<SsaInstruction>::empty());
    assert(avail_views(e@) =~= avail_at(*f, *blk, 0));
    let mut k: usize = 0;
    while k < blk.instructions.len()
        invariant
            k <= blk.instructions@.len(),
            blk == &f.blocks@[b as int],
            avail_views(e@) == avail_at(*f, *blk, k as int),
            diag_views(errors@) == start + instructions_errors(*f, *blk, k as nat, id_views(known@), id_views(semantic@), path@),
        decreases blk.instructions@.len() - k,
    {
        let ins = &blk.instructions[k];
        push_instruction_errors(errors, ins, &e, known, semantic, path);
        assert(diag_views(errors@) =~= start + instructions_errors(*f, *blk, (k + 1) as nat, id_views(known@), id_views(semantic@), path@));
        push_values_avail(&mut e, &ins.outputs);
        proof {
            let t = blk.instructions@.take(k + 1);
            assert(t.drop_last() =~= blk.instructions@.take(k as int));
            assert(t.last() == *ins);
            assert(outputs_avail(t) == outputs_avail(blk.instructions@.take(k as int)) + values_avail(ins.outputs@));
            assert(avail_views(e@) =~= avail_at(*f, *blk, (k + 1) as int));
        }
        k = k + 1;
    }
    assert(blk.instructions@.take(k as int) =~= blk.instructions@);
    push_terminator_errors(errors, f, ids, blk, &e, path);
    assert(diag_views(errors@) =~= start + instructions_errors(
        *f,
        *blk,
        blk.instructions@.len(),
        id_views(known@),
        id_views(semantic@),
        path@,
    ) + terminator_errors(*f, *blk, avail_at(*f, *blk, blk.instructions@.len() as int), path@));
}

// ---------------------------------------------------------------------
// Functions and the module.

/// Every error of function `f`, in the order the checks run: duplicate
/// block identities, unknown targets, unreachable blocks, unbounded cycles
/// (under the bounded-iteration-only policy), bounded iterations,
/// duplicate definitions, then each block's dataflow.
pub open spec fn function_errors(
    f: SsaFunction,
    known: Seq<Seq<char>>,
    semantic: Seq<Seq<char>>,
    ceilings: IterationCeilings,
    path: Seq<char>,
) -> Seq<DiagView> {
    let n = f.blocks@.len() as nat;
    when(!distinct(block_ids(f)), ("SSA003"@, path, "SSA block identities must be unique"@))
        + unknown_target_errors(f, n, path)
        + unreachable_errors(f, n, path)
        + (if f.cycle_policy == BodyCyclePolicy::BoundedIterationOnly {
        cycle_errors(f, n, path)
    } else {
        seq![]
    })
        + iterations_errors(f, f.bounded_iterations@.len() as nat, known, ceilings, path)
        + duplicate_errors(defs_of(f), path)
        + blocks_errors(f, n, known, semantic, path)
}

#[verifier::spinoff_prover]
#[verifier::rlimit(40)]
fn validate_function(
    errors: &mut Vec<SsaDiagnostic>,
    f: &SsaFunction,
    known: &Vec<SemanticId>,
    semantic: &Vec<SemanticId>,
    ceilings: IterationCeilings,
    path: &str,
)
    ensures
        diag_views(final(errors)@) == diag_views(old(errors)@) + function_errors(
            *f,
            id_views(known@),
            id_views(semantic@),
            ceilings,
            path@,
        ),
{
    let ghost start = diag_views(errors@);
    if !distinct_ids(f) {
        push_diag(errors, "SSA003", path, "SSA block identities must be unique");
    }
    let ids = block_id_list(f);
    push_unknown_targets(errors, f, &ids, path);
    push_unreachable(errors, f, path);
    match f.cycle_policy {
        BodyCyclePolicy::BoundedIterationOnly => push_cycle_errors(errors, f, path),
        BodyCyclePolicy::Legacy => {},
    }
    push_iteration_errors(errors, f, &ids, known, ceilings, path);
    let defs = definitions(f);
    push_duplicate_errors(errors, &defs, path);
    let ghost s6 = diag_views(errors@);
    let mut b: usize = 0;
    while b < f.blocks.len()
        invariant
            b <= f.blocks@.len(),
            def_entry_views(defs@) == defs_of(*f),
            id_views(ids@) == block_ids(*f),
            diag_views(errors@) == s6 + blocks_errors(*f, b as nat, id_views(known@), id_views(semantic@), path@),
        decreases f.blocks@.len() - b,
    {
        push_block_errors(errors, f, &defs, &ids, b, known, semantic, path);
        assert(diag_views(errors@) =~= s6 + blocks_errors(*f, (b + 1) as nat, id_views(known@), id_views(semantic@), path@));
        b = b + 1;
    }
    assert(diag_views(errors@) =~= start + function_errors(*f, id_views(known@), id_views(semantic@), ceilings, path@));
}

pub open spec fn function_path(i: nat) -> Seq<char> {
    "functions["@ + decimal(i) + "]"@
}

pub open spec fn trace_path(i: nat) -> Seq<char> {
    "trace.entries["@ + decimal(i) + "]"@
}

pub open spec fn function_ids(fs: Seq<SsaFunction>) -> Seq<Seq<char>> {
    fs.map_values(|f: SsaFunction| f.identity.0@)
}

/// The semantic identities of the module's functions: what a call may target.
pub open spec fn semantic_ids(m: SsaModule) -> Seq<Seq<char>> {
    m.functions@.map_values(|f: SsaFunction| f.semantic_identity.0@)
}

/// The identities of the module's obligations.
pub open spec fn obligation_ids(m: SsaModule) -> Seq<Seq<char>> {
    m.obligations@.map_values(|o: ObligationRecord| o.identity.0@)
}

pub open spec fn trace_keys(es: Seq<SsaTraceEntry>) -> Seq<Seq<char>> {
    es.map_values(|e: SsaTraceEntry| e.semantic_identity.0@)
}

/// The errors of the first `n` functions: a repeated function identity,
/// then the function's own.
pub open spec fn functions_errors(m: SsaModule, n: nat, ceilings: IterationCeilings) -> Seq<DiagView>
    decreases n,
{
    if n == 0 || n > m.functions@.len() {
        seq![]
    } else {
        let f = m.functions@[n - 1];
        functions_errors(m, (n - 1) as nat, ceilings) + when(
            function_ids(m.functions@.take(n - 1)).contains(f.identity.0@),
            ("SSA001"@, function_path((n - 1) as nat), "duplicate SSA function identity"@),
        ) + function_errors(f, obligation_ids(m), semantic_ids(m), ceilings, function_path((n - 1) as nat))
    }
}

/// The errors of the first `n` trace entries: a repeated semantic
/// identity, then an entry that keeps no SSA identity.
pub open spec fn trace_errors(es: Seq<SsaTraceEntry>, n: nat) -> Seq<DiagView>
    decreases n,
{
    if n == 0 || n > es.len() {
        seq![]
    } else {
        let e = es[n - 1];
        trace_errors(es, (n - 1) as nat) + when(
            trace_keys(es.take(n - 1)).contains(e.semantic_identity.0@),
            ("SSA014"@, trace_path((n - 1) as nat), "duplicate SSA trace semantic identity"@),
        ) + when(
            e.ssa_identities@.len() == 0,
            ("SSA015"@, trace_path((n - 1) as nat), "SSA trace entry must retain an SSA identity"@),
        )
    }
}

/// Every error that validation reports for module `m`.
pub open spec fn ssa_errors(m: SsaModule, ceilings: IterationCeilings) -> Seq<DiagView> {
    functions_errors(m, m.functions@.len() as nat, ceilings) + trace_errors(m.trace.entries@, m.trace.entries@.len() as nat)
}

proof fn lemma_push_id(before: Seq<SemanticId>, x: SemanticId)
    ensures
        id_views(before.push(x)) == id_views(before).push(x.0@),
{
    assert(id_views(before.push(x)) =~= id_views(before).push(x.0@));
}

fn indexed_path(prefix: &str, i: usize) -> (r: String)
    ensures
        r@ == prefix@ + decimal(i as nat) + "]"@,
{
    let mut p = String::from_str(prefix);
    push_decimal(&mut p, i as u64);
    p.append("]");
    p
}

impl SsaModule {
    /// Validates the module against its structural rules, with the
    /// profile's iteration ceilings: the report lists every error found,
    /// and is valid exactly when there is none.
    pub fn validate(&self, ceilings: IterationCeilings) -> (r: SsaValidationReport)
        ensures
            diag_views(r.errors@) == ssa_errors(*self, ceilings),
            r.valid == (r.errors@.len() == 0),
    {
        let mut errors: Vec<SsaDiagnostic> = Vec::new();
        let mut known: Vec<SemanticId> = Vec::new();
        let mut i: usize = 0;
        while i < self.obligations.len()
            invariant
                i <= self.obligations@.len(),
                id_views(known@) == obligation_ids(*self).take(i as int),
            decreases self.obligations@.len() - i,
        {
            let ghost prev = known@;
            known.push(self.obligations[i].identity.duplicate());
            proof {
                lemma_push_id(prev, known@.last());
                assert(obligation_ids(*self).take(i + 1) =~= obligation_ids(*self).take(i as int).push(obligation_ids(*self)[i as int]));
            }
            i = i + 1;
        }
        assert(obligation_ids(*self).take(i as int) =~= obligation_ids(*self));
        let mut semantic: Vec<SemanticId> = Vec::new();
        let mut seen: Vec<SemanticId> = Vec::new();
        let mut i: usize = 0;
        while i < self.functions.len()
            invariant
                i <= self.functions@.len(),
                id_views(semantic@) == semantic_ids(*self).take(i as int),
                id_views(seen@) == function_ids(self.functions@.take(i as int)),
            decreases self.functions@.len() - i,
        {
            let ghost p1 = semantic@;
            let ghost p2 = seen@;
            semantic.push(self.functions[i].semantic_identity.duplicate());
            seen.push(self.functions[i].identity.duplicate());
            proof {
                lemma_push_id(p1, semantic@.last());
                lemma_push_id(p2, seen@.last());
                assert(semantic_ids(*self).take(i + 1) =~= semantic_ids(*self).take(i as int).push(semantic_ids(*self)[i as int]));
                assert(self.functions@.take(i + 1) =~= self.functions@.take(i as int).push(self.functions@[i as int]));
                assert(function_ids(self.functions@.take(i + 1)) =~= function_ids(self.functions@.take(i as int)).push(
                    self.functions@[i as int].identity.0@,
                ));
            }
            i = i + 1;
        }
        assert(semantic_ids(*self).take(i as int) =~= semantic_ids(*self));
        assert(diag_views(errors@) =~= Seq::<DiagView>::empty());
        let mut seen: Vec<SemanticId> = Vec::new();
        let mut i: usize = 0;
        while i < self.functions.len()
            invariant
                i <= self.functions@.len(),
                id_views(known@) == obligation_ids(*self),
                id_views(semantic@) == semantic_ids(*self),
                id_views(seen@) == function_ids(self.functions@.take(i as int)),
                diag_views(errors@) == functions_errors(*self, i as nat, ceilings),
            decreases self.functions@.len() - i,
        {
            let f = &self.functions[i];
            let path = indexed_path("functions[", i);
            assert(path@ == function_path(i as nat));
            if id_listed(&seen, &f.identity) {
                push_diag(&mut errors, "SSA001", path.as_str(), "duplicate SSA function identity");
            }
            validate_function(&mut errors, f, &known, &semantic, ceilings, path.as_str());
            let ghost p2 = seen@;
            seen.push(f.identity.duplicate());
            proof {
                lemma_push_id(p2, seen@.last());
                assert(self.functions@.take(i + 1) =~= self.functions@.take(i as int).push(self.functions@[i as int]));
                assert(function_ids(self.functions@.take(i + 1)) =~= function_ids(self.functions@.take(i as int)).push(
                    self.functions@[i as int].identity.0@,
                ));
            }
            assert(diag_views(errors@) =~= functions_errors(*self, (i + 1) as nat, ceilings));
            i = i + 1;
        }
        let ghost head = diag_views(errors@);
        let mut keys: Vec<SemanticId> = Vec::new();
        let mut i: usize = 0;
        while i < self.trace.entries.len()
            invariant
                i <= self.trace.entries@.len(),
                id_views(keys@) == trace_keys(self.trace.entries@.take(i as int)),
                diag_views(errors@) == head + trace_errors(self.trace.entries@, i as nat),
            decreases self.trace.entries@.len() - i,
        {
            let e = &self.trace.entries[i];
            let path = indexed_path("trace.entries[", i);
            assert(path@ == trace_path(i as nat));
            if id_listed(&keys, &e.semantic_identity) {
                push_diag(&mut errors, "SSA014", path.as_str(), "duplicate SSA trace semantic identity");
            }
            if e.ssa_identities.len() == 0 {
                push_diag(&mut errors, "SSA015", path.as_str(), "SSA trace entry must retain an SSA identity");
            }
            let ghost p3 = keys@;
            keys.push(e.semantic_identity.duplicate());
            proof {
                lemma_push_id(p3, keys@.last());
                assert(self.trace.entries@.take(i + 1) =~= self.trace.entries@.take(i as int).push(self.trace.entries@[i as int]));
                assert(trace_keys(self.trace.entries@.take(i + 1)) =~= trace_keys(self.trace.entries@.take(i as int)).push(
                    self.trace.entries@[i as int].semantic_identity.0@,
                ));
            }
            assert(diag_views(errors@) =~= head + trace_errors(self.trace.entries@, (i + 1) as nat));
            i = i + 1;
        }
        let valid = errors.len() == 0;
        SsaValidationReport { valid, errors }
    }
}

// ---------------------------------------------------------------------
// Evidence-gated elision of one overflow check.

/// A verifier result that permits dropping the overflow check of
/// `operation` under `obligation`: an exact, current, verifier-authority
/// PASS for that obligation and subject, scoped to the operation and
/// depending on it.
pub open spec fn elision_evidence(r: VerifierResult, operation: Seq<char>, obligation: Seq<char>) -> bool {
    &&& r.obligation.0@ == obligation
    &&& r.subject.0@ == operation
    &&& r.scope@ == operation
    &&& r.status == ObligationStatus::Pass
    &&& r.freshness == EvidenceFreshness::Current
    &&& r.authority == EvidenceAuthorityClass::Verifier
    &&& id_views(r.dependencies@).contains(operation)
}

pub open spec fn elision_eligible(evidence: Seq<VerifierResult>, operation: Seq<char>, obligation: Seq<char>) -> bool {
    exists|k: int| 0 <= k < evidence.len() && elision_evidence(#[trigger] evidence[k], operation, obligation)
}

/// The kind of `i` once checked integer arithmetic lowering `operation`
/// wraps instead.
pub open spec fn elided_kind(i: SsaInstruction, operation: Seq<char>) -> SsaInstructionKind {
    match i.kind {
        SsaInstructionKind::Integer { operator, operand_type, intent } => if intent == ArithmeticIntent::Checked
            && opt_view(i.semantic_identity) == Some(operation) {
            SsaInstructionKind::Integer { operator, operand_type, intent: ArithmeticIntent::Wrapping }
        } else {
            i.kind
        },
        _ => i.kind,
    }
}

pub open spec fn elided_instruction(i: SsaInstruction, operation: Seq<char>) -> SsaInstruction {
    SsaInstruction { kind: elided_kind(i, operation), ..i }
}

/// `b` is block `a` with its instructions elided.
pub open spec fn elided_block(a: SsaBlock, b: SsaBlock, operation: Seq<char>) -> bool {
    &&& b.identity == a.identity
    &&& b.semantic_identity == a.semantic_identity
    &&& b.path == a.path
    &&& b.parameters == a.parameters
    &&& b.terminator == a.terminator
    &&& b.failure_target == a.failure_target
    &&& b.instructions@ == a.instructions@.map_values(|i: SsaInstruction| elided_instruction(i, operation))
}

/// `g` is function `f` with every block elided.
pub open spec fn elided_function(f: SsaFunction, g: SsaFunction, operation: Seq<char>) -> bool {
    &&& g.identity == f.identity
    &&& g.semantic_identity == f.semantic_identity
    &&& g.inputs == f.inputs
    &&& g.outputs == f.outputs
    &&& g.cycle_policy == f.cycle_policy
    &&& g.bounded_iterations == f.bounded_iterations
    &&& g.blocks@.len() == f.blocks@.len()
    &&& forall|k: int| 0 <= k < f.blocks@.len() ==> elided_block(#[trigger] f.blocks@[k], g.blocks@[k], operation)
}

fn elide_instruction(ins: SsaInstruction, operation: &SemanticId) -> (r: SsaInstruction)
    ensures
        r == elided_instruction(ins, operation.0@),
{
    let SsaInstruction {
        identity,
        semantic_identity,
        kind,
        inputs,
        outputs,
        hir_identity,
        effects,
        capability_uses,
        contracts,
        assumptions,
        evidence,
        machine_intent,
        obligations,
    } = ins;
    let hit = match &semantic_identity {
        Some(s) => s.same(operation),
        None => false,
    };
    let kind = match kind {
        SsaInstructionKind::Integer { operator, operand_type, intent } => {
            let checked = match intent {
                ArithmeticIntent::Checked => true,
                _ => false,
            };
            if hit && checked {
                SsaInstructionKind::Integer { operator, operand_type, intent: ArithmeticIntent::Wrapping }
            } else {
                SsaInstructionKind::Integer { operator, operand_type, intent }
            }
        },
        other => other,
    };
    SsaInstruction {
        identity,
        semantic_identity,
        hir_identity,
        kind,
        inputs,
        outputs,
        effects,
        capability_uses,
        contracts,
        assumptions,
        evidence,
        machine_intent,
        obligations,
    }
}

fn elide_block(block: SsaBlock, operation: &SemanticId) -> (r: SsaBlock)
    ensures
        elided_block(block, r, operation.0@),
{
    let SsaBlock { identity, semantic_identity, path, parameters, instructions, terminator, failure_target } = block;
    let ghost all = instructions@;
    let mut rest = instructions;
    let mut out: Vec<SsaInstruction> = Vec::new();
    assert(all.skip(0) =~= all);
    while rest.len() > 0
        invariant
            out@.len() + rest@.len() == all.len(),
            rest@ == all.skip(out@.len() as int),
            out@ == all.take(out@.len() as int).map_values(|i: SsaInstruction| elided_instruction(i, operation.0@)),
        decreases rest@.len(),
    {
        let ghost n = out@.len() as int;
        let x = rest.remove(0);
        proof {
            assert(x == all[n]);
            assert(rest@ =~= all.skip(n + 1));
        }
        let y = elide_instruction(x, operation);
        out.push(y);
        proof {
            assert(out@ =~= all.take(n + 1).map_values(|i: SsaInstruction| elided_instruction(i, operation.0@)));
        }
    }
    assert(all.take(all.len() as int) =~= all);
    SsaBlock { identity, semantic_identity, path, parameters, instructions: out, terminator, failure_target }
}

fn elide_function(f: SsaFunction, operation: &SemanticId) -> (r: SsaFunction)
    ensures
        elided_function(f, r, operation.0@),
{
    let SsaFunction { identity, semantic_identity, inputs, outputs, cycle_policy, bounded_iterations, blocks } = f;
    let ghost all = blocks@;
    let mut rest = blocks;
    let mut out: Vec<SsaBlock> = Vec::new();
    assert(all.skip(0) =~= all);
    while rest.len() > 0
        invariant
            out@.len() + rest@.len() == all.len(),
            rest@ == all.skip(out@.len() as int),
            forall|k: int| 0 <= k < out@.len() ==> elided_block(#[trigger] all[k], out@[k], operation.0@),
        decreases rest@.len(),
    {
        let ghost n = out@.len() as int;
        let x = rest.remove(0);
        proof {
            assert(x == all[n]);
            assert(rest@ =~= all.skip(n + 1));
        }
        let y = elide_block(x, operation);
        out.push(y);
    }
    SsaFunction { identity, semantic_identity, inputs, outputs, cycle_policy, bounded_iterations, blocks: out }
}

fn elide_functions(functions: Vec<SsaFunction>, operation: &SemanticId) -> (r: Vec<SsaFunction>)
    ensures
        r@.len() == functions@.len(),
        forall|k: int| 0 <= k < functions@.len() ==> elided_function(#[trigger] functions@[k], r@[k], operation.0@),
{
    let ghost all = functions@;
    let mut rest = functions;
    let mut out: Vec<SsaFunction> = Vec::new();
    assert(all.skip(0) =~= all);
    while rest.len() > 0
        invariant
            out@.len() + rest@.len() == all.len(),
            rest@ == all.skip(out@.len() as int),
            forall|k: int| 0 <= k < out@.len() ==> elided_function(#[trigger] all[k], out@[k], operation.0@),
        decreases rest@.len(),
    {
        let ghost n = out@.len() as int;
        let x = rest.remove(0);
        proof {
            assert(x == all[n]);
            assert(rest@ =~= all.skip(n + 1));
        }
        let y = elide_function(x, operation);
        out.push(y);
    }
    out
}

/// The identity of the module an elision produces.
pub open spec fn elided_module_identity(module: Seq<char>, operation: Seq<char>, obligation: Seq<char>) -> Seq<char> {
    "mncs:0.4:ssa:transformed:"@ + sha256_hex_of(
        vstd::utf8::encode_utf8(module + ":"@ + operation + ":"@ + obligation),
    )
}

/// The artifact of the first result for `obligation`, when it names one.
pub open spec fn first_artifact(evidence: Seq<VerifierResult>, obligation: Seq<char>) -> Option<Seq<char>>
    decreases evidence.len(),
{
    if evidence.len() == 0 {
        None
    } else if evidence[0].obligation.0@ == obligation {
        match evidence[0].artifact {
            Some(a) => Some(a@),
            None => None,
        }
    } else {
        first_artifact(evidence.drop_first(), obligation)
    }
}

pub const ELISION_RULE: &'static str = "evidence-gated-no-overflow-elision";

pub const ELISION_IMPLEMENTATION: &'static str = "mncs:0.4:transformation:evidence-gated";

/// The decision of an attempted transformation: whether it was permitted,
/// the resulting module, its provenance record and why.
#[derive(Debug, Clone, PartialEq, Eq)]
pub struct SsaTransformationDecision {
    pub permitted: bool,
    pub module: SsaModule,
    pub record: TransformationRecord,
    pub reason: String,
}

fn artifact_of(evidence: &[VerifierResult], obligation: &SemanticId) -> (r: Option<String>)
    ensures
        match r {
            Some(a) => first_artifact(evidence@, obligation.0@) == Some(a@),
            None => first_artifact(evidence@, obligation.0@) is None,
        },
{
    let mut i: usize = 0;
    assert(evidence@.skip(0) =~= evidence@);
    while i < evidence.len()
        invariant
            i <= evidence@.len(),
            first_artifact(evidence@, obligation.0@) == first_artifact(evidence@.skip(i as int), obligation.0@),
        decreases evidence@.len() - i,
    {
        assert(evidence@.skip(i as int)[0] == evidence@[i as int]);
        assert(evidence@.skip(i as int).drop_first() =~= evidence@.skip(i + 1));
        if evidence[i].obligation.same(obligation) {
            return match &evidence[i].artifact {
                Some(a) => Some(a.clone()),
                None => None,
            };
        }
        i = i + 1;
    }
    None
}

fn is_elision_evidence(r: &VerifierResult, operation: &SemanticId, obligation: &SemanticId) -> (b: bool)
    ensures
        b == elision_evidence(*r, operation.0@, obligation.0@),
{
    r.obligation.same(obligation) && r.subject.same(operation) && text_eq(r.scope.as_str(), operation.0.as_str())
        && matches!(r.status, ObligationStatus::Pass) && matches!(r.freshness, EvidenceFreshness::Current)
        && matches!(r.authority, EvidenceAuthorityClass::Verifier) && id_listed(&r.dependencies, operation)
}

impl SsaModule {
    /// Permit one deliberately narrow evidence-gated experiment: the checked
    /// integer operations lowering `operation` wrap instead, only when an
    /// exact current verifier PASS is bound to that operation and
    /// obligation. The module is consumed; a refused attempt hands it back
    /// unchanged, with a record that withholds the promise.
    pub fn attempt_no_overflow_elision(
        self,
        operation: &SemanticId,
        obligation: &SemanticId,
        evidence: &[VerifierResult],
    ) -> (r: SsaTransformationDecision)
        ensures
            r.permitted == elision_eligible(evidence@, operation.0@, obligation.0@),
            r.module.schema_version == self.schema_version,
            r.module.obligations == self.obligations,
            r.module.trace == self.trace,
            r.module.semantic_identity == self.semantic_identity,
            r.module.hir_fingerprint == self.hir_fingerprint,
            r.module.record_types == self.record_types,
            r.module.transformations == self.transformations,
            r.module.proof_relationships == self.proof_relationships,
            r.module.functions@.len() == self.functions@.len(),
            r.permitted ==> r.module.identity.0@ == elided_module_identity(self.identity.0@, operation.0@, obligation.0@),
            r.permitted ==> forall|k: int|
                0 <= k < self.functions@.len() ==> elided_function(#[trigger] self.functions@[k], r.module.functions@[k], operation.0@),
            !r.permitted ==> r.module == self,
            forall|c: IterationCeilings| #[trigger] ssa_errors(r.module, c) == ssa_errors(self, c),
            r.record.schema_version@ == crate::provenance::PROVENANCE_SCHEMA_VERSION@,
            r.record.identity.0@ == transformation_identity(
                self.identity,
                r.module.identity,
                ELISION_RULE@,
                *operation,
                r.record.target,
                r.record.implementation,
            ),
            r.record.input_identity.0@ == self.identity.0@,
            r.record.output_identity.0@ == r.module.identity.0@,
            r.record.rule@ == ELISION_RULE@,
            r.record.operation.0@ == operation.0@,
            r.record.realization is None,
            id_views(r.record.obligations_required@) == seq![obligation.0@],
            r.record.runtime_checks_inserted@.len() == 0,
            r.record.facts_established@.len() == 0,
            r.record.invalidated_evidence@.len() == 0,
            crate::proof_transport::evidence_target(r.record.target),
            r.record.implementation.0@ == ELISION_IMPLEMENTATION@,
            r.permitted ==> texts(r.record.backend_promises_permitted@) == seq!["no-overflow"@]
                && r.record.backend_promises_withheld@.len() == 0,
            !r.permitted ==> texts(r.record.backend_promises_withheld@) == seq!["no-overflow"@]
                && r.record.backend_promises_permitted@.len() == 0,
            id_views(r.record.evidence_consumed@) == (if r.permitted && first_artifact(evidence@, obligation.0@) is Some {
                seq![first_artifact(evidence@, obligation.0@).unwrap()]
            } else {
                seq![]
            }),
            r.reason@ == (if r.permitted {
                "exact current verifier PASS permits the bounded transformation"@
            } else {
                "missing exact current verifier PASS conservatively withholds the transformation"@
            }),
    {
        let mut eligible = false;
        let mut i: usize = 0;
        while i < evidence.len()
            invariant
                i <= evidence@.len(),
                eligible == exists|k: int| 0 <= k < i && elision_evidence(#[trigger] evidence@[k], operation.0@, obligation.0@),
            decreases evidence@.len() - i,
        {
            if is_elision_evidence(&evidence[i], operation, obligation) {
                eligible = true;
            }
            i = i + 1;
        }
        let input_identity = self.identity.duplicate();
        let ghost before = self;
        let module = if eligible {
            let mut seed = String::from_str(self.identity.0.as_str());
            seed.append(":");
            seed.append(operation.0.as_str());
            seed.append(":");
            seed.append(obligation.0.as_str());
            let digest = sha256_hex(seed.as_str().as_bytes());
            let identity = SemanticId(String::from_str("mncs:0.4:ssa:transformed:").concat(digest.as_str()));
            let SsaModule {
                schema_version,
                identity: _,
                semantic_identity,
                hir_fingerprint,
                record_types,
                functions,
                obligations,
                trace,
                transformations,
                proof_relationships,
            } = self;
            SsaModule {
                schema_version,
                identity,
                semantic_identity,
                hir_fingerprint,
                record_types,
                functions: elide_functions(functions, operation),
                obligations,
                trace,
                transformations,
                proof_relationships,
            }
        } else {
            self
        };
        proof {
            assert forall|c: IterationCeilings| #[trigger] ssa_errors(module, c) == ssa_errors(before, c) by {
                if eligible {
                    lemma_elision_keeps_validation(before, module, operation.0@, c);
                }
            }
        }
        let mut record = TransformationRecord::new(
            input_identity,
            module.identity.duplicate(),
            String::from_str(ELISION_RULE),
            operation.duplicate(),
            crate::proof_transport::proof_evidence_target(),
            SemanticId(String::from_str(ELISION_IMPLEMENTATION)),
        );
        record.obligations_required.push(obligation.duplicate());
        let no_overflow = String::from_str("no-overflow");
        if eligible {
            record.backend_promises_permitted.push(no_overflow);
            match artifact_of(evidence, obligation) {
                Some(a) => record.evidence_consumed.push(SemanticId(a)),
                None => {},
            }
        } else {
            record.backend_promises_withheld.push(no_overflow);
        }
        let reason = if eligible {
            String::from_str("exact current verifier PASS permits the bounded transformation")
        } else {
            String::from_str("missing exact current verifier PASS conservatively withholds the transformation")
        };
        proof {
            assert(id_views(record.obligations_required@) =~= seq![obligation.0@]);
            assert(id_views(record.evidence_consumed@) =~= (if eligible && first_artifact(evidence@, obligation.0@) is Some {
                seq![first_artifact(evidence@, obligation.0@).unwrap()]
            } else {
                seq![]
            }));
            if eligible {
                assert(texts(record.backend_promises_permitted@) =~= seq!["no-overflow"@]);
            } else {
                assert(texts(record.backend_promises_withheld@) =~= seq!["no-overflow"@]);
            }
        }
        SsaTransformationDecision { permitted: eligible, module, record, reason }
    }
}

// ---------------------------------------------------------------------
// Elision keeps every validation error.

/// Two functions with the same blocks, in the same order, transferring to
/// the same targets.
pub open spec fn same_control(f: SsaFunction, g: SsaFunction) -> bool {
    &&& g.blocks@.len() == f.blocks@.len()
    &&& forall|k: int|
        0 <= k < f.blocks@.len() ==> (#[trigger] g.blocks@[k]).identity == f.blocks@[k].identity && targets_of(
            g.blocks@[k],
        ) == targets_of(f.blocks@[k])
}

proof fn lemma_reached_same(f: SsaFunction, g: SsaFunction, avoid: Option<Seq<char>>, k: nat, x: Seq<char>)
    requires
        same_control(f, g),
    ensures
        reached(g, avoid, k, x) == reached(f, avoid, k, x),
    decreases k, 0nat,
{
    if k == 0 {
        if f.blocks@.len() > 0 {
            assert(g.blocks@[0].identity == f.blocks@[0].identity);
        }
    } else {
        lemma_reached_same(f, g, avoid, (k - 1) as nat, x);
        lemma_stepped_same(f, g, avoid, (k - 1) as nat, x, f.blocks@.len() as nat);
    }
}

proof fn lemma_stepped_same(f: SsaFunction, g: SsaFunction, avoid: Option<Seq<char>>, k: nat, x: Seq<char>, n: nat)
    requires
        same_control(f, g),
    ensures
        stepped(g, avoid, k, x, n) == stepped(f, avoid, k, x, n),
    decreases k, n + 1,
{
    if n > 0 {
        lemma_stepped_same(f, g, avoid, k, x, (n - 1) as nat);
        if n - 1 < f.blocks@.len() {
            let i = n - 1;
            assert(g.blocks@[i].identity == f.blocks@[i].identity);
            assert(last_of_id(g, i) == last_of_id(f, i)) by {
                assert forall|j: int| i < j < f.blocks@.len() implies (g.blocks@[j].identity.0@ != g.blocks@[i].identity.0@)
                    == (f.blocks@[j].identity.0@ != f.blocks@[i].identity.0@) by {
                    assert(g.blocks@[j].identity == f.blocks@[j].identity);
                }
            }
            lemma_reached_same(f, g, avoid, k, f.blocks@[i].identity.0@);
        }
    }
}

proof fn lemma_dominates_same(f: SsaFunction, g: SsaFunction, d: Seq<char>, b: Seq<char>)
    requires
        same_control(f, g),
    ensures
        reachable(g, b) == reachable(f, b),
        dominates(g, d, b) == dominates(f, d, b),
{
    lemma_reached_same(f, g, None, f.blocks@.len() as nat, b);
    lemma_reached_same(f, g, None, f.blocks@.len() as nat, d);
    lemma_reached_same(f, g, Some(d), f.blocks@.len() as nat, b);
}

proof fn lemma_control_errors_same(f: SsaFunction, g: SsaFunction, n: nat, path: Seq<char>)
    requires
        same_control(f, g),
        g.bounded_iterations == f.bounded_iterations,
    ensures
        unknown_target_errors(g, n, path) == unknown_target_errors(f, n, path),
        unreachable_errors(g, n, path) == unreachable_errors(f, n, path),
        cycle_errors(g, n, path) == cycle_errors(f, n, path),
    decreases n,
{
    assert(block_ids(g) =~= block_ids(f)) by {
        assert forall|k: int| 0 <= k < f.blocks@.len() implies block_ids(g)[k] == block_ids(f)[k] by {
            assert(g.blocks@[k].identity == f.blocks@[k].identity);
        }
    }
    if n > 0 && n <= f.blocks@.len() {
        lemma_control_errors_same(f, g, (n - 1) as nat, path);
        let i = n - 1;
        assert(g.blocks@[i].identity == f.blocks@[i].identity);
        lemma_dominates_same(f, g, f.blocks@[i].identity.0@, f.blocks@[i].identity.0@);
        assert(last_of_id(g, i) == last_of_id(f, i)) by {
            assert forall|j: int| i < j < f.blocks@.len() implies (g.blocks@[j].identity.0@ != g.blocks@[i].identity.0@)
                == (f.blocks@[j].identity.0@ != f.blocks@[i].identity.0@) by {
                assert(g.blocks@[j].identity == f.blocks@[j].identity);
            }
        }
        let ts = targets_of(f.blocks@[i]);
        lemma_cycle_targets_same(f, g, f.blocks@[i].identity.0@, ts, ts.len(), path);
    }
}

proof fn lemma_cycle_targets_same(f: SsaFunction, g: SsaFunction, from: Seq<char>, ts: Seq<Seq<char>>, m: nat, path: Seq<char>)
    requires
        same_control(f, g),
        g.bounded_iterations == f.bounded_iterations,
    ensures
        cycle_target_errors(g, from, ts, m, path) == cycle_target_errors(f, from, ts, m, path),
    decreases m,
{
    if m > 0 && m <= ts.len() {
        lemma_cycle_targets_same(f, g, from, ts, (m - 1) as nat, path);
        lemma_dominates_same(f, g, ts[m - 1], from);
    }
}

/// Blocks `gs` are blocks `fs` with their instructions elided.
pub open spec fn elided_blocks(fs: Seq<SsaBlock>, gs: Seq<SsaBlock>, operation: Seq<char>) -> bool {
    gs.len() == fs.len() && forall|k: int| 0 <= k < fs.len() ==> elided_block(#[trigger] fs[k], gs[k], operation)
}

proof fn lemma_find_block_same(fs: Seq<SsaBlock>, gs: Seq<SsaBlock>, operation: Seq<char>, id: Seq<char>)
    requires
        elided_blocks(fs, gs, operation),
    ensures
        find_block(gs, id) is Some == find_block(fs, id) is Some,
        find_block(fs, id) is Some ==> elided_block(find_block(fs, id).unwrap(), find_block(gs, id).unwrap(), operation),
    decreases fs.len(),
{
    if fs.len() > 0 {
        assert(elided_block(fs[0], gs[0], operation));
        if fs[0].identity.0@ != id {
            assert(elided_blocks(fs.drop_first(), gs.drop_first(), operation)) by {
                assert forall|k: int| 0 <= k < fs.drop_first().len() implies elided_block(
                    #[trigger] fs.drop_first()[k],
                    gs.drop_first()[k],
                    operation,
                ) by {
                    assert(elided_block(fs[k + 1], gs[k + 1], operation));
                }
            }
            lemma_find_block_same(fs.drop_first(), gs.drop_first(), operation, id);
        }
    }
}

proof fn lemma_elided_kind(i: SsaInstruction, operation: Seq<char>, semantic: Seq<Seq<char>>, path: Seq<char>, x: Seq<char>)
    ensures
        kind_errors(elided_instruction(i, operation), semantic, path) == kind_errors(i, semantic, path),
        calls_to(elided_instruction(i, operation), x) == calls_to(i, x),
        requires_cap(elided_instruction(i, operation), x) == requires_cap(i, x),
{
}

proof fn lemma_outputs_same(a: Seq<SsaInstruction>, operation: Seq<char>, block: Option<Seq<char>>)
    ensures
        output_defs(a.map_values(|i: SsaInstruction| elided_instruction(i, operation)), block) == output_defs(a, block),
        outputs_avail(a.map_values(|i: SsaInstruction| elided_instruction(i, operation))) == outputs_avail(a),
    decreases a.len(),
{
    let b = a.map_values(|i: SsaInstruction| elided_instruction(i, operation));
    if a.len() > 0 {
        assert(b.drop_last() =~= a.drop_last().map_values(|i: SsaInstruction| elided_instruction(i, operation)));
        lemma_outputs_same(a.drop_last(), operation, block);
        assert(b.last().outputs == a.last().outputs);
    }
}

proof fn lemma_blocks_defs_same(fs: Seq<SsaBlock>, gs: Seq<SsaBlock>, operation: Seq<char>)
    requires
        elided_blocks(fs, gs, operation),
    ensures
        blocks_defs(gs) == blocks_defs(fs),
    decreases fs.len(),
{
    if fs.len() > 0 {
        assert(elided_blocks(fs.drop_last(), gs.drop_last(), operation)) by {
            assert forall|k: int| 0 <= k < fs.drop_last().len() implies elided_block(
                #[trigger] fs.drop_last()[k],
                gs.drop_last()[k],
                operation,
            ) by {
                assert(elided_block(fs[k], gs[k], operation));
            }
        }
        lemma_blocks_defs_same(fs.drop_last(), gs.drop_last(), operation);
        let l = fs.len() - 1;
        assert(elided_block(fs[l], gs[l], operation));
        lemma_outputs_same(fs.last().instructions@, operation, Some(fs.last().identity.0@));
    }
}

proof fn lemma_dominating_defs_same(f: SsaFunction, g: SsaFunction, ds: Seq<DefView>, n: nat, b: Seq<char>)
    requires
        same_control(f, g),
    ensures
        dominating_defs(g, ds, n, b) == dominating_defs(f, ds, n, b),
    decreases n,
{
    if n > 0 && n <= ds.len() {
        lemma_dominating_defs_same(f, g, ds, (n - 1) as nat, b);
        if ds[n - 1].1 is Some {
            lemma_dominates_same(f, g, ds[n - 1].1.unwrap(), b);
        }
    }
}

proof fn lemma_elided_control(f: SsaFunction, g: SsaFunction, operation: Seq<char>)
    requires
        elided_function(f, g, operation),
    ensures
        same_control(f, g),
        elided_blocks(f.blocks@, g.blocks@, operation),
        block_ids(g) == block_ids(f),
        defs_of(g) == defs_of(f),
{
    assert forall|k: int| 0 <= k < f.blocks@.len() implies (#[trigger] g.blocks@[k]).identity == f.blocks@[k].identity
        && targets_of(g.blocks@[k]) == targets_of(f.blocks@[k]) by {
        assert(elided_block(f.blocks@[k], g.blocks@[k], operation));
    }
    assert(block_ids(g) =~= block_ids(f)) by {
        assert forall|k: int| 0 <= k < f.blocks@.len() implies block_ids(g)[k] == block_ids(f)[k] by {
            assert(elided_block(f.blocks@[k], g.blocks@[k], operation));
        }
    }
    lemma_blocks_defs_same(f.blocks@, g.blocks@, operation);
}

proof fn lemma_iterations_same(
    f: SsaFunction,
    g: SsaFunction,
    operation: Seq<char>,
    n: nat,
    known: Seq<Seq<char>>,
    ceilings: IterationCeilings,
    path: Seq<char>,
)
    requires
        elided_function(f, g, operation),
    ensures
        iterations_errors(g, n, known, ceilings, path) == iterations_errors(f, n, known, ceilings, path),
    decreases n,
{
    lemma_elided_control(f, g, operation);
    if n > 0 && n <= f.bounded_iterations@.len() {
        lemma_iterations_same(f, g, operation, (n - 1) as nat, known, ceilings, path);
        let it = f.bounded_iterations@[n - 1];
        lemma_find_block_same(f.blocks@, g.blocks@, operation, it.header.0@);
        assert forall|x: Seq<char>| body_calls(g, it, x) == body_calls(f, it, x) by {
            if body_calls(f, it, x) {
                let (b, k) = choose|b: int, k: int|
                    0 <= b < f.blocks@.len() && in_body(f, it, b) && 0 <= k < f.blocks@[b].instructions@.len()
                        && #[trigger] calls_to(f.blocks@[b].instructions@[k], x);
                assert(elided_block(f.blocks@[b], g.blocks@[b], operation));
                lemma_elided_kind(f.blocks@[b].instructions@[k], operation, seq![], path, x);
                assert(calls_to(g.blocks@[b].instructions@[k], x));
            }
            if body_calls(g, it, x) {
                let (b, k) = choose|b: int, k: int|
                    0 <= b < g.blocks@.len() && in_body(g, it, b) && 0 <= k < g.blocks@[b].instructions@.len()
                        && #[trigger] calls_to(g.blocks@[b].instructions@[k], x);
                assert(elided_block(f.blocks@[b], g.blocks@[b], operation));
                lemma_elided_kind(f.blocks@[b].instructions@[k], operation, seq![], path, x);
                assert(calls_to(f.blocks@[b].instructions@[k], x));
            }
        }
        assert forall|x: Seq<char>| body_requires(g, it, x) == body_requires(f, it, x) by {
            if body_requires(f, it, x) {
                let (b, k) = choose|b: int, k: int|
                    0 <= b < f.blocks@.len() && in_body(f, it, b) && 0 <= k < f.blocks@[b].instructions@.len()
                        && #[trigger] requires_cap(f.blocks@[b].instructions@[k], x);
                assert(elided_block(f.blocks@[b], g.blocks@[b], operation));
                lemma_elided_kind(f.blocks@[b].instructions@[k], operation, seq![], path, x);
                assert(requires_cap(g.blocks@[b].instructions@[k], x));
            }
            if body_requires(g, it, x) {
                let (b, k) = choose|b: int, k: int|
                    0 <= b < g.blocks@.len() && in_body(g, it, b) && 0 <= k < g.blocks@[b].instructions@.len()
                        && #[trigger] requires_cap(g.blocks@[b].instructions@[k], x);
                assert(elided_block(f.blocks@[b], g.blocks@[b], operation));
                lemma_elided_kind(f.blocks@[b].instructions@[k], operation, seq![], path, x);
                assert(requires_cap(f.blocks@[b].instructions@[k], x));
            }
        }
        assert(closure_ok(g, it) == closure_ok(f, it));
        assert(header_ok(g, it) == header_ok(f, it));
        assert(region_ok(g, it) == region_ok(f, it));
    }
}

proof fn lemma_block_errors_same(
    f: SsaFunction,
    g: SsaFunction,
    operation: Seq<char>,
    b: int,
    known: Seq<Seq<char>>,
    semantic: Seq<Seq<char>>,
    path: Seq<char>,
)
    requires
        elided_function(f, g, operation),
        0 <= b < f.blocks@.len(),
    ensures
        instructions_errors(g, g.blocks@[b], g.blocks@[b].instructions@.len(), known, semantic, path) == instructions_errors(
            f,
            f.blocks@[b],
            f.blocks@[b].instructions@.len(),
            known,
            semantic,
            path,
        ),
        terminator_errors(g, g.blocks@[b], avail_at(g, g.blocks@[b], g.blocks@[b].instructions@.len() as int), path)
            == terminator_errors(
            f,
            f.blocks@[b],
            avail_at(f, f.blocks@[b], f.blocks@[b].instructions@.len() as int),
            path,
        ),
{
    lemma_elided_control(f, g, operation);
    let fb = f.blocks@[b];
    let gb = g.blocks@[b];
    assert(elided_block(fb, gb, operation));
    lemma_dominating_defs_same(f, g, defs_of(f), defs_of(f).len(), fb.identity.0@);
    assert(avail_base(g, gb) == avail_base(f, fb));
    assert forall|k: int| 0 <= k <= fb.instructions@.len() implies #[trigger] avail_at(g, gb, k) == avail_at(f, fb, k) by {
        assert(gb.instructions@.take(k) =~= fb.instructions@.take(k).map_values(
            |i: SsaInstruction| elided_instruction(i, operation),
        ));
        lemma_outputs_same(fb.instructions@.take(k), operation, None);
    }
    lemma_instructions_same(f, g, fb, gb, operation, fb.instructions@.len(), known, semantic, path);
    let e = avail_at(f, fb, fb.instructions@.len() as int);
    assert(avail_at(g, gb, gb.instructions@.len() as int) == e);
    assert forall|t: Seq<char>, args: Seq<Seq<char>>| #[trigger] edge_errors(g, t, args, e, path) == edge_errors(f, t, args, e, path) by {
        lemma_find_block_same(f.blocks@, g.blocks@, operation, t);
    }
}

proof fn lemma_instructions_same(
    f: SsaFunction,
    g: SsaFunction,
    fb: SsaBlock,
    gb: SsaBlock,
    operation: Seq<char>,
    k: nat,
    known: Seq<Seq<char>>,
    semantic: Seq<Seq<char>>,
    path: Seq<char>,
)
    requires
        elided_block(fb, gb, operation),
        forall|j: int| 0 <= j <= fb.instructions@.len() ==> #[trigger] avail_at(g, gb, j) == avail_at(f, fb, j),
    ensures
        instructions_errors(g, gb, k, known, semantic, path) == instructions_errors(f, fb, k, known, semantic, path),
    decreases k,
{
    if k > 0 && k <= fb.instructions@.len() {
        lemma_instructions_same(f, g, fb, gb, operation, (k - 1) as nat, known, semantic, path);
        let i = fb.instructions@[k - 1];
        lemma_elided_kind(i, operation, semantic, path, seq![]);
        assert(avail_at(g, gb, k - 1) == avail_at(f, fb, k - 1));
        assert(gb.instructions@[k - 1] == elided_instruction(i, operation));
    }
}

proof fn lemma_blocks_errors_same(
    f: SsaFunction,
    g: SsaFunction,
    operation: Seq<char>,
    n: nat,
    known: Seq<Seq<char>>,
    semantic: Seq<Seq<char>>,
    path: Seq<char>,
)
    requires
        elided_function(f, g, operation),
    ensures
        blocks_errors(g, n, known, semantic, path) == blocks_errors(f, n, known, semantic, path),
    decreases n,
{
    if n > 0 && n <= f.blocks@.len() {
        lemma_blocks_errors_same(f, g, operation, (n - 1) as nat, known, semantic, path);
        lemma_block_errors_same(f, g, operation, n - 1, known, semantic, path);
    }
}

proof fn lemma_function_errors_same(
    f: SsaFunction,
    g: SsaFunction,
    operation: Seq<char>,
    known: Seq<Seq<char>>,
    semantic: Seq<Seq<char>>,
    ceilings: IterationCeilings,
    path: Seq<char>,
)
    requires
        elided_function(f, g, operation),
    ensures
        function_errors(g, known, semantic, ceilings, path) == function_errors(f, known, semantic, ceilings, path),
{
    lemma_elided_control(f, g, operation);
    lemma_control_errors_same(f, g, f.blocks@.len() as nat, path);
    lemma_iterations_same(f, g, operation, f.bounded_iterations@.len() as nat, known, ceilings, path);
    lemma_blocks_errors_same(f, g, operation, f.blocks@.len() as nat, known, semantic, path);
}

proof fn lemma_functions_errors_same(m: SsaModule, r: SsaModule, operation: Seq<char>, n: nat, ceilings: IterationCeilings)
    requires
        r.obligations == m.obligations,
        r.functions@.len() == m.functions@.len(),
        forall|k: int| 0 <= k < m.functions@.len() ==> elided_function(#[trigger] m.functions@[k], r.functions@[k], operation),
    ensures
        functions_errors(r, n, ceilings) == functions_errors(m, n, ceilings),
    decreases n,
{
    assert(semantic_ids(r) =~= semantic_ids(m)) by {
        assert forall|k: int| 0 <= k < m.functions@.len() implies semantic_ids(r)[k] == semantic_ids(m)[k] by {
            assert(elided_function(m.functions@[k], r.functions@[k], operation));
        }
    }
    if n > 0 && n <= m.functions@.len() {
        lemma_functions_errors_same(m, r, operation, (n - 1) as nat, ceilings);
        assert(function_ids(r.functions@.take(n - 1)) =~= function_ids(m.functions@.take(n - 1))) by {
            assert forall|k: int| 0 <= k < n - 1 implies #[trigger] function_ids(r.functions@.take(n - 1))[k] == function_ids(
                m.functions@.take(n - 1),
            )[k] by {
                assert(elided_function(m.functions@[k], r.functions@[k], operation));
            }
        }
        assert(elided_function(m.functions@[n - 1], r.functions@[n - 1], operation));
        lemma_function_errors_same(
            m.functions@[n - 1],
            r.functions@[n - 1],
            operation,
            obligation_ids(m),
            semantic_ids(m),
            ceilings,
            function_path((n - 1) as nat),
        );
    }
}

/// Eliding overflow checks changes no validation outcome: a module whose
/// functions are those of `m` with their instructions elided, with the same
/// obligations and trace, has exactly the errors of `m`.
pub proof fn lemma_elision_keeps_validation(m: SsaModule, r: SsaModule, operation: Seq<char>, ceilings: IterationCeilings)
    requires
        r.obligations == m.obligations,
        r.trace == m.trace,
        r.functions@.len() == m.functions@.len(),
        forall|k: int| 0 <= k < m.functions@.len() ==> elided_function(#[trigger] m.functions@[k], r.functions@[k], operation),
    ensures
        ssa_errors(r, ceilings) == ssa_errors(m, ceilings),
{
    lemma_functions_errors_same(m, r, operation, m.functions@.len() as nat, ceilings);
}

} // verus!
