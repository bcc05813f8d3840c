use vstd::prelude::*;

use crate::identity::{id_views, sorted_unique_ids, strictly_sorted, SemanticId};
use crate::text::{seq_lt, text_eq};

use super::artifact::{
    proof_tag_code, proof_identity_valid, proof_join, ProofArtifact, ProofCell, ProofTag, ProofVerdict,
    PROOF_BUFFER_CAPACITY, PROOF_KERNEL_ID, PROOF_MAX_UNIVERSE,
};
use super::rules::{
    apply_rule, as_position, at_pos, cell_step, denotation, eq_rule, flag_of, fresh_model, lambda_rule, nat_elim_rule,
    nat_rule, pass_model, pi_rule, plus_rule, proof_term_open, rd, reference_verdict, refl_rule, succ_rule, sum_value, succ_value, universe_rule,
    unsupported_rule, var_rule, zero_rule, RefModel,
};

verus! {

/// Per-cell tables of the reference pass: the row a cell reduces to, its
/// representative, its synthesized type descriptor, its closed numeral value,
/// and whether it mentions a variable.
struct ReferenceTables {
    rtag: Vec<i64>,
    rr0: Vec<i64>,
    rr1: Vec<i64>,
    rr2: Vec<i64>,
    rr3: Vec<i64>,
    rep: Vec<i64>,
    tt0: Vec<i64>,
    tt1: Vec<i64>,
    tt2: Vec<i64>,
    nval: Vec<i64>,
    mentions: Vec<i64>,
    status: ProofVerdict,
}

impl ReferenceTables {
    /// The tables as mathematical columns.
    spec fn model(&self) -> RefModel {
        RefModel {
            rtag: self.rtag@,
            rr0: self.rr0@,
            rr1: self.rr1@,
            rr2: self.rr2@,
            rr3: self.rr3@,
            rep: self.rep@,
            tt0: self.tt0@,
            tt1: self.tt1@,
            tt2: self.tt2@,
            nval: self.nval@,
            mentions: self.mentions@,
            status: self.status,
        }
    }

    spec fn width_is(&self, width: int) -> bool {
        &&& self.rtag@.len() == width
        &&& self.rr0@.len() == width
        &&& self.rr1@.len() == width
        &&& self.rr2@.len() == width
        &&& self.rr3@.len() == width
        &&& self.rep@.len() == width
        &&& self.tt0@.len() == width
        &&& self.tt1@.len() == width
        &&& self.tt2@.len() == width
        &&& self.nval@.len() == width
        &&& self.mentions@.len() == width
    }

    /// Every row but `index` is the same in both tables.
    spec fn rows_kept(&self, other: &Self, index: int) -> bool {
        &&& forall|k: int| 0 <= k < self.rtag@.len() && k != index ==> self.rtag@[k] == other.rtag@[k]
        &&& forall|k: int| 0 <= k < self.rr0@.len() && k != index ==> self.rr0@[k] == other.rr0@[k]
        &&& forall|k: int| 0 <= k < self.rr1@.len() && k != index ==> self.rr1@[k] == other.rr1@[k]
        &&& forall|k: int| 0 <= k < self.rr2@.len() && k != index ==> self.rr2@[k] == other.rr2@[k]
        &&& forall|k: int| 0 <= k < self.rr3@.len() && k != index ==> self.rr3@[k] == other.rr3@[k]
        &&& forall|k: int| 0 <= k < self.rep@.len() && k != index ==> self.rep@[k] == other.rep@[k]
        &&& forall|k: int| 0 <= k < self.tt0@.len() && k != index ==> self.tt0@[k] == other.tt0@[k]
        &&& forall|k: int| 0 <= k < self.tt1@.len() && k != index ==> self.tt1@[k] == other.tt1@[k]
        &&& forall|k: int| 0 <= k < self.tt2@.len() && k != index ==> self.tt2@[k] == other.tt2@[k]
        &&& forall|k: int| 0 <= k < self.nval@.len() && k != index ==> self.nval@[k] == other.nval@[k]
        &&& forall|k: int| 0 <= k < self.mentions@.len() && k != index ==> self.mentions@[k] == other.mentions@[k]
    }

    /// A table entry for a validated reference, or the fallback otherwise
    /// (and for a reference outside the table).
    fn read(table: &Vec<i64>, raw: i64, ok: bool, fallback: i64) -> (r: i64)
        ensures
            r == rd(table@, raw, ok, fallback),
    {
        if ok && 0 <= raw && (raw as u64) < (table.len() as u64) {
            table[raw as usize]
        } else {
            fallback
        }
    }

    fn store_row(&mut self, index: usize, tag: i64, r: [i64; 4], rep: i64, nval: i64, mentions: i64)
        requires
            index < old(self).rtag@.len(),
            old(self).width_is(old(self).rtag@.len() as int),
        ensures
            final(self).width_is(old(self).rtag@.len() as int),
            final(self).rows_kept(old(self), index as int),
            final(self).rtag@ == old(self).rtag@.update(index as int, tag),
            final(self).rr0@ == old(self).rr0@.update(index as int, r@[0]),
            final(self).rr1@ == old(self).rr1@.update(index as int, r@[1]),
            final(self).rr2@ == old(self).rr2@.update(index as int, r@[2]),
            final(self).rr3@ == old(self).rr3@.update(index as int, r@[3]),
            final(self).rep@ == old(self).rep@.update(index as int, rep),
            final(self).nval@ == old(self).nval@.update(index as int, nval),
            final(self).mentions@ == old(self).mentions@.update(index as int, mentions),
            final(self).tt0 == old(self).tt0,
            final(self).tt1 == old(self).tt1,
            final(self).tt2 == old(self).tt2,
            final(self).status == old(self).status,
    {
        self.rtag.set(index, tag);
        self.rr0.set(index, r[0]);
        self.rr1.set(index, r[1]);
        self.rr2.set(index, r[2]);
        self.rr3.set(index, r[3]);
        self.rep.set(index, rep);
        self.nval.set(index, nval);
        self.mentions.set(index, mentions);
    }

    fn settle_row(&mut self, index: usize, t: [i64; 3], local: ProofVerdict)
        requires
            index < old(self).rtag@.len(),
            old(self).width_is(old(self).rtag@.len() as int),
        ensures
            final(self).width_is(old(self).rtag@.len() as int),
            final(self).rows_kept(old(self), index as int),
            final(self).status == proof_join(old(self).status, local),
            final(self).tt0@ == old(self).tt0@.update(index as int, t@[0]),
            final(self).tt1@ == old(self).tt1@.update(index as int, t@[1]),
            final(self).tt2@ == old(self).tt2@.update(index as int, t@[2]),
            final(self).rtag == old(self).rtag,
            final(self).rr0 == old(self).rr0,
            final(self).rr1 == old(self).rr1,
            final(self).rr2 == old(self).rr2,
            final(self).rr3 == old(self).rr3,
            final(self).rep == old(self).rep,
            final(self).nval == old(self).nval,
            final(self).mentions == old(self).mentions,
    {
        self.tt0.set(index, t[0]);
        self.tt1.set(index, t[1]);
        self.tt2.set(index, t[2]);
        self.status = self.status.dominate(local);
    }

    fn fresh(width: usize) -> (r: Self)
        ensures
            r.width_is(width as int),
            r.status == ProofVerdict::Pass,
            r.model() == fresh_model(width as int),
    {
        Self {
            rtag: filled(width, 0),
            rr0: filled(width, 0),
            rr1: filled(width, 0),
            rr2: filled(width, 0),
            rr3: filled(width, 0),
            rep: filled(width, 0),
            tt0: filled(width, 0),
            tt1: filled(width, 0),
            tt2: filled(width, 0),
            nval: filled(width, -1),
            mentions: filled(width, 0),
            status: ProofVerdict::Pass,
        }
    }
}

fn filled(width: usize, value: i64) -> (r: Vec<i64>)
    ensures
        r@.len() == width,
        r@ == Seq::new(width as nat, |k: int| value),
{
    let mut v: Vec<i64> = Vec::new();
    let mut i: usize = 0;
    while i < width
        invariant
            i <= width,
            v@.len() == i,
            forall|k: int| 0 <= k < i ==> v@[k] == value,
        decreases width - i,
    {
        v.push(value);
        i = i + 1;
    }
    assert(v@ =~= Seq::new(width as nat, |k: int| value));
    v
}

/// A child reference is valid when it points strictly below its parent and
/// into the active prefix.
pub open spec fn child_ok(raw: i64, parent: int, count: int) -> bool {
    0 <= raw && raw < parent && raw < count
}

fn valid_child(raw: i64, parent: usize, count: usize) -> (r: bool)
    ensures
        r == child_ok(raw, parent as int, count as int),
{
    raw >= 0 && (raw as u64) < (parent as u64) && (raw as u64) < (count as u64)
}

/// Canonical meaning of a type cell: Nat -> (2,0,0), Universe(l) -> (1,l,0),
/// Pi(d,c) -> (3,d,c), Eq(T,_,_) -> (4,T,0); anything else is not a type.
fn denote(tag: i64, first: i64, second: i64) -> (r: (i64, i64, i64))
    ensures
        r == denotation(tag, first, second),
{
    if tag == 6 {
        (2, 0, 0)
    } else if tag == 1 {
        (1, first, 0)
    } else if tag == 3 {
        (3, first, second)
    } else if tag == 11 {
        (4, first, 0)
    } else {
        (0, 0, 0)
    }
}

fn flag(b: bool) -> (r: i64)
    ensures
        r == flag_of(b),
{
    if b {
        1
    } else {
        0
    }
}

fn pick(settled: bool, primary: i64, fallback: i64) -> (r: i64)
    ensures
        r == (if settled { primary } else { fallback }),
{
    if settled {
        primary
    } else {
        fallback
    }
}

fn plus_one(value: i64) -> (r: i64)
    ensures
        r == succ_value(value),
{
    if value < i64::MAX {
        value + 1
    } else {
        -1
    }
}

fn sum_values(left: i64, right: i64) -> (r: i64)
    requires
        left >= 0,
        right >= 0,
    ensures
        r == sum_value(left, right),
{
    if left <= i64::MAX - right {
        left + right
    } else {
        -1
    }
}

/// The reference slots a tag's cell must hold valid children in.
pub open spec fn required_slots(tag: ProofTag) -> Seq<int> {
    match tag {
        ProofTag::Var => seq![0int],
        ProofTag::Pi => seq![0int, 1],
        ProofTag::Lambda => seq![0int, 1, 2],
        ProofTag::Apply => seq![0int, 1],
        ProofTag::Succ => seq![0int],
        ProofTag::Plus => seq![0int, 1],
        ProofTag::NatElim => seq![0int, 1, 2, 3],
        ProofTag::Eq => seq![0int, 1, 2],
        ProofTag::Refl => seq![0int, 1],
        _ => seq![],
    }
}

/// A cell the forward pass rejects on structure alone: a required reference
/// that is not a valid child (forward references and cycles), or a
/// universe level without a type below the ceiling.
pub open spec fn cell_malformed(cell: ProofCell, index: int, count: int) -> bool {
    ||| (cell.tag == ProofTag::Universe && !(0 <= cell.args@[0] < PROOF_MAX_UNIVERSE))
    ||| exists|k: int| 0 <= k < required_slots(cell.tag).len() && !child_ok(cell.args@[#[trigger] required_slots(cell.tag)[k]], index, count)
}

/// One forward step of the reference pass over the cell at `index`: it
/// writes that cell's rows and joins its local verdict into the status.
fn advance_reference(tables: &mut ReferenceTables, cells: &Vec<ProofCell>, count: usize, index: usize)
    requires
        index < count,
        count <= cells@.len(),
        index < old(tables).rtag@.len(),
        old(tables).width_is(old(tables).rtag@.len() as int),
    ensures
        final(tables).width_is(old(tables).rtag@.len() as int),
        final(tables).rows_kept(old(tables), index as int),
        final(tables).status == proof_join(old(tables).status, final(tables).status),
        cell_malformed(cells@[index as int], index as int, count as int) ==> final(tables).status == ProofVerdict::Fail,
        cells@[index as int].tag == ProofTag::Unsupported ==> final(tables).status == proof_join(
            old(tables).status,
            ProofVerdict::Unknown,
        ),
        final(tables).model() == cell_step(old(tables).model(), cells@[index as int], count as int, index as int),
{
    let cell = &cells[index];
    match cell.tag {
        ProofTag::Universe => advance_universe(tables, cell, count, index),
        ProofTag::Nat => advance_nat(tables, cell, count, index),
        ProofTag::Zero => advance_zero(tables, cell, count, index),
        ProofTag::Var => advance_var(tables, cell, count, index),
        ProofTag::Pi => advance_pi(tables, cell, count, index),
        ProofTag::Lambda => advance_lambda(tables, cell, count, index),
        ProofTag::Apply => advance_apply(tables, cell, count, index),
        ProofTag::Succ => advance_succ(tables, cell, count, index),
        ProofTag::Plus => advance_plus(tables, cell, count, index),
        ProofTag::NatElim => advance_nat_elim(tables, cell, count, index),
        ProofTag::Eq => advance_eq(tables, cell, count, index),
        ProofTag::Refl => advance_refl(tables, cell, count, index),
        ProofTag::Unsupported => advance_unsupported(tables, cell, count, index),
    }
}

proof fn lemma_malformed_witness(cell: ProofCell, index: int, count: int)
    ensures
        cell_malformed(cell, index, count) ==> (cell.tag == ProofTag::Universe && !(0 <= cell.args@[0] < PROOF_MAX_UNIVERSE))
            || exists|k: int| 0 <= k < required_slots(cell.tag).len() && !child_ok(cell.args@[#[trigger] required_slots(cell.tag)[k]], index, count),
{
}

fn advance_universe(tables: &mut ReferenceTables, cell: &ProofCell, count: usize, index: usize)
    requires
        index < count,
        index < old(tables).rtag@.len(),
        old(tables).width_is(old(tables).rtag@.len() as int),
        proof_tag_code(cell.tag) == 1,
    ensures
        final(tables).width_is(old(tables).rtag@.len() as int),
        final(tables).rows_kept(old(tables), index as int),
        final(tables).status == proof_join(old(tables).status, final(tables).status),
        cell_malformed(*cell, index as int, count as int) ==> final(tables).status == ProofVerdict::Fail,
        cell.tag == ProofTag::Unsupported ==> final(tables).status == proof_join(old(tables).status, ProofVerdict::Unknown),
        final(tables).model() == universe_rule(old(tables).model(), *cell, index as int),
{
    let self_index = index as i64;
    let a0 = cell.args[0];
    proof {
        lemma_malformed_witness(*cell, index as int, count as int);
    }
    let level = a0;
    let in_range = 0 <= level && level <= PROOF_MAX_UNIVERSE;
    let has_type = in_range && level < PROOF_MAX_UNIVERSE;
    let local = if !in_range || !has_type { ProofVerdict::Fail } else { ProofVerdict::Pass };
    tables.store_row(index, 1, [level, 0, 0, 0], self_index, -1, 0);
    let triple = if has_type { [1, level + 1, 0] } else { [0, 0, 0] };
    tables.settle_row(index, triple, local);
}

fn advance_nat(tables: &mut ReferenceTables, cell: &ProofCell, count: usize, index: usize)
    requires
        index < count,
        index < old(tables).rtag@.len(),
        old(tables).width_is(old(tables).rtag@.len() as int),
        proof_tag_code(cell.tag) == 6,
    ensures
        final(tables).width_is(old(tables).rtag@.len() as int),
        final(tables).rows_kept(old(tables), index as int),
        final(tables).status == proof_join(old(tables).status, final(tables).status),
        cell_malformed(*cell, index as int, count as int) ==> final(tables).status == ProofVerdict::Fail,
        cell.tag == ProofTag::Unsupported ==> final(tables).status == proof_join(old(tables).status, ProofVerdict::Unknown),
        final(tables).model() == nat_rule(old(tables).model(), index as int),
{
    let self_index = index as i64;
    proof {
        lemma_malformed_witness(*cell, index as int, count as int);
    }
    tables.store_row(index, 6, [0, 0, 0, 0], self_index, -1, 0);
    tables.settle_row(index, [1, 0, 0], ProofVerdict::Pass);
}

fn advance_zero(tables: &mut ReferenceTables, cell: &ProofCell, count: usize, index: usize)
    requires
        index < count,
        index < old(tables).rtag@.len(),
        old(tables).width_is(old(tables).rtag@.len() as int),
        proof_tag_code(cell.tag) == 7,
    ensures
        final(tables).width_is(old(tables).rtag@.len() as int),
        final(tables).rows_kept(old(tables), index as int),
        final(tables).status == proof_join(old(tables).status, final(tables).status),
        cell_malformed(*cell, index as int, count as int) ==> final(tables).status == ProofVerdict::Fail,
        cell.tag == ProofTag::Unsupported ==> final(tables).status == proof_join(old(tables).status, ProofVerdict::Unknown),
        final(tables).model() == zero_rule(old(tables).model(), index as int),
{
    let self_index = index as i64;
    proof {
        lemma_malformed_witness(*cell, index as int, count as int);
    }
    tables.store_row(index, 7, [0, 0, 0, 0], self_index, 0, 0);
    tables.settle_row(index, [2, 0, 0], ProofVerdict::Pass);
}

fn advance_var(tables: &mut ReferenceTables, cell: &ProofCell, count: usize, index: usize)
    requires
        index < count,
        index < old(tables).rtag@.len(),
        old(tables).width_is(old(tables).rtag@.len() as int),
        proof_tag_code(cell.tag) == 2,
    ensures
        final(tables).width_is(old(tables).rtag@.len() as int),
        final(tables).rows_kept(old(tables), index as int),
        final(tables).status == proof_join(old(tables).status, final(tables).status),
        cell_malformed(*cell, index as int, count as int) ==> final(tables).status == ProofVerdict::Fail,
        cell.tag == ProofTag::Unsupported ==> final(tables).status == proof_join(old(tables).status, ProofVerdict::Unknown),
        final(tables).model() == var_rule(old(tables).model(), *cell, count as int, index as int),
{
    let self_index = index as i64;
    let a0 = cell.args[0];
    proof {
        lemma_malformed_witness(*cell, index as int, count as int);
    }
    let ok = valid_child(a0, index, count);
    let target = if ok { a0 } else { 0 };
    let binder = ReferenceTables::read(&tables.rtag, target, ok, 0);
    let bound = binder == 3 || binder == 4;
    let domain = ReferenceTables::read(&tables.rr0, target, ok && bound, 0);
    let found = ok && bound;
    let denoted = denote(
        ReferenceTables::read(&tables.rtag, domain, found, 0),
        ReferenceTables::read(&tables.rr0, domain, found, 0),
        ReferenceTables::read(&tables.rr1, domain, found, 0),
    );
    let usable = denoted.0 != 0;
    let local = if !ok || !bound || !usable { ProofVerdict::Fail } else { ProofVerdict::Pass };
    tables.store_row(index, 2, [if ok { target } else { 0 }, 0, 0, 0], self_index, -1, 1);
    let triple = if found && usable { [denoted.0, denoted.1, denoted.2] } else { [0, 0, 0] };
    tables.settle_row(index, triple, local);
}

fn advance_pi(tables: &mut ReferenceTables, cell: &ProofCell, count: usize, index: usize)
    requires
        index < count,
        index < old(tables).rtag@.len(),
        old(tables).width_is(old(tables).rtag@.len() as int),
        proof_tag_code(cell.tag) == 3,
    ensures
        final(tables).width_is(old(tables).rtag@.len() as int),
        final(tables).rows_kept(old(tables), index as int),
        final(tables).status == proof_join(old(tables).status, final(tables).status),
        cell_malformed(*cell, index as int, count as int) ==> final(tables).status == ProofVerdict::Fail,
        cell.tag == ProofTag::Unsupported ==> final(tables).status == proof_join(old(tables).status, ProofVerdict::Unknown),
        final(tables).model() == pi_rule(old(tables).model(), *cell, count as int, index as int),
{
    let self_index = index as i64;
    let a0 = cell.args[0];
    let a1 = cell.args[1];
    proof {
        lemma_malformed_witness(*cell, index as int, count as int);
    }
    let ok_domain = valid_child(a0, index, count);
    let ok_codomain = valid_child(a1, index, count);
    let domain_kind = ReferenceTables::read(&tables.tt0, a0, ok_domain, 0);
    let domain_level = ReferenceTables::read(&tables.tt1, a0, ok_domain, 0);
    let codomain_kind = ReferenceTables::read(&tables.tt0, a1, ok_codomain, 0);
    let codomain_level = ReferenceTables::read(&tables.tt1, a1, ok_codomain, 0);
    let well_typed = ok_domain && ok_codomain && domain_kind == 1 && codomain_kind == 1;
    let joined = if domain_level >= codomain_level { domain_level } else { codomain_level };
    let local = if !well_typed || joined > PROOF_MAX_UNIVERSE { ProofVerdict::Fail } else { ProofVerdict::Pass };
    let domain_rep = ReferenceTables::read(&tables.rep, a0, ok_domain, self_index);
    let codomain_rep = ReferenceTables::read(&tables.rep, a1, ok_codomain, self_index);
    let mentioned = flag(
        ReferenceTables::read(&tables.mentions, a0, ok_domain, 0) > 0 || ReferenceTables::read(&tables.mentions, a1, ok_codomain, 0) > 0,
    );
    tables.store_row(index, 3, [domain_rep, codomain_rep, 0, 0], self_index, -1, mentioned);
    let triple = if local == ProofVerdict::Pass { [1, joined, 0] } else { [0, 0, 0] };
    tables.settle_row(index, triple, local);
}

fn advance_lambda(tables: &mut ReferenceTables, cell: &ProofCell, count: usize, index: usize)
    requires
        index < count,
        index < old(tables).rtag@.len(),
        old(tables).width_is(old(tables).rtag@.len() as int),
        proof_tag_code(cell.tag) == 4,
    ensures
        final(tables).width_is(old(tables).rtag@.len() as int),
        final(tables).rows_kept(old(tables), index as int),
        final(tables).status == proof_join(old(tables).status, final(tables).status),
        cell_malformed(*cell, index as int, count as int) ==> final(tables).status == ProofVerdict::Fail,
        cell.tag == ProofTag::Unsupported ==> final(tables).status == proof_join(old(tables).status, ProofVerdict::Unknown),
        final(tables).model() == lambda_rule(old(tables).model(), *cell, count as int, index as int),
{
    let self_index = index as i64;
    let a0 = cell.args[0];
    let a1 = cell.args[1];
    let a2 = cell.args[2];
    proof {
        lemma_malformed_witness(*cell, index as int, count as int);
    }
    let ok_domain = valid_child(a0, index, count);
    let ok_body = valid_child(a1, index, count);
    let ok_claim = valid_child(a2, index, count);
    let domain_is_type = ReferenceTables::read(&tables.tt0, a0, ok_domain, 0) == 1;
    let claim_is_pi = ReferenceTables::read(&tables.rtag, a2, ok_claim, 0) == 3;
    let claim_domain = ReferenceTables::read(&tables.rr0, a2, ok_claim && claim_is_pi, 0);
    let claim_codomain = ReferenceTables::read(&tables.rr1, a2, ok_claim && claim_is_pi, 0);
    let domain_rep = ReferenceTables::read(&tables.rep, a0, ok_domain, self_index);
    let actual = (
        ReferenceTables::read(&tables.tt0, a1, ok_body, 0),
        ReferenceTables::read(&tables.tt1, a1, ok_body, 0),
        ReferenceTables::read(&tables.tt2, a1, ok_body, 0),
    );
    let settled_claim = ok_claim && claim_is_pi;
    let claimed = denote(
        ReferenceTables::read(&tables.rtag, claim_codomain, settled_claim, 0),
        ReferenceTables::read(&tables.rr0, claim_codomain, settled_claim, 0),
        ReferenceTables::read(&tables.rr1, claim_codomain, settled_claim, 0),
    );
    let refs_ok = ok_domain && ok_body && ok_claim;
    let local = if !refs_ok || !domain_is_type || !claim_is_pi || claim_domain != domain_rep || actual.0 != claimed.0
        || actual.1 != claimed.1 || actual.2 != claimed.2 {
        ProofVerdict::Fail
    } else {
        ProofVerdict::Pass
    };
    let body_rep = ReferenceTables::read(&tables.rep, a1, ok_body, self_index);
    let mentioned = ReferenceTables::read(&tables.mentions, a1, ok_body, 0);
    tables.store_row(index, 4, [domain_rep, body_rep, 0, 0], self_index, -1, mentioned);
    let triple = if local == ProofVerdict::Pass { [3, claim_domain, claim_codomain] } else { [0, 0, 0] };
    tables.settle_row(index, triple, local);
}

fn advance_apply(tables: &mut ReferenceTables, cell: &ProofCell, count: usize, index: usize)
    requires
        index < count,
        index < old(tables).rtag@.len(),
        old(tables).width_is(old(tables).rtag@.len() as int),
        proof_tag_code(cell.tag) == 5,
    ensures
        final(tables).width_is(old(tables).rtag@.len() as int),
        final(tables).rows_kept(old(tables), index as int),
        final(tables).status == proof_join(old(tables).status, final(tables).status),
        cell_malformed(*cell, index as int, count as int) ==> final(tables).status == ProofVerdict::Fail,
        cell.tag == ProofTag::Unsupported ==> final(tables).status == proof_join(old(tables).status, ProofVerdict::Unknown),
        final(tables).model() == apply_rule(old(tables).model(), *cell, count as int, index as int),
{
    let self_index = index as i64;
    let a0 = cell.args[0];
    let a1 = cell.args[1];
    proof {
        lemma_malformed_witness(*cell, index as int, count as int);
    }
    let ok_fun = valid_child(a0, index, count);
    let ok_arg = valid_child(a1, index, count);
    let fun_kind = ReferenceTables::read(&tables.tt0, a0, ok_fun, 0);
    let domain = ReferenceTables::read(&tables.tt1, a0, ok_fun, 0);
    let codomain = ReferenceTables::read(&tables.tt2, a0, ok_fun, 0);
    let is_pi = fun_kind == 3;
    let usable = ok_fun && is_pi;
    let required = denote(
        ReferenceTables::read(&tables.rtag, domain, usable, 0),
        ReferenceTables::read(&tables.rr0, domain, usable, 0),
        ReferenceTables::read(&tables.rr1, domain, usable, 0),
    );
    let actual = (
        ReferenceTables::read(&tables.tt0, a1, ok_arg, 0),
        ReferenceTables::read(&tables.tt1, a1, ok_arg, 0),
        ReferenceTables::read(&tables.tt2, a1, ok_arg, 0),
    );
    let applicable = ok_fun && ok_arg && is_pi && actual.0 == required.0 && actual.1 == required.1 && actual.2 == required.2;
    let dependent = ReferenceTables::read(&tables.mentions, codomain, usable, 0) > 0;
    let local = if !applicable {
        ProofVerdict::Fail
    } else if dependent {
        ProofVerdict::Unknown
    } else {
        ProofVerdict::Pass
    };
    let produced = denote(
        ReferenceTables::read(&tables.rtag, codomain, usable, 0),
        ReferenceTables::read(&tables.rr0, codomain, usable, 0),
        ReferenceTables::read(&tables.rr1, codomain, usable, 0),
    );
    let fun_rep = ReferenceTables::read(&tables.rep, a0, ok_fun, self_index);
    let arg_rep = ReferenceTables::read(&tables.rep, a1, ok_arg, self_index);
    let mentioned = flag(
        ReferenceTables::read(&tables.mentions, a0, ok_fun, 0) > 0 || ReferenceTables::read(&tables.mentions, a1, ok_arg, 0) > 0,
    );
    tables.store_row(index, 5, [fun_rep, arg_rep, 0, 0], self_index, -1, mentioned);
    let triple = if local == ProofVerdict::Pass { [produced.0, produced.1, produced.2] } else { [0, 0, 0] };
    tables.settle_row(index, triple, local);
}

fn advance_succ(tables: &mut ReferenceTables, cell: &ProofCell, count: usize, index: usize)
    requires
        index < count,
        index < old(tables).rtag@.len(),
        old(tables).width_is(old(tables).rtag@.len() as int),
        proof_tag_code(cell.tag) == 8,
    ensures
        final(tables).width_is(old(tables).rtag@.len() as int),
        final(tables).rows_kept(old(tables), index as int),
        final(tables).status == proof_join(old(tables).status, final(tables).status),
        cell_malformed(*cell, index as int, count as int) ==> final(tables).status == ProofVerdict::Fail,
        cell.tag == ProofTag::Unsupported ==> final(tables).status == proof_join(old(tables).status, ProofVerdict::Unknown),
        final(tables).model() == succ_rule(old(tables).model(), *cell, count as int, index as int),
{
    let self_index = index as i64;
    let a0 = cell.args[0];
    proof {
        lemma_malformed_witness(*cell, index as int, count as int);
    }
    let ok = valid_child(a0, index, count);
    let is_nat = ReferenceTables::read(&tables.tt0, a0, ok, 0) == 2;
    let local = if !ok || !is_nat { ProofVerdict::Fail } else { ProofVerdict::Pass };
    let pred_rep = ReferenceTables::read(&tables.rep, a0, ok, self_index);
    let pred_value = ReferenceTables::read(&tables.nval, a0, ok, -1);
    let value = if ok && is_nat && pred_value >= 0 { plus_one(pred_value) } else { -1 };
    let mentioned = ReferenceTables::read(&tables.mentions, a0, ok, 0);
    tables.store_row(index, 8, [pred_rep, 0, 0, 0], self_index, value, mentioned);
    let triple = if local == ProofVerdict::Pass { [2, 0, 0] } else { [0, 0, 0] };
    tables.settle_row(index, triple, local);
}

fn advance_plus(tables: &mut ReferenceTables, cell: &ProofCell, count: usize, index: usize)
    requires
        index < count,
        index < old(tables).rtag@.len(),
        old(tables).width_is(old(tables).rtag@.len() as int),
        proof_tag_code(cell.tag) == 9,
    ensures
        final(tables).width_is(old(tables).rtag@.len() as int),
        final(tables).rows_kept(old(tables), index as int),
        final(tables).status == proof_join(old(tables).status, final(tables).status),
        cell_malformed(*cell, index as int, count as int) ==> final(tables).status == ProofVerdict::Fail,
        cell.tag == ProofTag::Unsupported ==> final(tables).status == proof_join(old(tables).status, ProofVerdict::Unknown),
        final(tables).model() == plus_rule(old(tables).model(), *cell, count as int, index as int),
{
    let self_index = index as i64;
    let a0 = cell.args[0];
    let a1 = cell.args[1];
    proof {
        lemma_malformed_witness(*cell, index as int, count as int);
    }
    let ok_left = valid_child(a0, index, count);
    let ok_right = valid_child(a1, index, count);
    let both_nat = ReferenceTables::read(&tables.tt0, a0, ok_left, 0) == 2 && ReferenceTables::read(&tables.tt0, a1, ok_right, 0) == 2;
    let local = if !ok_left || !ok_right || !both_nat { ProofVerdict::Fail } else { ProofVerdict::Pass };
    let left_value = ReferenceTables::read(&tables.nval, a0, ok_left, -1);
    let right_value = ReferenceTables::read(&tables.nval, a1, ok_right, -1);
    let value = if ok_left && ok_right && both_nat && left_value >= 0 && right_value >= 0 {
        sum_values(left_value, right_value)
    } else {
        -1
    };
    let left_rep = ReferenceTables::read(&tables.rep, a0, ok_left, self_index);
    let right_rep = ReferenceTables::read(&tables.rep, a1, ok_right, self_index);
    let mentioned = flag(
        ReferenceTables::read(&tables.mentions, a0, ok_left, 0) > 0 || ReferenceTables::read(&tables.mentions, a1, ok_right, 0) > 0,
    );
    tables.store_row(index, 9, [left_rep, right_rep, 0, 0], self_index, value, mentioned);
    let triple = if local == ProofVerdict::Pass { [2, 0, 0] } else { [0, 0, 0] };
    tables.settle_row(index, triple, local);
}

fn advance_nat_elim(tables: &mut ReferenceTables, cell: &ProofCell, count: usize, index: usize)
    requires
        index < count,
        index < old(tables).rtag@.len(),
        old(tables).width_is(old(tables).rtag@.len() as int),
        proof_tag_code(cell.tag) == 10,
    ensures
        final(tables).width_is(old(tables).rtag@.len() as int),
        final(tables).rows_kept(old(tables), index as int),
        final(tables).status == proof_join(old(tables).status, final(tables).status),
        cell_malformed(*cell, index as int, count as int) ==> final(tables).status == ProofVerdict::Fail,
        cell.tag == ProofTag::Unsupported ==> final(tables).status == proof_join(old(tables).status, ProofVerdict::Unknown),
        final(tables).model() == nat_elim_rule(old(tables).model(), *cell, count as int, index as int),
{
    let self_index = index as i64;
    let a0 = cell.args[0];
    let a1 = cell.args[1];
    let a2 = cell.args[2];
    let a3 = cell.args[3];
    proof {
        lemma_malformed_witness(*cell, index as int, count as int);
    }
    let ok_motive = valid_child(a0, index, count);
    let ok_zero = valid_child(a1, index, count);
    let ok_succ = valid_child(a2, index, count);
    let ok_target = valid_child(a3, index, count);
    let motive_is_pi = ReferenceTables::read(&tables.tt0, a0, ok_motive, 0) == 3;
    let motive_ok = ok_motive && motive_is_pi;
    let motive_domain = ReferenceTables::read(&tables.tt1, a0, motive_ok, 0);
    let motive_codomain = ReferenceTables::read(&tables.tt2, a0, motive_ok, 0);
    let domain_denotation = denote(
        ReferenceTables::read(&tables.rtag, motive_domain, motive_ok, 0),
        ReferenceTables::read(&tables.rr0, motive_domain, motive_ok, 0),
        ReferenceTables::read(&tables.rr1, motive_domain, motive_ok, 0),
    );
    let cod_denotation = denote(
        ReferenceTables::read(&tables.rtag, motive_codomain, motive_ok, 0),
        ReferenceTables::read(&tables.rr0, motive_codomain, motive_ok, 0),
        ReferenceTables::read(&tables.rr1, motive_codomain, motive_ok, 0),
    );
    let motive_well_formed = motive_ok && domain_denotation.0 == 2 && cod_denotation.0 == 1;
    let dependent = ReferenceTables::read(&tables.mentions, motive_codomain, motive_well_formed, 0) > 0;
    let zero_actual = (
        ReferenceTables::read(&tables.tt0, a1, ok_zero, 0),
        ReferenceTables::read(&tables.tt1, a1, ok_zero, 0),
        ReferenceTables::read(&tables.tt2, a1, ok_zero, 0),
    );
    let succ_is_pi = ReferenceTables::read(&tables.tt0, a2, ok_succ, 0) == 3;
    let succ_domain = ReferenceTables::read(&tables.tt1, a2, ok_succ, 0);
    let succ_codomain = ReferenceTables::read(&tables.tt2, a2, ok_succ, 0);
    let succ_domain_denotation = denote(
        ReferenceTables::read(&tables.rtag, succ_domain, ok_succ && succ_is_pi, 0),
        ReferenceTables::read(&tables.rr0, succ_domain, ok_succ && succ_is_pi, 0),
        ReferenceTables::read(&tables.rr1, succ_domain, ok_succ && succ_is_pi, 0),
    );
    let succ_cod_denotation = denote(
        ReferenceTables::read(&tables.rtag, succ_codomain, ok_succ && succ_is_pi, 0),
        ReferenceTables::read(&tables.rr0, succ_codomain, ok_succ && succ_is_pi, 0),
        ReferenceTables::read(&tables.rr1, succ_codomain, ok_succ && succ_is_pi, 0),
    );
    let target_is_nat = ReferenceTables::read(&tables.tt0, a3, ok_target, 0) == 2;
    let refs_ok = ok_motive && ok_zero && ok_succ && ok_target;
    let branches_ok = motive_well_formed && zero_actual.0 == cod_denotation.0 && zero_actual.1 == cod_denotation.1
        && zero_actual.2 == cod_denotation.2 && succ_is_pi && succ_domain_denotation.0 == 2 && succ_cod_denotation.0
        == cod_denotation.0 && succ_cod_denotation.1 == cod_denotation.1 && succ_cod_denotation.2 == cod_denotation.2
        && target_is_nat;
    let target_value = ReferenceTables::read(&tables.nval, a3, ok_target, -1);
    let local = if !refs_ok || !motive_well_formed || !branches_ok {
        ProofVerdict::Fail
    } else if dependent || target_value != 0 {
        ProofVerdict::Unknown
    } else {
        ProofVerdict::Pass
    };
    // Closed-zero iota: the eliminator takes the zero branch's
    // representative, value, and descriptor rows.
    let settled = local == ProofVerdict::Pass;
    let motive_rep = ReferenceTables::read(&tables.rep, a0, ok_motive, self_index);
    let zero_rep = ReferenceTables::read(&tables.rep, a1, ok_zero, self_index);
    let succ_rep = ReferenceTables::read(&tables.rep, a2, ok_succ, self_index);
    let target_rep = ReferenceTables::read(&tables.rep, a3, ok_target, self_index);
    let zero_value = ReferenceTables::read(&tables.nval, a1, ok_zero, -1);
    let zero_mentions = ReferenceTables::read(&tables.mentions, a1, ok_zero, 0);
    tables.store_row(
        index,
        10,
        [pick(settled, zero_rep, motive_rep), pick(settled, 0, zero_rep), pick(settled, 0, succ_rep), pick(settled, 0, target_rep)],
        pick(settled, zero_rep, self_index),
        pick(settled, zero_value, -1),
        pick(settled, zero_mentions, 0),
    );
    let triple = if settled { [zero_actual.0, zero_actual.1, zero_actual.2] } else { [0, 0, 0] };
    tables.settle_row(index, triple, local);
}

fn advance_eq(tables: &mut ReferenceTables, cell: &ProofCell, count: usize, index: usize)
    requires
        index < count,
        index < old(tables).rtag@.len(),
        old(tables).width_is(old(tables).rtag@.len() as int),
        proof_tag_code(cell.tag) == 11,
    ensures
        final(tables).width_is(old(tables).rtag@.len() as int),
        final(tables).rows_kept(old(tables), index as int),
        final(tables).status == proof_join(old(tables).status, final(tables).status),
        cell_malformed(*cell, index as int, count as int) ==> final(tables).status == ProofVerdict::Fail,
        cell.tag == ProofTag::Unsupported ==> final(tables).status == proof_join(old(tables).status, ProofVerdict::Unknown),
        final(tables).model() == eq_rule(old(tables).model(), *cell, count as int, index as int),
{
    let self_index = index as i64;
    let a0 = cell.args[0];
    let a1 = cell.args[1];
    let a2 = cell.args[2];
    proof {
        lemma_malformed_witness(*cell, index as int, count as int);
    }
    let ok_carrier = valid_child(a0, index, count);
    let ok_left = valid_child(a1, index, count);
    let ok_right = valid_child(a2, index, count);
    let carrier_is_type = ReferenceTables::read(&tables.tt0, a0, ok_carrier, 0) == 1;
    let carrier_level = ReferenceTables::read(&tables.tt1, a0, ok_carrier, 0);
    let carrier_rep = ReferenceTables::read(&tables.rep, a0, ok_carrier, self_index);
    let required = denote(
        ReferenceTables::read(&tables.rtag, carrier_rep, ok_carrier, 0),
        ReferenceTables::read(&tables.rr0, carrier_rep, ok_carrier, 0),
        ReferenceTables::read(&tables.rr1, carrier_rep, ok_carrier, 0),
    );
    let left_actual = (
        ReferenceTables::read(&tables.tt0, a1, ok_left, 0),
        ReferenceTables::read(&tables.tt1, a1, ok_left, 0),
        ReferenceTables::read(&tables.tt2, a1, ok_left, 0),
    );
    let right_actual = (
        ReferenceTables::read(&tables.tt0, a2, ok_right, 0),
        ReferenceTables::read(&tables.tt1, a2, ok_right, 0),
        ReferenceTables::read(&tables.tt2, a2, ok_right, 0),
    );
    let refs_ok = ok_carrier && ok_left && ok_right;
    let left_matches = left_actual.0 == required.0 && left_actual.1 == required.1 && left_actual.2 == required.2;
    let right_matches = right_actual.0 == required.0 && right_actual.1 == required.1 && right_actual.2 == required.2;
    let local = if !refs_ok || !carrier_is_type || !left_matches || !right_matches {
        ProofVerdict::Fail
    } else {
        ProofVerdict::Pass
    };
    let left_rep = ReferenceTables::read(&tables.rep, a1, ok_left, self_index);
    let right_rep = ReferenceTables::read(&tables.rep, a2, ok_right, self_index);
    let mentioned = flag(
        ReferenceTables::read(&tables.mentions, a1, ok_left, 0) > 0 || ReferenceTables::read(&tables.mentions, a2, ok_right, 0) > 0,
    );
    tables.store_row(index, 11, [carrier_rep, left_rep, right_rep, 0], self_index, -1, mentioned);
    let triple = if local == ProofVerdict::Pass { [1, carrier_level, 0] } else { [0, 0, 0] };
    tables.settle_row(index, triple, local);
}

fn advance_refl(tables: &mut ReferenceTables, cell: &ProofCell, count: usize, index: usize)
    requires
        index < count,
        index < old(tables).rtag@.len(),
        old(tables).width_is(old(tables).rtag@.len() as int),
        proof_tag_code(cell.tag) == 12,
    ensures
        final(tables).width_is(old(tables).rtag@.len() as int),
        final(tables).rows_kept(old(tables), index as int),
        final(tables).status == proof_join(old(tables).status, final(tables).status),
        cell_malformed(*cell, index as int, count as int) ==> final(tables).status == ProofVerdict::Fail,
        cell.tag == ProofTag::Unsupported ==> final(tables).status == proof_join(old(tables).status, ProofVerdict::Unknown),
        final(tables).model() == refl_rule(old(tables).model(), *cell, count as int, index as int),
{
    let self_index = index as i64;
    let a0 = cell.args[0];
    let a1 = cell.args[1];
    proof {
        lemma_malformed_witness(*cell, index as int, count as int);
    }
    let ok_witness = valid_child(a0, index, count);
    let ok_claim = valid_child(a1, index, count);
    let claim_is_eq = ReferenceTables::read(&tables.rtag, a1, ok_claim, 0) == 11;
    let local = if !ok_witness || !ok_claim || !claim_is_eq { ProofVerdict::Fail } else { ProofVerdict::Pass };
    let witness_rep = ReferenceTables::read(&tables.rep, a0, ok_witness, self_index);
    let claim_rep = ReferenceTables::read(&tables.rep, a1, ok_claim, self_index);
    let mentioned = flag(
        ReferenceTables::read(&tables.mentions, a0, ok_witness, 0) > 0 || ReferenceTables::read(&tables.mentions, a1, ok_claim, 0) > 0,
    );
    tables.store_row(index, 12, [witness_rep, claim_rep, 0, 0], self_index, -1, mentioned);
    tables.settle_row(index, [0, 0, 0], local);
}

fn advance_unsupported(tables: &mut ReferenceTables, cell: &ProofCell, count: usize, index: usize)
    requires
        index < count,
        index < old(tables).rtag@.len(),
        old(tables).width_is(old(tables).rtag@.len() as int),
        proof_tag_code(cell.tag) == 0,
    ensures
        final(tables).width_is(old(tables).rtag@.len() as int),
        final(tables).rows_kept(old(tables), index as int),
        final(tables).status == proof_join(old(tables).status, final(tables).status),
        cell_malformed(*cell, index as int, count as int) ==> final(tables).status == ProofVerdict::Fail,
        cell.tag == ProofTag::Unsupported ==> final(tables).status == proof_join(old(tables).status, ProofVerdict::Unknown),
        final(tables).model() == unsupported_rule(old(tables).model(), index as int),
{
    let self_index = index as i64;
    proof {
        lemma_malformed_witness(*cell, index as int, count as int);
    }
    tables.store_row(index, 0, [0, 0, 0, 0], self_index, -1, 0);
    tables.settle_row(index, [0, 0, 0], ProofVerdict::Unknown);
}


/// The entry at a computed position, or zero outside the table.
fn at(table: &Vec<i64>, position: usize) -> (r: i64)
    ensures
        r == at_pos(table@, position as int),
{
    if position < table.len() {
        table[position]
    } else {
        0
    }
}

/// A table value read as a position (negative values name no position).
fn position(value: i64) -> (r: usize)
    ensures
        r == as_position(value),
{
    if value < 0 {
        usize::MAX
    } else if (value as u64) <= (usize::MAX as u64) {
        value as usize
    } else {
        usize::MAX
    }
}

/// Deterministically check a proof artifact: run the forward pass over the
/// active prefix, then check that `proof` inhabits the proposition denoted
/// by `proposition`. Refl proofs are checked against their equation; every
/// other proof term must synthesize exactly the denoted descriptor. Open
/// proof terms never pass; undecidable structure resolves to UNKNOWN.
pub fn reference_check(artifact: &ProofArtifact) -> (r: ProofVerdict)
    ensures
        artifact.cells@.len() > PROOF_BUFFER_CAPACITY ==> r == ProofVerdict::Fail,
        artifact.count > artifact.cells@.len() ==> r == ProofVerdict::Fail,
        artifact.proof >= artifact.count || artifact.proposition >= artifact.count ==> r == ProofVerdict::Fail,
        (exists|i: int| 0 <= i < artifact.count && i < artifact.cells@.len() && cell_malformed(#[trigger] artifact.cells@[i], i, artifact.count as int))
            ==> r == ProofVerdict::Fail,
        (exists|i: int| 0 <= i < artifact.count && i < artifact.cells@.len() && (#[trigger] artifact.cells@[i]).tag == ProofTag::Unsupported)
            ==> r != ProofVerdict::Pass,
        r == ProofVerdict::Pass ==> structurally_sound(*artifact),
        proof_term_open(*artifact) ==> r != ProofVerdict::Pass,
        r == reference_verdict(*artifact),
{
    if artifact.cells.len() > PROOF_BUFFER_CAPACITY {
        return ProofVerdict::Fail;
    }
    if artifact.count > artifact.cells.len() {
        return ProofVerdict::Fail;
    }
    let count = artifact.count;
    let width = if count > 1 { count } else { 1 };
    let mut tables = ReferenceTables::fresh(width);
    let mut index: usize = 0;
    while index < count
        invariant
            count == artifact.count,
            count <= artifact.cells@.len(),
            width == (if count > 1 { count } else { 1 }),
            tables.width_is(width as int),
            tables.model() == pass_model(artifact.cells@, count as int, index as int),
            index <= count,
            (exists|i: int| 0 <= i < index && cell_malformed(#[trigger] artifact.cells@[i], i, count as int)) ==> tables.status
                == ProofVerdict::Fail,
            (exists|i: int| 0 <= i < index && (#[trigger] artifact.cells@[i]).tag == ProofTag::Unsupported) ==> tables.status
                != ProofVerdict::Pass,
        decreases count - index,
    {
        let ghost prior = tables.status;
        advance_reference(&mut tables, &artifact.cells, count, index);
        proof {
            if exists|i: int| 0 <= i < index + 1 && cell_malformed(#[trigger] artifact.cells@[i], i, count as int) {
                let i = choose|i: int| 0 <= i < index + 1 && cell_malformed(#[trigger] artifact.cells@[i], i, count as int);
                if i < index {
                    assert(prior == ProofVerdict::Fail);
                }
            }
            if exists|i: int| 0 <= i < index + 1 && (#[trigger] artifact.cells@[i]).tag == ProofTag::Unsupported {
                let i = choose|i: int| 0 <= i < index + 1 && (#[trigger] artifact.cells@[i]).tag == ProofTag::Unsupported;
                if i < index {
                    assert(prior != ProofVerdict::Pass);
                }
            }
        }
        index = index + 1;
    }
    let indices_ok = artifact.proof < count && artifact.proposition < count;
    let prop_rep = if artifact.proposition < count { position(at(&tables.rep, artifact.proposition)) } else { 0 };
    let prop_denotation = denote(at(&tables.rtag, prop_rep), at(&tables.rr0, prop_rep), at(&tables.rr1, prop_rep));
    let prop_is_type = prop_denotation.0 != 0 && indices_ok;
    let clamped = if artifact.proof < width - 1 { artifact.proof } else { width - 1 };
    let proof_desc = (at(&tables.tt0, clamped), at(&tables.tt1, clamped), at(&tables.tt2, clamped));
    let proof_rep = if artifact.proof < count { position(at(&tables.rep, artifact.proof)) } else { 0 };
    let proof_tag = at(&tables.rtag, proof_rep);
    let is_refl = proof_tag == 12 && indices_ok;
    let witness = position(at(&tables.rr0, proof_rep));
    let equation = position(at(&tables.rr1, proof_rep));
    let in_equation = is_refl && equation < count && witness < count;
    let eq_carrier = if in_equation { position(at(&tables.rr0, equation)) } else { 0 };
    let eq_left = if in_equation { position(at(&tables.rr1, equation)) } else { 0 };
    let eq_right = if in_equation { position(at(&tables.rr2, equation)) } else { 0 };
    let sides_defined = in_equation && eq_carrier < count && eq_left < count && eq_right < count;
    // Definitional equality of the Refl sides: shared representatives, or
    // equal closed-literal values on both sides.
    let left_matches = sides_defined && (at(&tables.rep, eq_left) == at(&tables.rep, witness) || (at(&tables.nval, eq_left) >= 0
        && at(&tables.nval, witness) >= 0 && at(&tables.nval, eq_left) == at(&tables.nval, witness)));
    let right_matches = sides_defined && (at(&tables.rep, eq_right) == at(&tables.rep, witness) || (at(&tables.nval, eq_right) >= 0
        && at(&tables.nval, witness) >= 0 && at(&tables.nval, eq_right) == at(&tables.nval, witness)));
    let witness_desc = if in_equation {
        (at(&tables.tt0, witness), at(&tables.tt1, witness), at(&tables.tt2, witness))
    } else {
        (0, 0, 0)
    };
    let carrier_denotation = if sides_defined {
        denote(at(&tables.rtag, eq_carrier), at(&tables.rr0, eq_carrier), at(&tables.rr1, eq_carrier))
    } else {
        (0, 0, 0)
    };
    let refl_holds = in_equation && sides_defined && equation == prop_rep && left_matches && right_matches && witness_desc.0
        == carrier_denotation.0 && witness_desc.1 == carrier_denotation.1 && witness_desc.2 == carrier_denotation.2;
    let descriptor_matches = indices_ok && proof_desc.0 == prop_denotation.0 && proof_desc.1 == prop_denotation.1
        && proof_desc.2 == prop_denotation.2;
    let claim_holds = if is_refl { refl_holds } else { descriptor_matches };
    let open = indices_ok && at(&tables.mentions, artifact.proof) > 0;
    let mut verdict = tables.status;
    if !indices_ok || !prop_is_type || !claim_holds {
        verdict = verdict.dominate(ProofVerdict::Fail);
    }
    if open {
        verdict = verdict.dominate(ProofVerdict::Unknown);
    }
    verdict
}

/// What a PASS from the reference checker implies on structure alone: the
/// buffer fits, the claim indices are active, and every active cell has
/// valid references and a supported tag.
pub open spec fn structurally_sound(artifact: ProofArtifact) -> bool {
    &&& artifact.cells@.len() <= PROOF_BUFFER_CAPACITY
    &&& artifact.count <= artifact.cells@.len()
    &&& artifact.proof < artifact.count
    &&& artifact.proposition < artifact.count
    &&& forall|i: int| 0 <= i < artifact.count ==> !cell_malformed(#[trigger] artifact.cells@[i], i, artifact.count as int)
    &&& forall|i: int| 0 <= i < artifact.count ==> (#[trigger] artifact.cells@[i]).tag != ProofTag::Unsupported
}

/// A kernel verdict bound to the exact obligation, kernel version,
/// assumptions and dependencies it was checked under. The dependencies are
/// the map of dependency identities to fingerprints, in ascending identity
/// order. Reuse requires an exact match on every field.
#[derive(Debug, Clone, PartialEq, Eq)]
pub struct ProofBinding {
    pub proof: SemanticId,
    pub kernel: String,
    pub obligation: SemanticId,
    pub assumptions: Vec<SemanticId>,
    pub dependencies: Vec<(SemanticId, String)>,
    pub outcome: ProofVerdict,
}

/// A dependency map as identity and fingerprint texts.
pub open spec fn dependency_views(dependencies: Seq<(SemanticId, String)>) -> Seq<(Seq<char>, Seq<char>)> {
    dependencies.map_values(|d: (SemanticId, String)| (d.0.0@, d.1@))
}

pub(crate) fn same_dependencies(a: &Vec<(SemanticId, String)>, b: &[(SemanticId, String)]) -> (r: bool)
    ensures
        r == (dependency_views(a@) == dependency_views(b@)),
{
    if a.len() != b.len() {
        assert(dependency_views(a@).len() != dependency_views(b@).len());
        return false;
    }
    let mut i: usize = 0;
    while i < a.len()
        invariant
            i <= a@.len(),
            a@.len() == b@.len(),
            forall|k: int| 0 <= k < i ==> dependency_views(a@)[k] == dependency_views(b@)[k],
        decreases a@.len() - i,
    {
        if !a[i].0.same(&b[i].0) || !text_eq(a[i].1.as_str(), b[i].1.as_str()) {
            assert(dependency_views(a@)[i as int] != dependency_views(b@)[i as int]);
            return false;
        }
        i = i + 1;
    }
    assert(dependency_views(a@) =~= dependency_views(b@));
    true
}

fn same_ids(a: &Vec<SemanticId>, b: &Vec<SemanticId>) -> (r: bool)
    ensures
        r == (id_views(a@) == id_views(b@)),
{
    if a.len() != b.len() {
        assert(id_views(a@).len() != id_views(b@).len());
        return false;
    }
    let mut i: usize = 0;
    while i < a.len()
        invariant
            i <= a@.len(),
            a@.len() == b@.len(),
            forall|k: int| 0 <= k < i ==> id_views(a@)[k] == id_views(b@)[k],
        decreases a@.len() - i,
    {
        if !a[i].same(&b[i]) {
            assert(id_views(a@)[i as int] != id_views(b@)[i as int]);
            return false;
        }
        i = i + 1;
    }
    assert(id_views(a@) =~= id_views(b@));
    true
}

/// The keys of a dependency map: its identity texts, in order.
pub open spec fn dependency_keys(d: Seq<(Seq<char>, Seq<char>)>) -> Seq<Seq<char>> {
    d.map_values(|p: (Seq<char>, Seq<char>)| p.0)
}

/// A dependency map in its ordered form: keys strictly ascending, so each
/// identity has exactly one fingerprint.
pub open spec fn keyed(d: Seq<(Seq<char>, Seq<char>)>) -> bool {
    strictly_sorted(dependency_keys(d))
}

/// Two dependency maps in ordered form that hold the same (identity,
/// fingerprint) entries are the same list, so comparing them in order is
/// comparing them as maps.
pub proof fn lemma_keyed_maps_equal(a: Seq<(Seq<char>, Seq<char>)>, b: Seq<(Seq<char>, Seq<char>)>)
    requires
        keyed(a),
        keyed(b),
        forall|p: (Seq<char>, Seq<char>)| a.contains(p) <==> b.contains(p),
    ensures
        a == b,
{
    let ka = dependency_keys(a);
    let kb = dependency_keys(b);
    assert forall|t: Seq<char>| ka.contains(t) <==> kb.contains(t) by {
        if ka.contains(t) {
            let i = choose|i: int| 0 <= i < ka.len() && ka[i] == t;
            assert(a.contains(a[i]));
            let j = choose|j: int| 0 <= j < b.len() && b[j] == a[i];
            assert(kb[j] == t);
        }
        if kb.contains(t) {
            let i = choose|i: int| 0 <= i < kb.len() && kb[i] == t;
            assert(b.contains(b[i]));
            let j = choose|j: int| 0 <= j < a.len() && a[j] == b[i];
            assert(ka[j] == t);
        }
    }
    crate::identity::lemma_sorted_sets_unique(ka, kb);
    assert(a.len() == ka.len() && b.len() == kb.len());
    assert forall|i: int| 0 <= i < a.len() implies a[i] == b[i] by {
        assert(a.contains(a[i]));
        let j = choose|j: int| 0 <= j < b.len() && b[j] == a[i];
        assert(kb[j] == ka[i]);
        assert(kb[i] == ka[i]);
        if j != i {
            if j < i {
                assert(seq_lt(kb[j], kb[i]));
            } else {
                assert(seq_lt(kb[i], kb[j]));
            }
            crate::text::lemma_seq_lt_asymmetric(kb[i], kb[i]);
        }
    }
    assert(a =~= b);
}

/// The canonical (sorted, one of each) form of a set of identity texts.
pub open spec fn canonical_ids(s: Seq<Seq<char>>) -> Seq<Seq<char>> {
    choose|c: Seq<Seq<char>>| strictly_sorted(c) && forall|t: Seq<char>| c.contains(t) <==> s.contains(t)
}

impl ProofBinding {
    /// Bind a checked artifact: `None` unless the identity is a valid seal,
    /// the kernel is this kernel, and the independent reference checker
    /// returns PASS for the exact artifact, so a binding always carries a
    /// checked verdict, never a claimed one.
    pub fn bind(artifact: &ProofArtifact, dependencies: Vec<(SemanticId, String)>) -> (r: Option<Self>)
        requires
            keyed(dependency_views(dependencies@)),
        ensures
            r is Some <==> (proof_identity_valid(*artifact) && artifact.kernel@ == PROOF_KERNEL_ID@ && reference_verdict(*artifact)
                == ProofVerdict::Pass),
            r is Some ==> structurally_sound(*artifact),
            r matches Some(b) ==> {
                &&& b.proof.0@ == artifact.identity.0@
                &&& b.kernel@ == artifact.kernel@
                &&& b.obligation.0@ == artifact.obligation.0@
                &&& strictly_sorted(id_views(b.assumptions@))
                &&& forall|t: Seq<char>| id_views(b.assumptions@).contains(t) <==> id_views(artifact.assumptions@).contains(t)
                &&& dependency_views(b.dependencies@) == dependency_views(dependencies@)
                &&& keyed(dependency_views(b.dependencies@))
                &&& b.outcome == ProofVerdict::Pass
            },
    {
        if !artifact.identity_is_valid() || !text_eq(artifact.kernel.as_str(), PROOF_KERNEL_ID) {
            return None;
        }
        let verdict = reference_check(artifact);
        if verdict != ProofVerdict::Pass {
            return None;
        }
        let assumptions = sorted_unique_ids(&artifact.assumptions);
        Some(Self {
            proof: artifact.identity.duplicate(),
            kernel: artifact.kernel.clone(),
            obligation: artifact.obligation.duplicate(),
            assumptions,
            dependencies,
            outcome: ProofVerdict::Pass,
        })
    }

    /// Reuse is permitted only on an exact match of every bound field (the
    /// expected assumptions compared as a set) and a PASS outcome. A bound
    /// dependency map is kept in ordered form (`keyed`), so for an expected
    /// map in ordered form the in-order comparison is the comparison of maps
    /// (`lemma_keyed_maps_equal`).
    pub fn reusable_if(
        &self,
        proof: &SemanticId,
        kernel: &str,
        obligation: &SemanticId,
        assumptions: &[SemanticId],
        dependencies: &[(SemanticId, String)],
        outcome: ProofVerdict,
    ) -> (r: bool)
        ensures
            r == (self.proof.0@ == proof.0@ && self.kernel@ == kernel@ && self.obligation.0@ == obligation.0@ && id_views(
                self.assumptions@,
            ) == canonical_ids(id_views(assumptions@)) && dependency_views(self.dependencies@) == dependency_views(
                dependencies@,
            ) && self.outcome == outcome && self.outcome == ProofVerdict::Pass),
    {
        let mut expected_input: Vec<SemanticId> = Vec::new();
        let mut i: usize = 0;
        while i < assumptions.len()
            invariant
                i <= assumptions@.len(),
                expected_input@.len() == i,
                forall|k: int| 0 <= k < i ==> (#[trigger] expected_input@[k]).0@ == assumptions@[k].0@,
            decreases assumptions@.len() - i,
        {
            expected_input.push(assumptions[i].duplicate());
            i = i + 1;
        }
        assert(id_views(expected_input@) =~= id_views(assumptions@));
        let expected = sorted_unique_ids(&expected_input);
        proof {
            lemma_canonical_ids(id_views(expected@), id_views(assumptions@));
        }
        self.proof.same(proof) && text_eq(self.kernel.as_str(), kernel) && self.obligation.same(obligation) && same_ids(
            &self.assumptions,
            &expected,
        ) && same_dependencies(&self.dependencies, dependencies) && self.outcome == outcome && self.outcome
            == ProofVerdict::Pass
    }
}

proof fn lemma_canonical_ids(c: Seq<Seq<char>>, s: Seq<Seq<char>>)
    requires
        strictly_sorted(c),
        forall|t: Seq<char>| c.contains(t) <==> s.contains(t),
    ensures
        c == canonical_ids(s),
{
    let d = canonical_ids(s);
    assert(strictly_sorted(d) && forall|t: Seq<char>| d.contains(t) <==> s.contains(t));
    crate::identity::lemma_sorted_sets_unique(c, d);
}

}
