use vstd::prelude::*;

use super::eval::{clamp, s_eval};
use super::infer::{defeq, depth_budget, s_defeq, s_infer};
use super::shape::{
    lemma_parent_table_unique,
    active_len, binders_of, immediates_in_range, cell_level, child_ref, children_below, is_parent, level_of,
    nested_view, parent_table, parents_of, shape_ok, target_entry, topo_ok, DepBuffer,
};
use super::terms::{
    tag_ref_slots, verdict_code, verdict_join, DepCell, DepTag, DepVerdict,
    PROOF_DEP_BUFFER_CAPACITY, PROOF_DEP_FUEL,
};
use super::value::{empty_env, env_extend, value_head, DepEnv, DepVal, Fuel};

verus! {

/// The assumption seed from cell `i` on: each `Hyp` declaration, in buffer
/// order, binds its level to a rigid variable of its carrier type.
pub open spec fn s_hyp_seed_from(cells: Seq<DepCell>, n: int, i: int, env: DepEnv, f: u64) -> (Result<DepEnv, DepVerdict>, u64)
    decreases n - i,
{
    if i < 0 || i >= n {
        (Ok(env), f)
    } else if cells[i].tag == DepTag::Hyp {
        let (t, f1) = s_eval(cells, cells[i].args@[1] as usize, env, f);
        let f1 = clamp(f1, f);
        match t {
            Err(e) => (Err(e), f1),
            Ok(ty) => s_hyp_seed_from(cells, n, i + 1, env_extend(env, cells[i].args@[0], DepVal::Var(cells[i].args@[0]), ty), f1),
        }
    } else {
        s_hyp_seed_from(cells, n, i + 1, env, f)
    }
}

/// The buffer-global assumption environment.
pub open spec fn s_hyp_seed(cells: Seq<DepCell>, count: usize, f: u64) -> (Result<DepEnv, DepVerdict>, u64) {
    s_hyp_seed_from(cells, active_len(cells, count), 0, empty_env(), f)
}

/// The binders enclosing cell `current`, innermost first: every hop up the
/// single-parent chain that enters a `Pi` or `Lam` through its body edge
/// contributes that binder's level and domain cell. Domain edges contribute
/// nothing (domains sit outside their binder's scope).
pub open spec fn scope_chain(cells: Seq<DepCell>, count: usize, parents: Seq<Seq<usize>>, current: int) -> Seq<(i64, usize)>
    decreases count - current,
{
    if !(0 <= current < count) || parents[current].len() != 1 {
        seq![]
    } else {
        let up = parents[current][0] as int;
        if up <= current || up >= count {
            seq![]
        } else {
            let cell = cells[up];
            let rest = scope_chain(cells, count, parents, up);
            if (cell.tag == DepTag::Pi || cell.tag == DepTag::Lam) && cell.args@[1] as usize == current as usize {
                seq![(cell_level(cell), cell.args@[0] as usize)] + rest
            } else {
                rest
            }
        }
    }
}

/// Extend `env` with the first `k` binders of `chain`, outermost first.
pub open spec fn s_extend_chain(cells: Seq<DepCell>, chain: Seq<(i64, usize)>, k: int, env: DepEnv, f: u64) -> (Result<DepEnv, DepVerdict>, u64)
    decreases k,
{
    if k <= 0 {
        (Ok(env), f)
    } else {
        let (level, domain) = chain[k - 1];
        let (d, f1) = s_eval(cells, domain, env, f);
        let f1 = clamp(f1, f);
        match d {
            Err(e) => (Err(e), f1),
            Ok(v) => s_extend_chain(cells, chain, k - 1, env_extend(env, level, DepVal::Var(level), v), f1),
        }
    }
}

/// The lexical scope of cell `index`: the assumption seed, then every
/// enclosing binder outermost-first with a rigid variable of its domain.
pub open spec fn s_scope_env(cells: Seq<DepCell>, count: usize, parents: Seq<Seq<usize>>, index: int, f: u64) -> (Result<DepEnv, DepVerdict>, u64) {
    let (h, f1) = s_hyp_seed(cells, count, f);
    let f1 = clamp(f1, f);
    match h {
        Err(e) => (Err(e), f1),
        Ok(env) => {
            let chain = scope_chain(cells, count, parents, index);
            s_extend_chain(cells, chain, chain.len() as int, env, f1)
        },
    }
}

/// A parent of an active cell sits strictly above it.
proof fn lemma_parent_above(cells: Seq<DepCell>, count: usize, parents: Seq<Seq<usize>>, c: int, j: int)
    requires
        topo_ok(cells, count),
        parent_table(cells, count, parents),
        0 <= c < count,
        0 <= j < parents[c].len(),
    ensures
        c < parents[c][j] < active_len(cells, count),
{
    let p = parents[c][j] as int;
    assert(is_parent(cells, p, c));
    let k = choose|k: int| 0 <= k < tag_ref_slots(cells[p].tag).len() && #[trigger] child_ref(cells[p], k) == c;
    assert(children_below(cells[p], p));
    assert(0 <= child_ref(cells[p], k) < p);
}

impl DepBuffer {
    /// Seed environment: every assumption maps to a rigid variable with its
    /// (closed) carrier type, in buffer order.
    pub fn hyp_seed(&self, fuel: &mut Fuel) -> (r: Result<DepEnv, DepVerdict>)
        ensures
            final(fuel).0 <= old(fuel).0,
            (r, final(fuel).0) == s_hyp_seed(self.cells@, self.count, old(fuel).0),
    {
        let n = if self.count < self.cells.len() { self.count } else { self.cells.len() };
        let mut env = DepEnv::empty();
        let mut i: usize = 0;
        while i < n
            invariant
                n == active_len(self.cells@, self.count),
                n <= self.cells@.len(),
                i <= n,
                fuel.0 <= old(fuel).0,
                s_hyp_seed(self.cells@, self.count, old(fuel).0) == s_hyp_seed_from(self.cells@, n as int, i as int, env, fuel.0),
            decreases n - i,
        {
            if self.cells[i].tag == DepTag::Hyp {
                let ty = self.eval(self.cells[i].args[1] as usize, &env, fuel)?;
                env = env.extended(self.cells[i].args[0], DepVal::Var(self.cells[i].args[0]), ty);
            }
            i = i + 1;
        }
        Ok(env)
    }

    /// Reconstruct the lexical scope of one cell: walk up the single-parent
    /// chain, collecting enclosing `Pi`/`Lam` binders whose body edge leads
    /// here, then extend outermost-first with rigid variables.
    pub fn scope_env(&self, parents: &[Vec<usize>], index: usize, fuel: &mut Fuel) -> (r: Result<DepEnv, DepVerdict>)
        requires
            topo_ok(self.cells@, self.count),
            parent_table(self.cells@, self.count, nested_view(parents@)),
            index < self.count,
        ensures
            final(fuel).0 <= old(fuel).0,
            (r, final(fuel).0) == s_scope_env(self.cells@, self.count, nested_view(parents@), index as int, old(fuel).0),
    {
        let ghost pv = nested_view(parents@);
        let mut chain: Vec<(i64, usize)> = Vec::new();
        let mut current = index;
        loop
            invariant
                pv == nested_view(parents@),
                topo_ok(self.cells@, self.count),
                parent_table(self.cells@, self.count, pv),
                index <= current < self.count,
                chain@.len() <= current - index,
                scope_chain(self.cells@, self.count, pv, index as int) == chain@ + scope_chain(self.cells@, self.count, pv, current as int),
            ensures
                scope_chain(self.cells@, self.count, pv, index as int) == chain@,
            decreases self.count - current,
        {
            if chain.len() > self.count {
                assert(false);
                return Err(DepVerdict::Fail);
            }
            let ups = &parents[current];
            assert(ups@ == pv[current as int]);
            if ups.len() != 1 {
                assert(chain@ + seq![] =~= chain@);
                break;
            }
            let up = ups[0];
            proof {
                lemma_parent_above(self.cells@, self.count, pv, current as int, 0);
            }
            let cell = &self.cells[up];
            if (cell.tag == DepTag::Pi || cell.tag == DepTag::Lam) && cell.args[1] as usize == current {
                let ghost old_chain = chain@;
                chain.push((level_of(cell), cell.args[0] as usize));
                assert(old_chain + (seq![(cell_level(*cell), cell.args@[0] as usize)] + scope_chain(self.cells@, self.count, pv, up as int))
                    =~= chain@ + scope_chain(self.cells@, self.count, pv, up as int));
            }
            current = up;
        }
        let mut env = self.hyp_seed(fuel)?;
        let mut k = chain.len();
        while k > 0
            invariant
                pv == nested_view(parents@),
                k <= chain@.len(),
                fuel.0 <= old(fuel).0,
                s_scope_env(self.cells@, self.count, pv, index as int, old(fuel).0) == s_extend_chain(self.cells@, chain@, k as int, env, fuel.0),
            decreases k,
        {
            let (level, domain) = chain[k - 1];
            let domain_val = self.eval(domain, &env, fuel)?;
            env = env.extended(level, DepVal::Var(level), domain_val);
            k = k - 1;
        }
        Ok(env)
    }
}


/// The claimed cells name active cells of a buffer within capacity.
pub open spec fn range_ok(count: usize, proof_idx: usize, prop_idx: usize) -> bool {
    0 < count <= PROOF_DEP_BUFFER_CAPACITY && proof_idx < count && prop_idx < count
}

/// The cell at `index` exists and declares an assumption.
pub open spec fn hyp_at(cells: Seq<DepCell>, index: usize) -> bool {
    index < cells.len() && cells[index as int].tag == DepTag::Hyp
}

/// The resolution targets of a well-shaped buffer.
pub open spec fn targets_of(cells: Seq<DepCell>, count: usize) -> Seq<Option<usize>> {
    Seq::new(count as nat, |i: int| target_entry(cells, count, parents_of(cells, count), binders_of(cells, count), i))
}

/// Every active cell from `i` on is elaborated in its own scope; the worst
/// verdict dominates, and the proof_idx's type and the proposition's term are
/// recorded as they are synthesized.
pub open spec fn s_check_cells(
    cells: Seq<DepCell>,
    count: usize,
    proof_idx: usize,
    prop_idx: usize,
    i: int,
    joined: DepVerdict,
    proof_ty: Option<DepVal>,
    prop_val: Option<DepVal>,
    f: u64,
) -> (DepVerdict, Option<DepVal>, Option<DepVal>, u64)
    decreases count - i,
{
    if i < 0 || i >= count {
        (joined, proof_ty, prop_val, f)
    } else {
        let (e, f1) = s_scope_env(cells, count, parents_of(cells, count), i, f);
        let f1 = clamp(f1, f);
        match e {
            Err(v) => s_check_cells(cells, count, proof_idx, prop_idx, i + 1, verdict_join(joined, v), proof_ty, prop_val, f1),
            Ok(env) => {
                let (r, f2) = s_infer(cells, i as usize, env, targets_of(cells, count), f1);
                let f2 = clamp(f2, f1);
                match r {
                    Ok((term, ty)) => s_check_cells(
                        cells,
                        count,
                        proof_idx,
                        prop_idx,
                        i + 1,
                        joined,
                        if i == proof_idx { Some(ty) } else { proof_ty },
                        if i == prop_idx { Some(term) } else { prop_val },
                        f2,
                    ),
                    Err(v) => s_check_cells(cells, count, proof_idx, prop_idx, i + 1, verdict_join(joined, v), proof_ty, prop_val, f2),
                }
            },
        }
    }
}

/// The reference verdict for "cell `proof_idx` proves the proposition at cell
/// `prop_idx`": malformed claims and structural violations FAIL; otherwise the
/// joined elaboration verdict, then the proof_idx's type must be definitionally
/// equal to the proposition.
pub open spec fn dep_check_verdict(cells: Seq<DepCell>, count: usize, proof_idx: usize, prop_idx: usize) -> DepVerdict {
    if !range_ok(count, proof_idx, prop_idx) || hyp_at(cells, proof_idx) || hyp_at(cells, prop_idx) {
        DepVerdict::Fail
    } else if !shape_ok(cells, count) {
        DepVerdict::Fail
    } else {
        let (joined, proof_ty, prop_val, f) = s_check_cells(cells, count, proof_idx, prop_idx, 0, DepVerdict::Pass, None, None, PROOF_DEP_FUEL);
        if joined != DepVerdict::Pass {
            joined
        } else {
            match (proof_ty, prop_val) {
                (Some(a), Some(b)) => match s_defeq(cells, a, b, 0, f).0 {
                    Ok(_) => DepVerdict::Pass,
                    Err(v) => v,
                },
                _ => DepVerdict::Unknown,
            }
        }
    }
}

fn valid_range(count: usize, indices: &[usize]) -> (r: bool)
    ensures
        r == (0 < count <= PROOF_DEP_BUFFER_CAPACITY && forall|i: int| 0 <= i < indices@.len() ==> #[trigger] indices@[i] < count),
{
    if !(count > 0 && count <= PROOF_DEP_BUFFER_CAPACITY) {
        return false;
    }
    let mut i: usize = 0;
    while i < indices.len()
        invariant
            i <= indices@.len(),
            forall|j: int| 0 <= j < i ==> #[trigger] indices@[j] < count,
        decreases indices@.len() - i,
    {
        if indices[i] >= count {
            return false;
        }
        i = i + 1;
    }
    true
}

fn is_hyp(cells: &[DepCell], index: usize) -> (r: bool)
    ensures
        r == hyp_at(cells@, index),
{
    if index < cells.len() {
        cells[index].tag == DepTag::Hyp
    } else {
        false
    }
}

/// The shared precondition of the check entries: both indices in range and
/// neither names an assumption declaration.
fn claim_ok(cells: &Vec<DepCell>, count: usize, proof_idx: usize, prop_idx: usize) -> (r: bool)
    ensures
        r == (range_ok(count, proof_idx, prop_idx) && !hyp_at(cells@, proof_idx) && !hyp_at(cells@, prop_idx)),
{
    let indices = [proof_idx, prop_idx];
    let ok = valid_range(count, indices.as_slice());
    proof {
        if ok {
            assert(indices@[0] < count && indices@[1] < count);
        }
        if range_ok(count, proof_idx, prop_idx) {
            assert(forall|i: int| 0 <= i < indices@.len() ==> #[trigger] indices@[i] < count);
        }
    }
    ok && !is_hyp(cells.as_slice(), proof_idx) && !is_hyp(cells.as_slice(), prop_idx)
}

/// `check_proof_code`: 0 PASS, 1 FAIL, 2 UNKNOWN. Every active cell is
/// inferred and the worst verdict dominates (FAIL > UNKNOWN > PASS), then the
/// claim is checked.
pub fn dep_check(cells: Vec<DepCell>, count: usize, proof_idx: usize, prop_idx: usize) -> (r: i64)
    ensures
        r == verdict_code(dep_check_verdict(cells@, count, proof_idx, prop_idx)),
        0 <= r <= 2,
        !shape_ok(cells@, count) ==> r == 1,
{
    if !claim_ok(&cells, count, proof_idx, prop_idx) {
        return DepVerdict::Fail.code();
    }
    let buffer = DepBuffer::new(cells, count);
    let targets = match buffer.check_shape() {
        Ok(targets) => targets,
        Err(verdict) => return verdict.code(),
    };
    let parents = buffer.parents();
    let ghost cs = buffer.cells@;
    proof {
        lemma_parent_table_unique(cs, count, nested_view(parents@), parents_of(cs, count));
        assert(targets@ =~= targets_of(cs, count));
    }
    let mut fuel = Fuel(PROOF_DEP_FUEL);
    let mut joined = DepVerdict::Pass;
    let mut proof_ty: Option<DepVal> = None;
    let mut prop_val: Option<DepVal> = None;
    let mut index: usize = 0;
    while index < count
        invariant
            cs == buffer.cells@,
            buffer.count == count,
            count <= PROOF_DEP_BUFFER_CAPACITY,
            shape_ok(cs, count),
            topo_ok(cs, count),
            nested_view(parents@) == parents_of(cs, count),
            parent_table(cs, count, nested_view(parents@)),
            targets@ == targets_of(cs, count),
            index <= count,
            fuel.0 <= PROOF_DEP_FUEL,
            s_check_cells(cs, count, proof_idx, prop_idx, 0, DepVerdict::Pass, None, None, PROOF_DEP_FUEL) == s_check_cells(
                cs,
                count,
                proof_idx,
                prop_idx,
                index as int,
                joined,
                proof_ty,
                prop_val,
                fuel.0,
            ),
        decreases count - index,
    {
        match buffer.scope_env(&parents, index, &mut fuel) {
            Ok(env) => match buffer.infer(index, &env, targets.as_slice(), &mut fuel) {
                Ok((term, ty)) => {
                    if index == proof_idx {
                        proof_ty = Some(ty);
                    }
                    if index == prop_idx {
                        prop_val = Some(term);
                    }
                },
                Err(verdict) => {
                    joined = joined.dominate(verdict);
                },
            },
            Err(verdict) => {
                joined = joined.dominate(verdict);
            },
        }
        index = index + 1;
    }
    if joined != DepVerdict::Pass {
        return joined.code();
    }
    match (proof_ty, prop_val) {
        (Some(proof_ty), Some(prop_val)) => match defeq(&buffer, &proof_ty, &prop_val, 0, &mut fuel) {
            Ok(()) => DepVerdict::Pass.code(),
            Err(verdict) => verdict.code(),
        },
        _ => DepVerdict::Unknown.code(),
    }
}


/// Cell `i` lies in the cone of the claim: it is the proof or the
/// proposition cell, or a child of an active cell in the cone.
pub open spec fn in_cone(cells: Seq<DepCell>, count: usize, p: usize, q: usize, i: int) -> bool
    decreases count - i, 1nat, 0nat,
{
    0 <= i < count && (i == p || i == q || cone_parent_from(cells, count, p, q, i, i + 1))
}

/// Some active cell at or above `j` in the cone references cell `i`.
pub open spec fn cone_parent_from(cells: Seq<DepCell>, count: usize, p: usize, q: usize, i: int, j: int) -> bool
    decreases count - i, 0nat, count - j,
{
    if 0 <= i < j < count {
        (j < active_len(cells, count) && is_parent(cells, j, i) && in_cone(cells, count, p, q, j))
            || cone_parent_from(cells, count, p, q, i, j + 1)
    } else {
        false
    }
}

proof fn lemma_cone_parent_from(cells: Seq<DepCell>, count: usize, p: usize, q: usize, i: int, j: int)
    requires
        0 <= i < j,
    ensures
        cone_parent_from(cells, count, p, q, i, j) <==> exists|m: int|
            j <= m < count && m < active_len(cells, count) && #[trigger] is_parent(cells, m, i) && in_cone(cells, count, p, q, m),
    decreases count - j,
{
    if j < count {
        lemma_cone_parent_from(cells, count, p, q, i, j + 1);
        if cone_parent_from(cells, count, p, q, i, j) {
            if j < active_len(cells, count) && is_parent(cells, j, i) && in_cone(cells, count, p, q, j) {
            } else {
                let m = choose|m: int|
                    j + 1 <= m < count && m < active_len(cells, count) && #[trigger] is_parent(cells, m, i) && in_cone(cells, count, p, q, m);
                assert(is_parent(cells, m, i));
            }
        }
        if exists|m: int| j <= m < count && m < active_len(cells, count) && #[trigger] is_parent(cells, m, i) && in_cone(cells, count, p, q, m) {
            let m = choose|m: int| j <= m < count && m < active_len(cells, count) && #[trigger] is_parent(cells, m, i) && in_cone(cells, count, p, q, m);
            if m != j {
                assert(is_parent(cells, m, i));
            }
        }
    }
}

/// Hypothesis `h` is consumed: a variable occurrence in the cone resolves to it.
pub open spec fn consumed(cells: Seq<DepCell>, count: usize, p: usize, q: usize, h: int) -> bool {
    exists|v: int|
        0 <= v < count && v < cells.len() && #[trigger] in_cone(cells, count, p, q, v) && cells[v].tag == DepTag::Var
            && targets_of(cells, count)[v] == Some(h as usize)
}

/// The consumed hypotheses from cell `h` on, ascending:
/// `(buffer index, declared level, carrier cell)`.
pub open spec fn used_from(cells: Seq<DepCell>, count: usize, p: usize, q: usize, h: int) -> Seq<(usize, i64, i64)>
    decreases active_len(cells, count) - h,
{
    if h < 0 || h >= active_len(cells, count) {
        seq![]
    } else {
        let rest = used_from(cells, count, p, q, h + 1);
        if cells[h].tag == DepTag::Hyp && consumed(cells, count, p, q, h) {
            seq![(h as usize, cells[h].args@[0], cells[h].args@[1])] + rest
        } else {
            rest
        }
    }
}

/// The exact used hypotheses of a checked claim; none unless it checks.
pub open spec fn used_spec(cells: Seq<DepCell>, count: usize, p: usize, q: usize) -> Option<Seq<(usize, i64, i64)>> {
    if dep_check_verdict(cells, count, p, q) == DepVerdict::Pass {
        Some(used_from(cells, count, p, q, 0))
    } else {
        None
    }
}

proof fn lemma_pass_shape(cells: Seq<DepCell>, count: usize, p: usize, q: usize)
    requires
        dep_check_verdict(cells, count, p, q) == DepVerdict::Pass,
    ensures
        range_ok(count, p, q),
        !hyp_at(cells, p),
        !hyp_at(cells, q),
        shape_ok(cells, count),
        topo_ok(cells, count),
{
}

/// Mark the cone of the claim with one descending sweep: children sit
/// strictly below their parents, so every parent is settled before its
/// children are visited.
fn claim_cone(buffer: &DepBuffer, p: usize, q: usize) -> (r: Vec<bool>)
    requires
        topo_ok(buffer.cells@, buffer.count),
        p < buffer.count,
        q < buffer.count,
    ensures
        r@.len() == buffer.count,
        forall|i: int| 0 <= i < buffer.count ==> #[trigger] r@[i] == in_cone(buffer.cells@, buffer.count, p, q, i),
{
    let count = buffer.count;
    let ghost cells = buffer.cells@;
    let n = if count < buffer.cells.len() { count } else { buffer.cells.len() };
    let mut cone: Vec<bool> = Vec::new();
    let mut c: usize = 0;
    while c < count
        invariant
            c <= count,
            cone@.len() == c,
            forall|k: int| 0 <= k < c ==> #[trigger] cone@[k] == (k == p || k == q),
        decreases count - c,
    {
        cone.push(c == p || c == q);
        c = c + 1;
    }
    let mut t: usize = count;
    while t > 0
        invariant
            cells == buffer.cells@,
            count == buffer.count,
            topo_ok(cells, count),
            n == active_len(cells, count),
            n <= cells.len(),
            t <= count,
            cone@.len() == count,
            p < count,
            q < count,
            forall|k: int| t <= k < count ==> #[trigger] cone@[k] == in_cone(cells, count, p, q, k),
            forall|k: int|
                0 <= k < t ==> #[trigger] cone@[k] == (k == p || k == q || exists|m: int|
                    t <= m < count && m < n && #[trigger] is_parent(cells, m, k) && in_cone(cells, count, p, q, m)),
        decreases t,
    {
        let i = t - 1;
        proof {
            lemma_cone_parent_from(cells, count, p, q, i as int, i as int + 1);
            assert(cone@[i as int] == in_cone(cells, count, p, q, i as int));
        }
        if cone[i] && i < n {
            let slots = buffer.cells[i].tag.ref_slots();
            let mut s: usize = 0;
            while s < slots.len()
                invariant
                    cells == buffer.cells@,
                    count == buffer.count,
                    topo_ok(cells, count),
                    i < n,
                    n == active_len(cells, count),
                    n <= cells.len(),
                    t == i + 1,
                    t <= count,
                    slots@ == tag_ref_slots(cells[i as int].tag),
                    s <= slots@.len(),
                    cone@.len() == count,
                    in_cone(cells, count, p, q, i as int),
                    forall|k: int| t <= k < count ==> #[trigger] cone@[k] == in_cone(cells, count, p, q, k),
                    cone@[i as int] == in_cone(cells, count, p, q, i as int),
                    forall|k: int|
                        0 <= k < i ==> #[trigger] cone@[k] == (k == p || k == q || (exists|m: int|
                            t <= m < count && m < n && #[trigger] is_parent(cells, m, k) && in_cone(cells, count, p, q, m))
                            || exists|z: int| 0 <= z < s && #[trigger] child_ref(cells[i as int], z) == k),
                decreases slots@.len() - s,
            {
                let child = buffer.cells[i].args[slots[s]] as usize;
                proof {
                    assert(children_below(cells[i as int], i as int));
                    assert(0 <= child_ref(cells[i as int], s as int) < i);
                }
                if child < count {
                    cone.set(child, true);
                }
                s = s + 1;
            }
            proof {
                assert forall|k: int| 0 <= k < i implies #[trigger] cone@[k] == (k == p || k == q || exists|m: int|
                    i <= m < count && m < n && #[trigger] is_parent(cells, m, k) && in_cone(cells, count, p, q, m)) by {
                    if exists|z: int| 0 <= z < slots@.len() && #[trigger] child_ref(cells[i as int], z) == k {
                        let z = choose|z: int| 0 <= z < slots@.len() && #[trigger] child_ref(cells[i as int], z) == k;
                        assert(is_parent(cells, i as int, k));
                    }
                    if is_parent(cells, i as int, k) {
                        let z = choose|z: int| 0 <= z < tag_ref_slots(cells[i as int].tag).len() && #[trigger] child_ref(cells[i as int], z) == k;
                        assert(child_ref(cells[i as int], z) == k);
                    }
                }
            }
        } else {
            proof {
                assert forall|k: int| 0 <= k < i implies #[trigger] cone@[k] == (k == p || k == q || exists|m: int|
                    i <= m < count && m < n && #[trigger] is_parent(cells, m, k) && in_cone(cells, count, p, q, m)) by {
                    if exists|m: int| i <= m < count && m < n && #[trigger] is_parent(cells, m, k) && in_cone(cells, count, p, q, m) {
                        let m = choose|m: int| i <= m < count && m < n && #[trigger] is_parent(cells, m, k) && in_cone(cells, count, p, q, m);
                        if m != i {
                            assert(is_parent(cells, m, k));
                        }
                    }
                }
            }
        }
        t = i;
    }
    proof {
        assert forall|k: int| 0 <= k < count implies #[trigger] cone@[k] == in_cone(cells, count, p, q, k) by {
        }
    }
    cone
}


pub(crate) fn copy_cells(cells: &[DepCell]) -> (r: Vec<DepCell>)
    ensures
        r@ == cells@,
{
    let mut out: Vec<DepCell> = Vec::new();
    let mut i: usize = 0;
    while i < cells.len()
        invariant
            i <= cells@.len(),
            out@ == cells@.subrange(0, i as int),
        decreases cells@.len() - i,
    {
        out.push(cells[i].duplicate());
        i = i + 1;
        assert(out@ =~= cells@.subrange(0, i as int));
    }
    assert(out@ =~= cells@);
    out
}

/// Whether some cone variable resolves to hypothesis `h`.
fn hyp_consumed(buffer: &DepBuffer, cone: &Vec<bool>, targets: &Vec<Option<usize>>, h: usize, Ghost(p): Ghost<usize>, Ghost(q): Ghost<usize>) -> (r: bool)
    requires
        cone@.len() == buffer.count,
        targets@.len() == buffer.count,
        forall|i: int| 0 <= i < buffer.count ==> #[trigger] cone@[i] == in_cone(buffer.cells@, buffer.count, p, q, i),
        targets@ == targets_of(buffer.cells@, buffer.count),
    ensures
        r == consumed(buffer.cells@, buffer.count, p, q, h as int),
{
    let mut v: usize = 0;
    while v < buffer.count
        invariant
            v <= buffer.count,
            cone@.len() == buffer.count,
            targets@.len() == buffer.count,
            forall|i: int| 0 <= i < buffer.count ==> #[trigger] cone@[i] == in_cone(buffer.cells@, buffer.count, p, q, i),
            targets@ == targets_of(buffer.cells@, buffer.count),
            forall|w: int|
                0 <= w < v ==> !(w < buffer.cells@.len() && #[trigger] in_cone(buffer.cells@, buffer.count, p, q, w)
                    && buffer.cells@[w].tag == DepTag::Var && targets_of(buffer.cells@, buffer.count)[w] == Some(h)),
        decreases buffer.count - v,
    {
        if cone[v] && v < buffer.cells.len() && buffer.cells[v].tag == DepTag::Var && targets[v] == Some(h) {
            assert(in_cone(buffer.cells@, buffer.count, p, q, v as int));
            return true;
        }
        v = v + 1;
    }
    false
}

/// The exact used hypotheses on a PASS verdict, in ascending buffer order:
/// `(hyp_buffer_index, declared_level, carrier_cell)`. `None` unless the
/// reference checker returns PASS: assumptions are observable only for
/// checked proofs.
fn used_hypotheses(cells: &[DepCell], count: usize, proof_idx: usize, prop_idx: usize) -> (r: Option<Vec<(usize, i64, i64)>>)
    ensures
        r is Some <==> dep_check_verdict(cells@, count, proof_idx, prop_idx) == DepVerdict::Pass,
        r matches Some(u) ==> u@ == used_from(cells@, count, proof_idx, prop_idx, 0),
{
    let owned = copy_cells(cells);
    if !claim_ok(&owned, count, proof_idx, prop_idx) {
        return None;
    }
    if dep_check(copy_cells(cells), count, proof_idx, prop_idx) != DepVerdict::Pass.code() {
        return None;
    }
    proof {
        let v = dep_check_verdict(cells@, count, proof_idx, prop_idx);
        assert(v == DepVerdict::Pass) by {
            assert(verdict_code(v) == 0);
        }
        lemma_pass_shape(cells@, count, proof_idx, prop_idx);
    }
    let buffer = DepBuffer::new(owned, count);
    // The re-check cannot fail after a PASS, but a second failure still
    // yields no assumption set rather than a partial one.
    let targets = match buffer.check_shape() {
        Ok(targets) => targets,
        Err(_) => {
            let mut none: Vec<Option<usize>> = Vec::new();
            let mut i: usize = 0;
            while i < count
                invariant
                    i <= count,
                    none@.len() == i,
                decreases count - i,
            {
                none.push(None);
                i = i + 1;
            }
            none
        },
    };
    proof {
        assert(targets@ =~= targets_of(cells@, count));
    }
    let cone = claim_cone(&buffer, proof_idx, prop_idx);
    let n = if count < buffer.cells.len() { count } else { buffer.cells.len() };
    let mut used: Vec<(usize, i64, i64)> = Vec::new();
    let mut h: usize = 0;
    while h < n
        invariant
            buffer.cells@ == cells@,
            buffer.count == count,
            n == active_len(cells@, count),
            n <= cells@.len(),
            h <= n,
            cone@.len() == count,
            targets@.len() == count,
            forall|i: int| 0 <= i < count ==> #[trigger] cone@[i] == in_cone(cells@, count, proof_idx, prop_idx, i),
            targets@ == targets_of(cells@, count),
            used@ + used_from(cells@, count, proof_idx, prop_idx, h as int) == used_from(cells@, count, proof_idx, prop_idx, 0),
        decreases n - h,
    {
        let ghost before = used@;
        if buffer.cells[h].tag == DepTag::Hyp && hyp_consumed(&buffer, &cone, &targets, h, Ghost(proof_idx), Ghost(prop_idx)) {
            used.push((h, buffer.cells[h].args[0], buffer.cells[h].args[1]));
            assert(before + used_from(cells@, count, proof_idx, prop_idx, h as int) =~= used@ + used_from(
                cells@,
                count,
                proof_idx,
                prop_idx,
                h as int + 1,
            ));
        }
        h = h + 1;
    }
    assert(used@ =~= used@ + used_from(cells@, count, proof_idx, prop_idx, n as int));
    Some(used)
}


/// `i64` saturation of an integer.
pub open spec fn saturate(x: int) -> i64 {
    if x > i64::MAX {
        i64::MAX
    } else if x < i64::MIN {
        i64::MIN
    } else {
        x as i64
    }
}

/// `code * 33 + digit` with saturating steps.
fn saturating_step(code: i64, digit: i64) -> (r: i64)
    ensures
        r == saturate(saturate(code * 33) + digit),
{
    let wide: i128 = (code as i128) * 33;
    let scaled: i64 = if wide > i64::MAX as i128 {
        i64::MAX
    } else if wide < i64::MIN as i128 {
        i64::MIN
    } else {
        wide as i64
    };
    let sum: i128 = (scaled as i128) + (digit as i128);
    if sum > i64::MAX as i128 {
        i64::MAX
    } else if sum < i64::MIN as i128 {
        i64::MIN
    } else {
        sum as i64
    }
}

/// Cell `i` is among the used hypotheses.
pub open spec fn listed(used: Seq<(usize, i64, i64)>, i: int) -> bool {
    exists|k: int| 0 <= k < used.len() && #[trigger] used[k].0 == i
}

/// Base-33 packing over buffer order from cell `i` on: a used hypothesis
/// contributes its level plus one, every other cell zero.
pub open spec fn assumption_digits(cells: Seq<DepCell>, n: int, used: Seq<(usize, i64, i64)>, i: int, code: i64) -> i64
    decreases n - i,
{
    if i < 0 || i >= n {
        code
    } else {
        let digit: int = if cells[i].tag == DepTag::Hyp && listed(used, i) { cells[i].args@[0] + 1 } else { 0 };
        assumption_digits(cells, n, used, i + 1, saturate(saturate(code * 33) + digit))
    }
}

proof fn lemma_digits_nonnegative(cells: Seq<DepCell>, n: int, used: Seq<(usize, i64, i64)>, i: int, code: i64)
    requires
        code >= 0,
        forall|j: int| 0 <= j < n && #[trigger] cells[j].tag == DepTag::Hyp ==> cells[j].args@[0] >= 0,
    ensures
        assumption_digits(cells, n, used, i, code) >= 0,
    decreases n - i,
{
    if 0 <= i < n {
        let digit: int = if cells[i].tag == DepTag::Hyp && listed(used, i) { cells[i].args@[0] + 1 } else { 0 };
        lemma_digits_nonnegative(cells, n, used, i + 1, saturate(saturate(code * 33) + digit));
    }
}

/// Base-33 packing over buffer order from cell `i` on, stated over the
/// reference cone: a hypothesis cell that some variable in the cone of the
/// proof or the proposition resolves to contributes its level plus one,
/// every other cell zero; each step saturates.
pub open spec fn cone_digits(cells: Seq<DepCell>, count: usize, p: usize, q: usize, n: int, i: int, code: i64) -> i64
    decreases n - i,
{
    if i < 0 || i >= n {
        code
    } else {
        let digit: int = if cells[i].tag == DepTag::Hyp && consumed(cells, count, p, q, i) {
            cells[i].args@[0] + 1
        } else {
            0
        };
        cone_digits(cells, count, p, q, n, i + 1, saturate(saturate(code * 33) + digit))
    }
}

proof fn lemma_used_from_listed(cells: Seq<DepCell>, count: usize, p: usize, q: usize, h: int, i: int)
    requires
        0 <= h,
        0 <= i < active_len(cells, count),
    ensures
        listed(used_from(cells, count, p, q, h), i) <==> (h <= i && cells[i].tag == DepTag::Hyp && consumed(
            cells,
            count,
            p,
            q,
            i,
        )),
    decreases active_len(cells, count) - h,
{
    let u = used_from(cells, count, p, q, h);
    if h < active_len(cells, count) {
        let rest = used_from(cells, count, p, q, h + 1);
        lemma_used_from_listed(cells, count, p, q, h + 1, i);
        if cells[h].tag == DepTag::Hyp && consumed(cells, count, p, q, h) {
            let head = seq![(h as usize, cells[h].args@[0], cells[h].args@[1])];
            assert(u == head + rest);
            if listed(u, i) {
                let k = choose|k: int| 0 <= k < u.len() && #[trigger] u[k].0 == i;
                if k > 0 {
                    assert(rest[k - 1].0 == i);
                }
            }
            if listed(rest, i) {
                let k = choose|k: int| 0 <= k < rest.len() && #[trigger] rest[k].0 == i;
                assert(u[k + 1].0 == i);
            }
            if h == i {
                assert(u[0].0 == i);
            }
        } else {
            assert(u == rest);
        }
    } else {
        assert(u.len() == 0);
    }
}

proof fn lemma_cone_digits(cells: Seq<DepCell>, count: usize, p: usize, q: usize, i: int, code: i64)
    requires
        0 <= i,
    ensures
        assumption_digits(cells, active_len(cells, count), used_from(cells, count, p, q, 0), i, code) == cone_digits(
            cells,
            count,
            p,
            q,
            active_len(cells, count),
            i,
            code,
        ),
    decreases active_len(cells, count) - i,
{
    let n = active_len(cells, count);
    if i < n {
        lemma_used_from_listed(cells, count, p, q, 0, i);
        let digit: int = if cells[i].tag == DepTag::Hyp && consumed(cells, count, p, q, i) {
            cells[i].args@[0] + 1
        } else {
            0
        };
        lemma_cone_digits(cells, count, p, q, i + 1, saturate(saturate(code * 33) + digit));
    }
}

/// `assumptions_code`: the base-33 packing on PASS, `-1` otherwise.
pub open spec fn assumptions_code(cells: Seq<DepCell>, count: usize, p: usize, q: usize) -> i64 {
    match used_spec(cells, count, p, q) {
        None => -1i64,
        Some(used) => assumption_digits(cells, active_len(cells, count), used, 0, 0),
    }
}

fn used_contains(used: &Vec<(usize, i64, i64)>, index: usize) -> (r: bool)
    ensures
        r == listed(used@, index as int),
{
    let mut k: usize = 0;
    while k < used.len()
        invariant
            k <= used@.len(),
            forall|j: int| 0 <= j < k ==> used@[j].0 != index,
        decreases used@.len() - k,
    {
        if used[k].0 == index {
            assert(used@[k as int].0 == index);
            return true;
        }
        k = k + 1;
    }
    false
}

/// `assumptions_code`: base-33 over buffer order, -1 unless PASS.
///
/// Diagnostic projection only: the packing saturates past about ten
/// hypotheses and can alias distinct assumption sets. Bindings, admission
/// and reuse compare canonical [`DepAssumptionSet`] values instead.
pub fn dep_assumptions(cells: Vec<DepCell>, count: usize, proof_idx: usize, prop_idx: usize) -> (r: i64)
    ensures
        r == assumptions_code(cells@, count, proof_idx, prop_idx),
        r == -1 <==> dep_check_verdict(cells@, count, proof_idx, prop_idx) != DepVerdict::Pass,
        dep_check_verdict(cells@, count, proof_idx, prop_idx) == DepVerdict::Pass ==> r >= 0,
        dep_check_verdict(cells@, count, proof_idx, prop_idx) == DepVerdict::Pass ==> r == cone_digits(
            cells@,
            count,
            proof_idx,
            prop_idx,
            active_len(cells@, count),
            0,
            0,
        ),
{
    proof {
        lemma_cone_digits(cells@, count, proof_idx, prop_idx, 0, 0);
    }
    let used = match used_hypotheses(cells.as_slice(), count, proof_idx, prop_idx) {
        Some(used) => used,
        None => return -1,
    };
    proof {
        lemma_pass_shape(cells@, count, proof_idx, prop_idx);
        let n = active_len(cells@, count);
        assert forall|j: int| 0 <= j < n && #[trigger] cells@[j].tag == DepTag::Hyp implies cells@[j].args@[0] >= 0 by {
            assert(immediates_in_range(cells@[j]));
        }
        lemma_digits_nonnegative(cells@, n, used@, 0, 0);
    }
    let n = if count < cells.len() { count } else { cells.len() };
    let mut code: i64 = 0;
    let mut i: usize = 0;
    while i < n
        invariant
            n == active_len(cells@, count),
            n <= cells@.len(),
            i <= n,
            topo_ok(cells@, count),
            0 <= code,
            assumption_digits(cells@, n as int, used@, 0, 0) == assumption_digits(cells@, n as int, used@, i as int, code),
        decreases n - i,
    {
        let mut digit: i64 = 0;
        if cells[i].tag == DepTag::Hyp && used_contains(&used, i) {
            assert(immediates_in_range(cells@[i as int]));
            digit = cells[i].args[0] + 1;
        }
        code = saturating_step(code, digit);
        i = i + 1;
    }
    code
}

/// One consumed assumption: the `Hyp` cell's buffer index, its declared
/// level, and its carrier-type cell. Level and carrier are part of the
/// identity: changing either changes the set even when the buffer position
/// is unchanged.
#[derive(Debug, Clone, Copy, PartialEq, Eq, Structural)]
pub struct DepAssumptionUse {
    pub hyp: i64,
    pub level: i64,
    pub carrier: i64,
}

/// The canonical used-assumption set: exact entries in ascending buffer
/// order, with no packing and no aliasing. The empty set is explicit (`uses`
/// empty, `valid` only on PASS).
#[derive(Debug, Clone, PartialEq, Eq)]
pub struct DepAssumptionSet {
    pub uses: Vec<DepAssumptionUse>,
    pub valid: bool,
}

/// The entry recorded for one used hypothesis.
pub open spec fn use_of(used: (usize, i64, i64)) -> DepAssumptionUse {
    DepAssumptionUse { hyp: used.0 as i64, level: used.1, carrier: used.2 }
}

/// The canonical set of a claim: its used hypotheses on PASS, otherwise the
/// invalid empty set.
pub open spec fn assumption_set_spec(cells: Seq<DepCell>, count: usize, p: usize, q: usize) -> (bool, Seq<DepAssumptionUse>) {
    match used_spec(cells, count, p, q) {
        None => (false, seq![]),
        Some(used) => (true, used.map_values(|u: (usize, i64, i64)| use_of(u))),
    }
}

impl DepAssumptionSet {
    pub fn invalid() -> (r: Self)
        ensures
            !r.valid,
            r.uses@.len() == 0,
    {
        Self { uses: Vec::new(), valid: false }
    }

    pub fn is_empty_set(&self) -> (r: bool)
        ensures
            r == (self.valid && self.uses@.len() == 0),
    {
        self.valid && self.uses.len() == 0
    }

    /// Exact equality of two sets: validity and every entry in order.
    pub fn same_as(&self, other: &Self) -> (r: bool)
        ensures
            r == (self.valid == other.valid && self.uses@ == other.uses@),
    {
        if self.valid != other.valid || self.uses.len() != other.uses.len() {
            return false;
        }
        let mut i: usize = 0;
        while i < self.uses.len()
            invariant
                i <= self.uses@.len(),
                self.uses@.len() == other.uses@.len(),
                forall|j: int| 0 <= j < i ==> self.uses@[j] == other.uses@[j],
            decreases self.uses@.len() - i,
        {
            if self.uses[i] != other.uses[i] {
                return false;
            }
            i = i + 1;
        }
        assert(self.uses@ =~= other.uses@);
        true
    }
}

/// Canonical used-assumption set over the exact buffer. Returns an invalid
/// set unless the reference checker returns PASS.
pub fn dep_assumption_set(cells: Vec<DepCell>, count: usize, proof_idx: usize, prop_idx: usize) -> (r: DepAssumptionSet)
    ensures
        (r.valid, r.uses@) == assumption_set_spec(cells@, count, proof_idx, prop_idx),
        r.valid <==> dep_check_verdict(cells@, count, proof_idx, prop_idx) == DepVerdict::Pass,
{
    let used = match used_hypotheses(cells.as_slice(), count, proof_idx, prop_idx) {
        Some(used) => used,
        None => return DepAssumptionSet::invalid(),
    };
    proof {
        lemma_pass_shape(cells@, count, proof_idx, prop_idx);
        assert forall|k: int| 0 <= k < used@.len() implies #[trigger] used@[k].0 < PROOF_DEP_BUFFER_CAPACITY by {
            lemma_used_below(cells@, count, proof_idx, prop_idx, 0, k);
        }
    }
    let mut uses: Vec<DepAssumptionUse> = Vec::new();
    let mut k: usize = 0;
    while k < used.len()
        invariant
            k <= used@.len(),
            forall|j: int| 0 <= j < used@.len() ==> #[trigger] used@[j].0 < PROOF_DEP_BUFFER_CAPACITY,
            uses@ == used@.subrange(0, k as int).map_values(|u: (usize, i64, i64)| use_of(u)),
        decreases used@.len() - k,
    {
        let (hyp, level, carrier) = used[k];
        uses.push(DepAssumptionUse { hyp: hyp as i64, level, carrier });
        k = k + 1;
        assert(uses@ =~= used@.subrange(0, k as int).map_values(|u: (usize, i64, i64)| use_of(u)));
    }
    assert(used@.subrange(0, used@.len() as int) =~= used@);
    DepAssumptionSet { uses, valid: true }
}

proof fn lemma_used_below(cells: Seq<DepCell>, count: usize, p: usize, q: usize, h: int, k: int)
    requires
        range_ok(count, p, q),
        0 <= h,
        0 <= k < used_from(cells, count, p, q, h).len(),
    ensures
        used_from(cells, count, p, q, h)[k].0 < count,
    decreases active_len(cells, count) - h,
{
    if h < active_len(cells, count) {
        let rest = used_from(cells, count, p, q, h + 1);
        if cells[h].tag == DepTag::Hyp && consumed(cells, count, p, q, h) {
            if k > 0 {
                lemma_used_below(cells, count, p, q, h + 1, k - 1);
            }
        } else {
            lemma_used_below(cells, count, p, q, h + 1, k);
        }
    }
}

impl DepBuffer {
    /// The probe head encoding shared with `probe_eval_code`: singletons map
    /// to 2/3/1, pool values to their native value tags.
    pub fn head_code(value: &DepVal) -> (r: i64)
        ensures
            r == value_head(*value),
    {
        match value {
            DepVal::Nat => 2,
            DepVal::Zero => 3,
            DepVal::Univ(_) => 1,
            DepVal::Succ(_) => 4,
            DepVal::Plus(_, _) => 5,
            DepVal::Var(_) => 6,
            DepVal::Stuck => 7,
            DepVal::Pi(_, _) => 8,
            DepVal::Lam(_, _) => 9,
            DepVal::Eq(_, _, _) => 10,
            DepVal::Proof => 12,
        }
    }
}

/// The scope of cell `index`, or the empty environment when it fails.
pub open spec fn scope_or_empty(cells: Seq<DepCell>, count: usize, index: int, f: u64) -> (DepEnv, u64) {
    let (e, f1) = s_scope_env(cells, count, parents_of(cells, count), index, f);
    (
        match e {
            Ok(env) => env,
            Err(_) => empty_env(),
        },
        clamp(f1, f),
    )
}

/// `probe_eval_code`: the head of the cell's value in its own scope, 100 on
/// abstention, 101 on malformation.
pub open spec fn probe_eval_code(cells: Seq<DepCell>, count: usize, index: usize) -> i64 {
    if !(0 < count <= PROOF_DEP_BUFFER_CAPACITY && index < count) || !shape_ok(cells, count) {
        101
    } else {
        let (env, f1) = scope_or_empty(cells, count, index as int, PROOF_DEP_FUEL);
        match s_eval(cells, index, env, f1).0 {
            Ok(v) => value_head(v),
            Err(_) => 100,
        }
    }
}

/// The term value of a cell in its own scope, stuck when inference fails.
pub open spec fn probe_term(cells: Seq<DepCell>, count: usize, index: usize, f: u64) -> (DepVal, u64) {
    let (env, f1) = scope_or_empty(cells, count, index as int, f);
    let (r, f2) = s_infer(cells, index, env, targets_of(cells, count), f1);
    (
        match r {
            Ok((term, _)) => term,
            Err(_) => DepVal::Stuck,
        },
        clamp(f2, f1),
    )
}

/// `probe_defeq_code`: 0/1/2 over the two cells' term values, 3 on
/// malformation.
pub open spec fn probe_defeq_code(cells: Seq<DepCell>, count: usize, left: usize, right: usize) -> i64 {
    if !(0 < count <= PROOF_DEP_BUFFER_CAPACITY && left < count && right < count) || !shape_ok(cells, count) {
        3
    } else {
        let (left_val, f1) = probe_term(cells, count, left, PROOF_DEP_FUEL);
        let (right_val, f2) = probe_term(cells, count, right, f1);
        match s_defeq(cells, left_val, right_val, 0, f2).0 {
            Ok(_) => 0,
            Err(v) => verdict_code(v),
        }
    }
}

/// `probe_eval_code`: value head, 100 on abstention, 101 on malformation.
pub fn dep_probe_eval(cells: Vec<DepCell>, count: usize, index: usize) -> (r: i64)
    ensures
        r == probe_eval_code(cells@, count, index),
{
    if !(count > 0 && count <= PROOF_DEP_BUFFER_CAPACITY && index < count) {
        return 101;
    }
    let buffer = DepBuffer::new(cells, count);
    if buffer.check_shape().is_err() {
        return 101;
    }
    let parents = buffer.parents();
    proof {
        lemma_parent_table_unique(buffer.cells@, count, nested_view(parents@), parents_of(buffer.cells@, count));
    }
    let mut fuel = Fuel(PROOF_DEP_FUEL);
    let env = match buffer.scope_env(&parents, index, &mut fuel) {
        Ok(env) => env,
        Err(_) => DepEnv::empty(),
    };
    match buffer.eval(index, &env, &mut fuel) {
        Ok(value) => DepBuffer::head_code(&value),
        Err(_) => 100,
    }
}

impl DepBuffer {
    /// The term value of one cell in its own scope, stuck when inference fails.
    fn probe_value(&self, parents: &Vec<Vec<usize>>, targets: &Vec<Option<usize>>, index: usize, fuel: &mut Fuel) -> (r: DepVal)
        requires
            shape_ok(self.cells@, self.count),
            nested_view(parents@) == parents_of(self.cells@, self.count),
            parent_table(self.cells@, self.count, nested_view(parents@)),
            targets@ == targets_of(self.cells@, self.count),
            index < self.count,
            old(fuel).0 <= PROOF_DEP_FUEL,
        ensures
            final(fuel).0 <= old(fuel).0,
            (r, final(fuel).0) == probe_term(self.cells@, self.count, index, old(fuel).0),
    {
        let env = match self.scope_env(parents.as_slice(), index, fuel) {
            Ok(env) => env,
            Err(_) => DepEnv::empty(),
        };
        match self.infer(index, &env, targets.as_slice(), fuel) {
            Ok((term, _)) => term,
            Err(_) => DepVal::Stuck,
        }
    }
}

/// `probe_defeq_code`: 0/1/2 over term values, 3 on malformation.
pub fn dep_probe_defeq(cells: Vec<DepCell>, count: usize, left: usize, right: usize) -> (r: i64)
    ensures
        r == probe_defeq_code(cells@, count, left, right),
{
    if !(count > 0 && count <= PROOF_DEP_BUFFER_CAPACITY && left < count && right < count) {
        return 3;
    }
    let buffer = DepBuffer::new(cells, count);
    let targets = match buffer.check_shape() {
        Ok(targets) => targets,
        Err(_) => return 3,
    };
    let parents = buffer.parents();
    proof {
        lemma_parent_table_unique(buffer.cells@, count, nested_view(parents@), parents_of(buffer.cells@, count));
        assert(targets@ =~= targets_of(buffer.cells@, count));
    }
    let mut fuel = Fuel(PROOF_DEP_FUEL);
    let left_val = buffer.probe_value(&parents, &targets, left, &mut fuel);
    let right_val = buffer.probe_value(&parents, &targets, right, &mut fuel);
    match defeq(&buffer, &left_val, &right_val, 0, &mut fuel) {
        Ok(()) => DepVerdict::Pass.code(),
        Err(verdict) => verdict.code(),
    }
}

}
