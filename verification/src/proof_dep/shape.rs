use vstd::prelude::*;

use super::terms::{
    tag_is_binder, tag_ref_slots, DepCell, DepTag, DepVerdict, PROOF_DEP_BUFFER_CAPACITY,
    PROOF_DEP_MAX_UNIVERSE,
};

verus! {

/// A bounded buffer of term cells; the first `count` cells are active.
pub struct DepBuffer {
    pub cells: Vec<DepCell>,
    pub count: usize,
}

/// Number of cells the structural passes visit: the active prefix that exists.
pub open spec fn active_len(cells: Seq<DepCell>, count: usize) -> int {
    if (count as int) < cells.len() {
        count as int
    } else {
        cells.len() as int
    }
}

/// The binder level a cell declares or mentions (`-1` for other tags).
pub open spec fn cell_level(cell: DepCell) -> i64 {
    match cell.tag {
        DepTag::Pi | DepTag::Lam => cell.args@[2],
        DepTag::Hyp | DepTag::Var => cell.args@[0],
        _ => -1i64,
    }
}

/// The raw reference a cell holds in its `k`-th child slot.
pub open spec fn child_ref(cell: DepCell, k: int) -> i64 {
    cell.args@[tag_ref_slots(cell.tag)[k] as int]
}

/// Every child reference of the cell at `at` points strictly below it.
pub open spec fn children_below(cell: DepCell, at: int) -> bool {
    forall|k: int| 0 <= k < tag_ref_slots(cell.tag).len() ==> 0 <= #[trigger] child_ref(cell, k) < at
}

/// Immediate operands are inside their ranges.
pub open spec fn immediates_in_range(cell: DepCell) -> bool {
    match cell.tag {
        DepTag::Universe => 0 <= cell.args@[0] <= PROOF_DEP_MAX_UNIVERSE,
        DepTag::Var => 0 <= cell.args@[0] < 32,
        DepTag::Pi | DepTag::Lam | DepTag::Hyp => 0 <= cell_level(cell) < 32,
        _ => true,
    }
}

/// Topological order and immediate ranges over the active cells.
pub open spec fn topo_ok(cells: Seq<DepCell>, count: usize) -> bool {
    &&& 0 < count <= PROOF_DEP_BUFFER_CAPACITY
    &&& forall|i: int|
        0 <= i < active_len(cells, count) ==> children_below(#[trigger] cells[i], i)
            && immediates_in_range(cells[i])
}

/// Cell `i` references cell `c` through one of its child slots.
pub open spec fn is_parent(cells: Seq<DepCell>, i: int, c: int) -> bool {
    exists|k: int| 0 <= k < tag_ref_slots(cells[i].tag).len() && #[trigger] child_ref(cells[i], k) == c
}

pub open spec fn strictly_increasing(s: Seq<usize>) -> bool {
    forall|a: int, b: int| 0 <= a < b < s.len() ==> s[a] < s[b]
}

/// The nested view of a table of index lists.
pub open spec fn nested_view(p: Seq<Vec<usize>>) -> Seq<Seq<usize>> {
    p.map_values(|v: Vec<usize>| v@)
}

/// `parents[c]` lists, in ascending order and once each, the active cells that
/// reference cell `c`.
pub open spec fn parent_table(cells: Seq<DepCell>, count: usize, parents: Seq<Seq<usize>>) -> bool {
    &&& parents.len() == count
    &&& forall|c: int|
        0 <= c < count ==> {
            &&& strictly_increasing(#[trigger] parents[c])
            &&& forall|j: int|
                0 <= j < parents[c].len() ==> parents[c][j] < active_len(cells, count)
                    && is_parent(cells, parents[c][j] as int, c)
            &&& forall|i: int|
                0 <= i < active_len(cells, count) && is_parent(cells, i, c) ==> parents[c].contains(
                    i as usize,
                )
        }
}

/// Binder levels are in range and declared at most once among active cells.
pub open spec fn binders_distinct(cells: Seq<DepCell>, n: int) -> bool {
    &&& forall|i: int|
        0 <= i < n && tag_is_binder(#[trigger] cells[i].tag) ==> 0 <= cell_level(cells[i]) < 32
    &&& forall|i: int, j: int|
        0 <= i < j < n && tag_is_binder(#[trigger] cells[i].tag) && tag_is_binder(
            #[trigger] cells[j].tag,
        ) ==> cell_level(cells[i]) != cell_level(cells[j])
}

/// `binders[l]` names the active binder cell declaring level `l`.
pub open spec fn binder_table(cells: Seq<DepCell>, n: int, binders: Seq<Option<usize>>) -> bool {
    &&& binders.len() == 32
    &&& forall|l: int|
        0 <= l < 32 ==> (#[trigger] binders[l] matches Some(i) ==> i < n && tag_is_binder(
            cells[i as int].tag,
        ) && cell_level(cells[i as int]) == l)
    &&& forall|i: int|
        0 <= i < n && tag_is_binder(#[trigger] cells[i].tag) ==> binders[cell_level(cells[i]) as int]
            == Some(i as usize)
}

/// Cell `i` transitively mentions a variable through child slot `k`.
pub open spec fn slot_mentions(cells: Seq<DepCell>, i: int, k: int) -> bool
    decreases i, 0int,
{
    if 0 <= i < cells.len() && 0 <= k < tag_ref_slots(cells[i].tag).len() {
        let c = child_ref(cells[i], k) as int;
        0 <= c < i && mentions_at(cells, c)
    } else {
        false
    }
}

/// Cell `i` is a variable or has a child that transitively mentions one.
pub open spec fn mentions_at(cells: Seq<DepCell>, i: int) -> bool
    decreases i, 1int,
{
    &&& 0 <= i < cells.len()
    &&& cells[i].tag == DepTag::Var || slot_mentions(cells, i, 0) || slot_mentions(cells, i, 1)
        || slot_mentions(cells, i, 2) || slot_mentions(cells, i, 3)
}

/// Walk the single-parent chain upward for at most `steps` hops looking for an
/// enclosing assumption declaration.
pub open spec fn hyp_walk(cells: Seq<DepCell>, parents: Seq<Seq<usize>>, current: int, steps: nat) -> Option<
    usize,
>
    decreases steps,
{
    if steps == 0 || !(0 <= current < parents.len()) || parents[current].len() == 0 {
        None
    } else {
        let up = parents[current][0];
        if cells[up as int].tag == DepTag::Hyp {
            Some(up)
        } else if parents[current].len() != 1 {
            None
        } else {
            hyp_walk(cells, parents, up as int, (steps - 1) as nat)
        }
    }
}

/// Walk the single-parent chain upward looking for the nearest `Pi`/`Lam`
/// declaring `level` whose scope (its body, not its domain) contains the start.
pub open spec fn binder_walk(
    cells: Seq<DepCell>,
    parents: Seq<Seq<usize>>,
    level: i64,
    current: int,
    previous: int,
    steps: nat,
) -> Result<usize, DepVerdict>
    decreases steps,
{
    if steps == 0 || !(0 <= current < parents.len()) || parents[current].len() != 1 {
        Err(DepVerdict::Fail)
    } else {
        let up = parents[current][0];
        let up_cell = cells[up as int];
        let scoping = up_cell.tag == DepTag::Pi || up_cell.tag == DepTag::Lam;
        let via_domain = scoping && up_cell.args@[0] == previous;
        if scoping && cell_level(up_cell) == level && !via_domain {
            Ok(up)
        } else {
            binder_walk(cells, parents, level, up as int, current, (steps - 1) as nat)
        }
    }
}

/// Resolution of one variable occurrence at `from` with `level` to its binder.
pub open spec fn resolve_spec(
    cells: Seq<DepCell>,
    parents: Seq<Seq<usize>>,
    binders: Seq<Option<usize>>,
    from: int,
    level: i64,
) -> Result<usize, DepVerdict> {
    if !(0 <= level < 32) {
        Err(DepVerdict::Fail)
    } else {
        match binders[level as int] {
            None => Err(DepVerdict::Fail),
            Some(declared) => if cells[declared as int].tag == DepTag::Hyp {
                if hyp_walk(cells, parents, from, 32) is Some {
                    Err(DepVerdict::Fail)
                } else {
                    Ok(declared)
                }
            } else {
                binder_walk(cells, parents, level, from, from, 32)
            },
        }
    }
}

/// The resolution target recorded for cell `i`.
pub open spec fn target_entry(
    cells: Seq<DepCell>,
    count: usize,
    parents: Seq<Seq<usize>>,
    binders: Seq<Option<usize>>,
    i: int,
) -> Option<usize> {
    if 0 <= i < active_len(cells, count) && cells[i].tag == DepTag::Var {
        match resolve_spec(cells, parents, binders, i, cells[i].args@[0]) {
            Ok(b) => Some(b),
            Err(_) => None,
        }
    } else {
        None
    }
}

/// Every active variable occurrence resolves.
pub open spec fn all_resolve(
    cells: Seq<DepCell>,
    count: usize,
    parents: Seq<Seq<usize>>,
    binders: Seq<Option<usize>>,
) -> bool {
    forall|i: int|
        0 <= i < active_len(cells, count) && #[trigger] cells[i].tag == DepTag::Var ==> resolve_spec(
            cells,
            parents,
            binders,
            i,
            cells[i].args@[0],
        ) is Ok
}

/// Cell `i` has at least one active parent.
pub open spec fn has_parent(cells: Seq<DepCell>, count: usize, i: int) -> bool {
    exists|j: int| 0 <= j < active_len(cells, count) && #[trigger] is_parent(cells, j, i)
}

/// Cell `i` has two distinct active parents.
pub open spec fn has_two_parents(cells: Seq<DepCell>, count: usize, i: int) -> bool {
    exists|j1: int, j2: int|
        0 <= j1 < j2 < active_len(cells, count) && #[trigger] is_parent(cells, j1, i)
            && #[trigger] is_parent(cells, j2, i)
}

/// The canonical parent table (ascending distinct referencing cells).
pub open spec fn parents_of(cells: Seq<DepCell>, count: usize) -> Seq<Seq<usize>> {
    choose|p: Seq<Seq<usize>>| parent_table(cells, count, p)
}

/// The canonical binder table.
pub open spec fn binders_of(cells: Seq<DepCell>, count: usize) -> Seq<Option<usize>> {
    choose|b: Seq<Option<usize>>| binder_table(cells, active_len(cells, count), b)
}

/// The full structural rule: topology, binder uniqueness, resolution, the
/// open-cone tree rule, and assumption declarations as roots.
pub open spec fn shape_ok(cells: Seq<DepCell>, count: usize) -> bool {
    &&& topo_ok(cells, count)
    &&& binders_distinct(cells, active_len(cells, count))
    &&& all_resolve(cells, count, parents_of(cells, count), binders_of(cells, count))
    &&& forall|i: int|
        0 <= i < active_len(cells, count) ==> !(mentions_at(cells, i) && #[trigger] has_two_parents(
            cells,
            count,
            i,
        ))
    &&& forall|i: int|
        0 <= i < active_len(cells, count) && #[trigger] cells[i].tag == DepTag::Hyp ==> !has_parent(
            cells,
            count,
            i,
        )
}

pub fn vec_contains(v: &Vec<usize>, x: usize) -> (r: bool)
    ensures
        r == v@.contains(x),
{
    let mut i: usize = 0;
    while i < v.len()
        invariant
            i <= v@.len(),
            forall|j: int| 0 <= j < i ==> v@[j] != x,
        decreases v@.len() - i,
    {
        if v[i] == x {
            return true;
        }
        i = i + 1;
    }
    false
}

/// Move the list at `index` out of the table, leaving an empty list behind.
fn take_list(table: &mut Vec<Vec<usize>>, index: usize) -> (r: Vec<usize>)
    requires
        index < old(table)@.len(),
    ensures
        r@ == old(table)@[index as int]@,
        final(table)@.len() == old(table)@.len(),
        forall|j: int| 0 <= j < old(table)@.len() && j != index ==> #[trigger] final(table)@[j] == old(table)@[j],
{
    let mut empty: Vec<usize> = Vec::new();
    std::mem::swap(&mut empty, &mut table[index]);
    empty
}

pub fn level_of(cell: &DepCell) -> (r: i64)
    ensures
        r == cell_level(*cell),
{
    match cell.tag {
        DepTag::Pi | DepTag::Lam => cell.args[2],
        DepTag::Hyp | DepTag::Var => cell.args[0],
        _ => -1,
    }
}

/// Two parent tables that both satisfy the rule are equal.
pub(crate) proof fn lemma_parent_table_unique(cells: Seq<DepCell>, count: usize, p: Seq<Seq<usize>>, q: Seq<Seq<usize>>)
    requires
        parent_table(cells, count, p),
        parent_table(cells, count, q),
    ensures
        p == q,
{
    assert forall|c: int| 0 <= c < count implies #[trigger] p[c] == q[c] by {
        lemma_increasing_same_members(p[c], q[c]);
    }
    assert(p =~= q);
}

proof fn lemma_increasing_same_members(a: Seq<usize>, b: Seq<usize>)
    requires
        strictly_increasing(a),
        strictly_increasing(b),
        forall|x: usize| a.contains(x) <==> b.contains(x),
    ensures
        a == b,
    decreases a.len() + b.len(),
{
    if a.len() == 0 {
        if b.len() > 0 {
            assert(b.contains(b[0]));
        }
        assert(a =~= b);
    } else if b.len() == 0 {
        assert(a.contains(a[0]));
    } else {
        // The minima agree.
        assert(a.contains(a[0]));
        assert(b.contains(b[0]));
        let ia = choose|k: int| 0 <= k < b.len() && b[k] == a[0];
        let ib = choose|k: int| 0 <= k < a.len() && a[k] == b[0];
        assert(a[0] == b[0]) by {
            if a[0] < b[0] {
                assert(b[ia] == a[0]);
                if ia > 0 {
                    assert(b[0] < b[ia]);
                }
            } else if b[0] < a[0] {
                assert(a[ib] == b[0]);
                if ib > 0 {
                    assert(a[0] < a[ib]);
                }
            }
        }
        let a1 = a.drop_first();
        let b1 = b.drop_first();
        assert forall|x: usize| a1.contains(x) <==> b1.contains(x) by {
            if a1.contains(x) {
                let k = choose|k: int| 0 <= k < a1.len() && a1[k] == x;
                assert(a[k + 1] == x);
                assert(a[0] < a[k + 1]);
                assert(a.contains(x));
                assert(b.contains(x));
                let m = choose|m: int| 0 <= m < b.len() && b[m] == x;
                assert(m != 0);
                assert(b1[m - 1] == x);
            }
            if b1.contains(x) {
                let k = choose|k: int| 0 <= k < b1.len() && b1[k] == x;
                assert(b[k + 1] == x);
                assert(b[0] < b[k + 1]);
                assert(b.contains(x));
                assert(a.contains(x));
                let m = choose|m: int| 0 <= m < a.len() && a[m] == x;
                assert(m != 0);
                assert(a1[m - 1] == x);
            }
        }
        lemma_increasing_same_members(a1, b1);
        assert(a =~= b) by {
            assert forall|k: int| 0 <= k < a.len() implies a[k] == b[k] by {
                if k > 0 {
                    assert(a1[k - 1] == b1[k - 1]);
                }
            }
        }
    }
}

/// Two binder tables over the same cells are equal.
proof fn lemma_binder_table_unique(cells: Seq<DepCell>, n: int, p: Seq<Option<usize>>, q: Seq<Option<usize>>)
    requires
        binder_table(cells, n, p),
        binder_table(cells, n, q),
    ensures
        p == q,
{
    assert forall|l: int| 0 <= l < 32 implies #[trigger] p[l] == q[l] by {
        if let Some(i) = p[l] {
            assert(tag_is_binder(cells[i as int].tag));
        }
        if let Some(i) = q[l] {
            assert(tag_is_binder(cells[i as int].tag));
        }
    }
    assert(p =~= q);
}

/// Every resolution failure is a structural FAIL.
proof fn lemma_binder_walk_fails_closed(
    cells: Seq<DepCell>,
    parents: Seq<Seq<usize>>,
    level: i64,
    current: int,
    previous: int,
    steps: nat,
)
    ensures
        binder_walk(cells, parents, level, current, previous, steps) is Err ==> binder_walk(
            cells,
            parents,
            level,
            current,
            previous,
            steps,
        ) == Err::<usize, DepVerdict>(DepVerdict::Fail),
    decreases steps,
{
    if steps > 0 && 0 <= current < parents.len() && parents[current].len() == 1 {
        let up = parents[current][0];
        lemma_binder_walk_fails_closed(cells, parents, level, up as int, current, (steps - 1) as nat);
    }
}

proof fn lemma_resolve_fails_closed(
    cells: Seq<DepCell>,
    parents: Seq<Seq<usize>>,
    binders: Seq<Option<usize>>,
    from: int,
    level: i64,
)
    ensures
        resolve_spec(cells, parents, binders, from, level) is Err ==> resolve_spec(
            cells,
            parents,
            binders,
            from,
            level,
        ) == Err::<usize, DepVerdict>(DepVerdict::Fail),
{
    lemma_binder_walk_fails_closed(cells, parents, level, from, from, 32);
}

/// The parent list of a cell has two entries exactly when the cell has two
/// distinct parents, and is non-empty exactly when it has a parent.
proof fn lemma_parent_counts(cells: Seq<DepCell>, count: usize, p: Seq<Seq<usize>>, i: int)
    requires
        parent_table(cells, count, p),
        0 <= i < count,
    ensures
        p[i].len() > 1 <==> has_two_parents(cells, count, i),
        p[i].len() > 0 <==> has_parent(cells, count, i),
{
    let l = p[i];
    assert(strictly_increasing(l));
    if l.len() > 1 {
        assert(is_parent(cells, l[0] as int, i));
        assert(is_parent(cells, l[1] as int, i));
        assert(l[0] < l[1]);
    }
    if has_two_parents(cells, count, i) {
        let (j1, j2) = choose|j1: int, j2: int|
            0 <= j1 < j2 < active_len(cells, count) && #[trigger] is_parent(cells, j1, i)
                && #[trigger] is_parent(cells, j2, i);
        assert(l.contains(j1 as usize));
        assert(l.contains(j2 as usize));
        if l.len() <= 1 {
            let w1 = choose|w: int| 0 <= w < l.len() && l[w] == j1 as usize;
            let w2 = choose|w: int| 0 <= w < l.len() && l[w] == j2 as usize;
        }
    }
    if l.len() > 0 {
        assert(is_parent(cells, l[0] as int, i));
    }
    if has_parent(cells, count, i) {
        let j = choose|j: int| 0 <= j < active_len(cells, count) && #[trigger] is_parent(cells, j, i);
        assert(l.contains(j as usize));
    }
}

impl DepBuffer {
    pub fn new(cells: Vec<DepCell>, count: usize) -> (r: Self)
        ensures
            r.cells@ == cells@,
            r.count == count,
    {
        Self { cells, count }
    }

    pub open spec fn n(&self) -> int {
        active_len(self.cells@, self.count)
    }

    fn cell(&self, index: usize) -> (r: Option<&DepCell>)
        ensures
            index < self.cells@.len() ==> r == Some(&self.cells@[index as int]),
            index >= self.cells@.len() ==> r is None,
    {
        if index < self.cells.len() {
            Some(&self.cells[index])
        } else {
            None
        }
    }

    fn active(&self) -> (r: usize)
        ensures
            r == self.n(),
    {
        if self.count < self.cells.len() {
            self.count
        } else {
            self.cells.len()
        }
    }

    /// Topological order plus immediate ranges.
    fn check_topo(&self) -> (r: Result<(), DepVerdict>)
        ensures
            r is Ok <==> topo_ok(self.cells@, self.count),
            r is Err ==> r == Err::<(), DepVerdict>(DepVerdict::Fail),
    {
        if self.count == 0 || self.count > PROOF_DEP_BUFFER_CAPACITY {
            return Err(DepVerdict::Fail);
        }
        let n = self.active();
        let mut index: usize = 0;
        while index < n
            invariant
                n == self.n(),
                n <= self.cells@.len(),
                index <= n,
                0 < self.count <= PROOF_DEP_BUFFER_CAPACITY,
                forall|i: int|
                    0 <= i < index ==> children_below(#[trigger] self.cells@[i], i)
                        && immediates_in_range(self.cells@[i]),
            decreases n - index,
        {
            let cell = &self.cells[index];
            let slots = cell.tag.ref_slots();
            let mut k: usize = 0;
            while k < slots.len()
                invariant
                    slots@ == tag_ref_slots(cell.tag),
                    *cell == self.cells@[index as int],
                    index < n,
                    n <= self.cells@.len(),
                    n == self.n(),
                    index < PROOF_DEP_BUFFER_CAPACITY,
                    k <= slots@.len(),
                    forall|m: int| 0 <= m < k ==> 0 <= #[trigger] child_ref(*cell, m) < index,
                decreases slots@.len() - k,
            {
                let slot = slots[k];
                assert(slot < 4) by {
                    assert(tag_ref_slots(cell.tag)[k as int] < 4);
                }
                let child = cell.args[slot];
                if child < 0 || child >= index as i64 {
                    assert(child_ref(*cell, k as int) == child);
                    assert(!children_below(self.cells@[index as int], index as int));
                    return Err(DepVerdict::Fail);
                }
                k = k + 1;
            }
            let immediate_ok = match cell.tag {
                DepTag::Universe => 0 <= cell.args[0] && cell.args[0] <= PROOF_DEP_MAX_UNIVERSE,
                DepTag::Var => 0 <= cell.args[0] && cell.args[0] < 32,
                DepTag::Pi | DepTag::Lam | DepTag::Hyp => {
                    let level = level_of(cell);
                    0 <= level && level < 32
                },
                _ => true,
            };
            if !immediate_ok {
                assert(!immediates_in_range(self.cells@[index as int]));
                return Err(DepVerdict::Fail);
            }
            index = index + 1;
        }
        Ok(())
    }

    /// Distinct active parents of every active cell.
    pub(crate) fn parents(&self) -> (r: Vec<Vec<usize>>)
        requires
            topo_ok(self.cells@, self.count),
        ensures
            parent_table(self.cells@, self.count, nested_view(r@)),
    {
        let n = self.active();
        let mut parents: Vec<Vec<usize>> = Vec::new();
        let mut c: usize = 0;
        while c < self.count
            invariant
                c <= self.count,
                parents@.len() == c,
                forall|j: int| 0 <= j < c ==> (#[trigger] parents@[j])@.len() == 0,
            decreases self.count - c,
        {
            parents.push(Vec::new());
            c = c + 1;
        }
        let mut index: usize = 0;
        while index < n
            invariant
                n == self.n(),
                n <= self.cells@.len(),
                index <= n,
                topo_ok(self.cells@, self.count),
                parents@.len() == self.count,
                forall|c: int|
                    0 <= c < self.count ==> {
                        &&& strictly_increasing(#[trigger] parents@[c]@)
                        &&& forall|j: int|
                            0 <= j < parents@[c]@.len() ==> parents@[c]@[j] < index && is_parent(
                                self.cells@,
                                parents@[c]@[j] as int,
                                c,
                            )
                        &&& forall|i: int|
                            0 <= i < index && is_parent(self.cells@, i, c) ==> parents@[c]@.contains(
                                i as usize,
                            )
                    },
            decreases n - index,
        {
            let cell = &self.cells[index];
            let slots = cell.tag.ref_slots();
            let mut k: usize = 0;
            while k < slots.len()
                invariant
                    slots@ == tag_ref_slots(cell.tag),
                    *cell == self.cells@[index as int],
                    index < n,
                    n <= self.cells@.len(),
                    n == self.n(),
                    k <= slots@.len(),
                    parents@.len() == self.count,
                    forall|c: int|
                        0 <= c < self.count ==> {
                            &&& strictly_increasing(#[trigger] parents@[c]@)
                            &&& forall|j: int|
                                0 <= j < parents@[c]@.len() ==> parents@[c]@[j] <= index
                                    && is_parent(self.cells@, parents@[c]@[j] as int, c)
                            &&& forall|i: int|
                                0 <= i < index && is_parent(self.cells@, i, c)
                                    ==> parents@[c]@.contains(i as usize)
                            &&& (exists|m: int| 0 <= m < k && child_ref(*cell, m) == c)
                                ==> parents@[c]@.contains(index)
                        },
                decreases slots@.len() - k,
            {
                let slot = slots[k];
                assert(slot < 4) by {
                    assert(tag_ref_slots(cell.tag)[k as int] < 4);
                }
                let raw = cell.args[slot];
                assert(raw == child_ref(*cell, k as int));
                if raw >= 0 && (raw as u64) < (self.count as u64) {
                    let child = raw as usize;
                    if !vec_contains(&parents[child], index) {
                        let ghost before = parents@;
                        let mut list = take_list(&mut parents, child);
                        list.push(index);
                        parents.set(child, list);
                        assert forall|c: int| 0 <= c < self.count && c != child implies #[trigger] parents@[c]
                            == before[c] by {}
                        assert(is_parent(self.cells@, index as int, child as int));
                        assert(parents@[child as int]@ == before[child as int]@.push(index));
                        assert(parents@[child as int]@.contains(index)) by {
                            assert(parents@[child as int]@[before[child as int]@.len() as int] == index);
                        }
                        assert forall|i: int| 0 <= i < index && is_parent(self.cells@, i, child as int)
                            implies parents@[child as int]@.contains(i as usize) by {
                            assert(before[child as int]@.contains(i as usize));
                            let w = choose|w: int| 0 <= w < before[child as int]@.len() && before[child as int]@[w] == i as usize;
                            assert(parents@[child as int]@[w] == i as usize);
                        }
                    }
                }
                assert forall|c: int| 0 <= c < self.count && (exists|m: int| 0 <= m < k + 1 && child_ref(*cell, m) == c)
                    implies parents@[c]@.contains(index) by {
                    let m = choose|m: int| 0 <= m < k + 1 && child_ref(*cell, m) == c;
                    if m < k {
                    } else {
                        assert(m == k);
                    }
                }
                k = k + 1;
            }
            proof {
                assert forall|c: int, i: int| 0 <= c < self.count && 0 <= i < index + 1 && is_parent(self.cells@, i, c)
                    implies #[trigger] parents@[c]@.contains(i as usize) by {
                    if i == index {
                        let m = choose|m: int| 0 <= m < tag_ref_slots(self.cells@[i].tag).len() && #[trigger] child_ref(self.cells@[i], m) == c;
                        assert(child_ref(*cell, m) == c);
                    }
                }
            }
            index = index + 1;
        }
        parents
    }

    /// Binder level to declaring cell. Duplicate levels are FAIL.
    fn binders(&self) -> (r: Result<[Option<usize>; 32], DepVerdict>)
        ensures
            r is Ok <==> binders_distinct(self.cells@, self.n()),
            r is Err ==> r == Err::<[Option<usize>; 32], DepVerdict>(DepVerdict::Fail),
            r matches Ok(b) ==> binder_table(self.cells@, self.n(), b@),
    {
        let n = self.active();
        let mut binders: [Option<usize>; 32] = [None; 32];
        let mut index: usize = 0;
        while index < n
            invariant
                n == self.n(),
                n <= self.cells@.len(),
                index <= n,
                binders@.len() == 32,
                binders_distinct(self.cells@, index as int),
                forall|l: int|
                    0 <= l < 32 ==> (#[trigger] binders@[l] matches Some(i) ==> i < index
                        && tag_is_binder(self.cells@[i as int].tag) && cell_level(
                        self.cells@[i as int],
                    ) == l),
                forall|i: int|
                    0 <= i < index && tag_is_binder(#[trigger] self.cells@[i].tag)
                        ==> binders@[cell_level(self.cells@[i]) as int] == Some(i as usize),
            decreases n - index,
        {
            let cell = &self.cells[index];
            if cell.tag.is_binder() {
                let level = level_of(cell);
                if level < 0 || level >= 32 {
                    assert(!binders_distinct(self.cells@, n as int)) by {
                        assert(tag_is_binder(self.cells@[index as int].tag));
                    }
                    return Err(DepVerdict::Fail);
                }
                let slot = level as usize;
                if binders[slot].is_some() {
                    let other = binders[slot].unwrap();
                    assert(!binders_distinct(self.cells@, n as int)) by {
                        assert(tag_is_binder(self.cells@[other as int].tag));
                        assert(tag_is_binder(self.cells@[index as int].tag));
                        assert(other < index);
                    }
                    return Err(DepVerdict::Fail);
                }
                let ghost before = binders@;
                binders[slot] = Some(index);
                assert(binders@ == before.update(slot as int, Some(index)));
                assert forall|i: int|
                    0 <= i < index + 1 && tag_is_binder(#[trigger] self.cells@[i].tag) implies binders@[cell_level(self.cells@[i]) as int] == Some(i as usize) by {
                    if i < index {
                        assert(before[cell_level(self.cells@[i]) as int] == Some(i as usize));
                    }
                }
            }
            index = index + 1;
        }
        Ok(binders)
    }

    /// Cells transitively mentioning a variable.
    fn mentions(&self) -> (r: Vec<bool>)
        requires
            topo_ok(self.cells@, self.count),
        ensures
            r@.len() == self.count,
            forall|i: int| 0 <= i < self.count ==> #[trigger] r@[i] == (i < self.n() && mentions_at(self.cells@, i)),
    {
        let n = self.active();
        let mut mentions: Vec<bool> = Vec::new();
        let mut c: usize = 0;
        while c < self.count
            invariant
                c <= self.count,
                mentions@.len() == c,
                forall|j: int| 0 <= j < c ==> !(#[trigger] mentions@[j]),
            decreases self.count - c,
        {
            mentions.push(false);
            c = c + 1;
        }
        let mut index: usize = 0;
        while index < n
            invariant
                n == self.n(),
                n <= self.cells@.len(),
                n <= self.count,
                index <= n,
                topo_ok(self.cells@, self.count),
                mentions@.len() == self.count,
                forall|i: int| 0 <= i < self.count ==> #[trigger] mentions@[i] == (i < index && mentions_at(self.cells@, i)),
            decreases n - index,
        {
            let cell = &self.cells[index];
            assert(children_below(self.cells@[index as int], index as int));
            let mut mentioned = cell.tag == DepTag::Var;
            let slots = cell.tag.ref_slots();
            let mut k: usize = 0;
            while k < slots.len()
                invariant
                    slots@ == tag_ref_slots(cell.tag),
                    *cell == self.cells@[index as int],
                    children_below(*cell, index as int),
                    index < n,
                    n <= self.cells@.len(),
                    n <= self.count,
                    k <= slots@.len(),
                    mentions@.len() == self.count,
                    forall|i: int| 0 <= i < self.count ==> #[trigger] mentions@[i] == (i < index && mentions_at(self.cells@, i)),
                    mentioned == (cell.tag == DepTag::Var || exists|m: int| 0 <= m < k && slot_mentions(self.cells@, index as int, m)),
                decreases slots@.len() - k,
            {
                let slot = slots[k];
                assert(slot < 4) by {
                    assert(tag_ref_slots(cell.tag)[k as int] < 4);
                }
                let raw = cell.args[slot];
                assert(raw == child_ref(*cell, k as int));
                assert(0 <= raw < index);
                let child = raw as usize;
                if mentions[child] {
                    mentioned = true;
                }
                assert(slot_mentions(self.cells@, index as int, k as int) == mentions@[child as int]);
                k = k + 1;
            }
            proof {
                let cells = self.cells@;
                let i = index as int;
                let len = tag_ref_slots(cell.tag).len();
                assert(len <= 4);
                assert forall|m: int| len <= m < 4 implies !slot_mentions(cells, i, m) by {}
                assert(mentioned == mentions_at(cells, i)) by {
                    if mentioned && cell.tag != DepTag::Var {
                        let m = choose|m: int| 0 <= m < len && slot_mentions(cells, i, m);
                        assert(m == 0 || m == 1 || m == 2 || m == 3);
                    }
                    if mentions_at(cells, i) && cell.tag != DepTag::Var {
                        if slot_mentions(cells, i, 0) { assert(0 < len); }
                        else if slot_mentions(cells, i, 1) { assert(1 < len); }
                        else if slot_mentions(cells, i, 2) { assert(2 < len); }
                        else { assert(slot_mentions(cells, i, 3)); assert(3 < len); }
                    }
                }
            }
            mentions.set(index, mentioned);
            index = index + 1;
        }
        mentions
    }


    /// Nearest ancestor assumption declaration of `from`, if any.
    fn hyp_ancestor(&self, parents: &[Vec<usize>], from: usize) -> (r: Option<usize>)
        requires
            parent_table(self.cells@, self.count, nested_view(parents@)),
            from < self.count,
        ensures
            r == hyp_walk(self.cells@, nested_view(parents@), from as int, 32),
    {
        let ghost pv = nested_view(parents@);
        let mut current = from;
        let mut step: usize = 0;
        while step < PROOF_DEP_BUFFER_CAPACITY
            invariant
                pv == nested_view(parents@),
                parent_table(self.cells@, self.count, pv),
                current < self.count,
                step <= 32,
                hyp_walk(self.cells@, pv, from as int, 32) == hyp_walk(self.cells@, pv, current as int, (32 - step) as nat),
            decreases 32 - step,
        {
            assert(pv[current as int] == parents@[current as int]@);
            if parents[current].len() == 0 {
                return None;
            }
            let up = parents[current][0];
            assert(up < self.n());
            if self.cells[up].tag == DepTag::Hyp {
                return Some(up);
            }
            if parents[current].len() != 1 {
                return None;
            }
            current = up;
            step = step + 1;
        }
        None
    }

    /// Resolve one variable occurrence to its binder cell.
    fn resolve(
        &self,
        parents: &[Vec<usize>],
        binders: &[Option<usize>; 32],
        from: usize,
        level: i64,
    ) -> (r: Result<usize, DepVerdict>)
        requires
            parent_table(self.cells@, self.count, nested_view(parents@)),
            binder_table(self.cells@, self.n(), binders@),
            from < self.count,
            self.count <= PROOF_DEP_BUFFER_CAPACITY,
        ensures
            r == resolve_spec(self.cells@, nested_view(parents@), binders@, from as int, level),
    {
        let ghost pv = nested_view(parents@);
        if !(0 <= level && level < 32) {
            return Err(DepVerdict::Fail);
        }
        let declared = match binders[level as usize] {
            Some(d) => d,
            None => return Err(DepVerdict::Fail),
        };
        assert(declared < self.n());
        if self.cells[declared].tag == DepTag::Hyp {
            if self.hyp_ancestor(parents, from).is_some() {
                return Err(DepVerdict::Fail);
            }
            return Ok(declared);
        }
        let mut current = from;
        let mut previous = from;
        let mut step: usize = 0;
        while step < PROOF_DEP_BUFFER_CAPACITY
            invariant
                pv == nested_view(parents@),
                parent_table(self.cells@, self.count, pv),
                current < self.count,
                previous < self.count,
                self.count <= PROOF_DEP_BUFFER_CAPACITY,
                step <= 32,
                0 <= level < 32,
                resolve_spec(self.cells@, pv, binders@, from as int, level) == binder_walk(self.cells@, pv, level, from as int, from as int, 32),
                binder_walk(self.cells@, pv, level, from as int, from as int, 32) == binder_walk(
                    self.cells@,
                    pv,
                    level,
                    current as int,
                    previous as int,
                    (32 - step) as nat,
                ),
            decreases 32 - step,
        {
            assert(pv[current as int] == parents@[current as int]@);
            if parents[current].len() != 1 {
                return Err(DepVerdict::Fail);
            }
            let up = parents[current][0];
            assert(up < self.n());
            let up_cell = &self.cells[up];
            let up_level = level_of(up_cell);
            let scoping = up_cell.tag == DepTag::Pi || up_cell.tag == DepTag::Lam;
            let via_domain = scoping && up_cell.args[0] == previous as i64;
            if scoping && up_level == level && !via_domain {
                return Ok(up);
            }
            previous = current;
            current = up;
            step = step + 1;
        }
        Err(DepVerdict::Fail)
    }

    /// Resolution targets for every variable (parallel to `cells`).
    pub fn targets(&self, parents: &[Vec<usize>], binders: &[Option<usize>; 32]) -> (r: Result<
        Vec<Option<usize>>,
        DepVerdict,
    >)
        requires
            parent_table(self.cells@, self.count, nested_view(parents@)),
            binder_table(self.cells@, self.n(), binders@),
            self.count <= PROOF_DEP_BUFFER_CAPACITY,
        ensures
            r is Ok <==> all_resolve(self.cells@, self.count, nested_view(parents@), binders@),
            r is Err ==> r == Err::<Vec<Option<usize>>, DepVerdict>(DepVerdict::Fail),
            r matches Ok(t) ==> t@.len() == self.count && forall|i: int|
                0 <= i < self.count ==> #[trigger] t@[i] == target_entry(
                    self.cells@,
                    self.count,
                    nested_view(parents@),
                    binders@,
                    i,
                ),
    {
        let ghost pv = nested_view(parents@);
        let n = self.active();
        let mut targets: Vec<Option<usize>> = Vec::new();
        let mut c: usize = 0;
        while c < self.count
            invariant
                c <= self.count,
                targets@.len() == c,
                forall|j: int| 0 <= j < c ==> (#[trigger] targets@[j]) is None,
            decreases self.count - c,
        {
            targets.push(None);
            c = c + 1;
        }
        let mut index: usize = 0;
        while index < n
            invariant
                pv == nested_view(parents@),
                parent_table(self.cells@, self.count, pv),
                binder_table(self.cells@, self.n(), binders@),
                self.count <= PROOF_DEP_BUFFER_CAPACITY,
                n == self.n(),
                n <= self.cells@.len(),
                n <= self.count,
                index <= n,
                targets@.len() == self.count,
                forall|i: int|
                    0 <= i < index && #[trigger] self.cells@[i].tag == DepTag::Var ==> resolve_spec(
                        self.cells@,
                        pv,
                        binders@,
                        i,
                        self.cells@[i].args@[0],
                    ) is Ok,
                forall|i: int|
                    0 <= i < self.count ==> #[trigger] targets@[i] == (if i < index {
                        target_entry(self.cells@, self.count, pv, binders@, i)
                    } else {
                        None
                    }),
            decreases n - index,
        {
            let cell = &self.cells[index];
            if cell.tag == DepTag::Var {
                let resolved = self.resolve(parents, binders, index, cell.args[0]);
                match resolved {
                    Ok(b) => {
                        targets.set(index, Some(b));
                    },
                    Err(e) => {
                        proof {
                            lemma_resolve_fails_closed(self.cells@, pv, binders@, index as int, cell.args@[0]);
                            assert(!all_resolve(self.cells@, self.count, pv, binders@)) by {
                                assert(self.cells@[index as int].tag == DepTag::Var);
                            }
                        }
                        return Err(e);
                    },
                }
            }
            index = index + 1;
        }
        proof {
            assert forall|i: int| 0 <= i < self.count implies #[trigger] targets@[i] == target_entry(
                self.cells@, self.count, pv, binders@, i) by {
                if i >= n {
                    assert(target_entry(self.cells@, self.count, pv, binders@, i) is None);
                }
            }
        }
        Ok(targets)
    }

    /// Full structural check: topology, binder uniqueness, resolution, the
    /// open-cone tree rule (at most one distinct parent per open cell), and
    /// assumption declarations as roots. Every violation is FAIL.
    pub fn check_shape(&self) -> (r: Result<Vec<Option<usize>>, DepVerdict>)
        ensures
            r is Ok <==> shape_ok(self.cells@, self.count),
            r is Err ==> r == Err::<Vec<Option<usize>>, DepVerdict>(DepVerdict::Fail),
            r matches Ok(t) ==> t@.len() == self.count && forall|i: int|
                0 <= i < self.count ==> #[trigger] t@[i] == target_entry(
                    self.cells@,
                    self.count,
                    parents_of(self.cells@, self.count),
                    binders_of(self.cells@, self.count),
                    i,
                ),
    {
        self.check_topo()?;
        let parents = self.parents();
        let ghost pv = nested_view(parents@);
        proof {
            lemma_parent_table_unique(self.cells@, self.count, pv, parents_of(self.cells@, self.count));
        }
        let binders = self.binders()?;
        proof {
            lemma_binder_table_unique(self.cells@, self.n(), binders@, binders_of(self.cells@, self.count));
        }
        let mentions = self.mentions();
        let targets = self.targets(&parents, &binders)?;
        let n = self.active();
        let mut index: usize = 0;
        while index < n
            invariant
                pv == nested_view(parents@),
                pv == parents_of(self.cells@, self.count),
                parent_table(self.cells@, self.count, pv),
                n == self.n(),
                n <= self.cells@.len(),
                n <= self.count,
                index <= n,
                targets@.len() == self.count,
                mentions@.len() == self.count,
                forall|i: int| 0 <= i < self.count ==> #[trigger] mentions@[i] == (i < self.n() && mentions_at(self.cells@, i)),
                forall|i: int|
                    0 <= i < index ==> !(mentions_at(self.cells@, i) && #[trigger] has_two_parents(
                        self.cells@,
                        self.count,
                        i,
                    )),
                forall|i: int|
                    0 <= i < index && #[trigger] self.cells@[i].tag == DepTag::Hyp ==> !has_parent(
                        self.cells@,
                        self.count,
                        i,
                    ),
            decreases n - index,
        {
            proof {
                lemma_parent_counts(self.cells@, self.count, pv, index as int);
            }
            assert(pv[index as int] == parents@[index as int]@);
            let cell = &self.cells[index];
            if mentions[index] && parents[index].len() > 1 {
                return Err(DepVerdict::Fail);
            }
            if cell.tag == DepTag::Hyp && parents[index].len() != 0 {
                return Err(DepVerdict::Fail);
            }
            index = index + 1;
        }
        Ok(targets)
    }

}

}
