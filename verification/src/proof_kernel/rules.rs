use vstd::prelude::*;

use super::artifact::{proof_join, ProofArtifact, ProofCell, ProofTag, ProofVerdict, PROOF_BUFFER_CAPACITY, PROOF_MAX_UNIVERSE};
use super::reference::child_ok;

verus! {

/// The reference checker's tables as mathematical columns. Row `k` records
/// what cell `k` reduces to (`rtag`, `rr0`..`rr3`), its representative, its
/// synthesized type descriptor (`tt0`..`tt2`), its closed numeral value
/// (negative when it has none), and whether it mentions a bound variable;
/// `status` is the verdict joined over the rows written so far.
#[verifier::ext_equal]
pub struct RefModel {
    pub rtag: Seq<i64>,
    pub rr0: Seq<i64>,
    pub rr1: Seq<i64>,
    pub rr2: Seq<i64>,
    pub rr3: Seq<i64>,
    pub rep: Seq<i64>,
    pub tt0: Seq<i64>,
    pub tt1: Seq<i64>,
    pub tt2: Seq<i64>,
    pub nval: Seq<i64>,
    pub mentions: Seq<i64>,
    pub status: ProofVerdict,
}

impl RefModel {
    /// Row `index` replaced, and the row's local verdict joined in.
    pub open spec fn put(
        self,
        index: int,
        tag: i64,
        r: (i64, i64, i64, i64),
        rep: i64,
        nval: i64,
        mentions: i64,
        t: (i64, i64, i64),
        local: ProofVerdict,
    ) -> RefModel {
        RefModel {
            rtag: self.rtag.update(index, tag),
            rr0: self.rr0.update(index, r.0),
            rr1: self.rr1.update(index, r.1),
            rr2: self.rr2.update(index, r.2),
            rr3: self.rr3.update(index, r.3),
            rep: self.rep.update(index, rep),
            tt0: self.tt0.update(index, t.0),
            tt1: self.tt1.update(index, t.1),
            tt2: self.tt2.update(index, t.2),
            nval: self.nval.update(index, nval),
            mentions: self.mentions.update(index, mentions),
            status: proof_join(self.status, local),
        }
    }
}

/// Tables of `width` blank rows (no value anywhere) and a PASS status.
pub open spec fn fresh_model(width: int) -> RefModel {
    RefModel {
        rtag: Seq::new(width as nat, |k: int| 0i64),
        rr0: Seq::new(width as nat, |k: int| 0i64),
        rr1: Seq::new(width as nat, |k: int| 0i64),
        rr2: Seq::new(width as nat, |k: int| 0i64),
        rr3: Seq::new(width as nat, |k: int| 0i64),
        rep: Seq::new(width as nat, |k: int| 0i64),
        tt0: Seq::new(width as nat, |k: int| 0i64),
        tt1: Seq::new(width as nat, |k: int| 0i64),
        tt2: Seq::new(width as nat, |k: int| 0i64),
        nval: Seq::new(width as nat, |k: int| -1i64),
        mentions: Seq::new(width as nat, |k: int| 0i64),
        status: ProofVerdict::Pass,
    }
}

/// A column entry for a validated reference inside the table, or the fallback.
pub open spec fn rd(table: Seq<i64>, raw: i64, ok: bool, fallback: i64) -> i64 {
    if ok && 0 <= raw < table.len() {
        table[raw as int]
    } else {
        fallback
    }
}

/// Canonical meaning of a type row: Nat is (2,0,0), Universe(l) is (1,l,0),
/// Pi(d,c) is (3,d,c), Eq(T,_,_) is (4,T,0); any other row is no type (0,0,0).
pub open spec fn denotation(tag: i64, first: i64, second: i64) -> (i64, i64, i64) {
    if tag == 6 {
        (2i64, 0i64, 0i64)
    } else if tag == 1 {
        (1i64, first, 0i64)
    } else if tag == 3 {
        (3i64, first, second)
    } else if tag == 11 {
        (4i64, first, 0i64)
    } else {
        (0i64, 0i64, 0i64)
    }
}

/// The denotation of the row a column entry points at.
pub open spec fn denoted_at(m: RefModel, row: i64, ok: bool) -> (i64, i64, i64) {
    denotation(rd(m.rtag, row, ok, 0), rd(m.rr0, row, ok, 0), rd(m.rr1, row, ok, 0))
}

/// The type descriptor recorded for a referenced cell.
pub open spec fn descriptor_at(m: RefModel, raw: i64, ok: bool) -> (i64, i64, i64) {
    (rd(m.tt0, raw, ok, 0), rd(m.tt1, raw, ok, 0), rd(m.tt2, raw, ok, 0))
}

pub open spec fn flag_of(b: bool) -> i64 {
    if b {
        1
    } else {
        0
    }
}

/// The successor of a closed numeral (none on overflow).
pub open spec fn succ_value(v: i64) -> i64 {
    if v < i64::MAX {
        (v + 1) as i64
    } else {
        -1i64
    }
}

/// The sum of two closed numerals (none on overflow).
pub open spec fn sum_value(left: i64, right: i64) -> i64 {
    if left <= i64::MAX - right {
        (left + right) as i64
    } else {
        -1i64
    }
}

pub open spec fn verdict_if(fail: bool) -> ProofVerdict {
    if fail {
        ProofVerdict::Fail
    } else {
        ProofVerdict::Pass
    }
}

/// `Universe(l)`: a type of level `l + 1` when `l` is below the ceiling.
pub open spec fn universe_rule(m: RefModel, cell: ProofCell, index: int) -> RefModel {
    let level = cell.args@[0];
    let has_type = 0 <= level && level < PROOF_MAX_UNIVERSE;
    m.put(
        index,
        1,
        (level, 0, 0, 0),
        index as i64,
        -1i64,
        0,
        if has_type { (1i64, (level + 1) as i64, 0i64) } else { (0i64, 0i64, 0i64) },
        verdict_if(!has_type),
    )
}

/// `Nat`: a type in the lowest universe.
pub open spec fn nat_rule(m: RefModel, index: int) -> RefModel {
    m.put(index, 6, (0, 0, 0, 0), index as i64, -1i64, 0, (1, 0, 0), ProofVerdict::Pass)
}

/// `Zero`: the numeral 0, of type Nat.
pub open spec fn zero_rule(m: RefModel, index: int) -> RefModel {
    m.put(index, 7, (0, 0, 0, 0), index as i64, 0, 0, (2, 0, 0), ProofVerdict::Pass)
}

/// `Var(b)`: typed by the domain of its binder `b`, a Pi or a Lambda.
pub open spec fn var_rule(m: RefModel, cell: ProofCell, count: int, index: int) -> RefModel {
    let a0 = cell.args@[0];
    let ok = child_ok(a0, index, count);
    let target = if ok { a0 } else { 0 };
    let binder = rd(m.rtag, target, ok, 0);
    let found = ok && (binder == 3 || binder == 4);
    let domain = rd(m.rr0, target, found, 0);
    let d = denoted_at(m, domain, found);
    let usable = d.0 != 0;
    m.put(
        index,
        2,
        (target, 0, 0, 0),
        index as i64,
        -1i64,
        1,
        if found && usable { d } else { (0i64, 0i64, 0i64) },
        verdict_if(!found || !usable),
    )
}

/// `Pi(d, c)`: both sides types; the level is the larger of theirs.
pub open spec fn pi_rule(m: RefModel, cell: ProofCell, count: int, index: int) -> RefModel {
    let a0 = cell.args@[0];
    let a1 = cell.args@[1];
    let ok_d = child_ok(a0, index, count);
    let ok_c = child_ok(a1, index, count);
    let d_level = rd(m.tt1, a0, ok_d, 0);
    let c_level = rd(m.tt1, a1, ok_c, 0);
    let well_typed = ok_d && ok_c && rd(m.tt0, a0, ok_d, 0) == 1 && rd(m.tt0, a1, ok_c, 0) == 1;
    let joined = if d_level >= c_level { d_level } else { c_level };
    let local = verdict_if(!well_typed || joined > PROOF_MAX_UNIVERSE);
    m.put(
        index,
        3,
        (rd(m.rep, a0, ok_d, index as i64), rd(m.rep, a1, ok_c, index as i64), 0, 0),
        index as i64,
        -1i64,
        flag_of(rd(m.mentions, a0, ok_d, 0) > 0 || rd(m.mentions, a1, ok_c, 0) > 0),
        if local == ProofVerdict::Pass { (1i64, joined, 0i64) } else { (0i64, 0i64, 0i64) },
        local,
    )
}

/// `Lambda(d, body, claim)`: the claim is a Pi over the same domain whose
/// codomain denotes exactly the body's descriptor.
pub open spec fn lambda_rule(m: RefModel, cell: ProofCell, count: int, index: int) -> RefModel {
    let a0 = cell.args@[0];
    let a1 = cell.args@[1];
    let a2 = cell.args@[2];
    let ok_domain = child_ok(a0, index, count);
    let ok_body = child_ok(a1, index, count);
    let ok_claim = child_ok(a2, index, count);
    let domain_is_type = rd(m.tt0, a0, ok_domain, 0) == 1;
    let claim_is_pi = rd(m.rtag, a2, ok_claim, 0) == 3;
    let claim_domain = rd(m.rr0, a2, ok_claim && claim_is_pi, 0);
    let claim_codomain = rd(m.rr1, a2, ok_claim && claim_is_pi, 0);
    let domain_rep = rd(m.rep, a0, ok_domain, index as i64);
    let actual = descriptor_at(m, a1, ok_body);
    let claimed = denoted_at(m, claim_codomain, ok_claim && claim_is_pi);
    let local = verdict_if(
        !(ok_domain && ok_body && ok_claim) || !domain_is_type || !claim_is_pi || claim_domain != domain_rep || actual != claimed,
    );
    m.put(
        index,
        4,
        (domain_rep, rd(m.rep, a1, ok_body, index as i64), 0, 0),
        index as i64,
        -1i64,
        rd(m.mentions, a1, ok_body, 0),
        if local == ProofVerdict::Pass { (3i64, claim_domain, claim_codomain) } else { (0i64, 0i64, 0i64) },
        local,
    )
}

/// `Apply(f, x)`: `f` has a Pi type whose domain denotes `x`'s descriptor;
/// a dependent codomain cannot be decided here.
pub open spec fn apply_rule(m: RefModel, cell: ProofCell, count: int, index: int) -> RefModel {
    let a0 = cell.args@[0];
    let a1 = cell.args@[1];
    let ok_fun = child_ok(a0, index, count);
    let ok_arg = child_ok(a1, index, count);
    let is_pi = rd(m.tt0, a0, ok_fun, 0) == 3;
    let domain = rd(m.tt1, a0, ok_fun, 0);
    let codomain = rd(m.tt2, a0, ok_fun, 0);
    let usable = ok_fun && is_pi;
    let required = denoted_at(m, domain, usable);
    let actual = descriptor_at(m, a1, ok_arg);
    let applicable = ok_fun && ok_arg && is_pi && actual == required;
    let dependent = rd(m.mentions, codomain, usable, 0) > 0;
    let local = if !applicable {
        ProofVerdict::Fail
    } else if dependent {
        ProofVerdict::Unknown
    } else {
        ProofVerdict::Pass
    };
    m.put(
        index,
        5,
        (rd(m.rep, a0, ok_fun, index as i64), rd(m.rep, a1, ok_arg, index as i64), 0, 0),
        index as i64,
        -1i64,
        flag_of(rd(m.mentions, a0, ok_fun, 0) > 0 || rd(m.mentions, a1, ok_arg, 0) > 0),
        if local == ProofVerdict::Pass { denoted_at(m, codomain, usable) } else { (0i64, 0i64, 0i64) },
        local,
    )
}

/// `Succ(n)`: `n` is a Nat; a closed numeral steps to its successor.
pub open spec fn succ_rule(m: RefModel, cell: ProofCell, count: int, index: int) -> RefModel {
    let a0 = cell.args@[0];
    let ok = child_ok(a0, index, count);
    let is_nat = rd(m.tt0, a0, ok, 0) == 2;
    let local = verdict_if(!ok || !is_nat);
    let pred_value = rd(m.nval, a0, ok, -1i64);
    m.put(
        index,
        8,
        (rd(m.rep, a0, ok, index as i64), 0, 0, 0),
        index as i64,
        if ok && is_nat && pred_value >= 0 { succ_value(pred_value) } else { -1i64 },
        rd(m.mentions, a0, ok, 0),
        if local == ProofVerdict::Pass { (2i64, 0i64, 0i64) } else { (0i64, 0i64, 0i64) },
        local,
    )
}

/// `Plus(a, b)`: both Nat; two closed numerals add.
pub open spec fn plus_rule(m: RefModel, cell: ProofCell, count: int, index: int) -> RefModel {
    let a0 = cell.args@[0];
    let a1 = cell.args@[1];
    let ok_left = child_ok(a0, index, count);
    let ok_right = child_ok(a1, index, count);
    let both_nat = rd(m.tt0, a0, ok_left, 0) == 2 && rd(m.tt0, a1, ok_right, 0) == 2;
    let local = verdict_if(!ok_left || !ok_right || !both_nat);
    let left_value = rd(m.nval, a0, ok_left, -1i64);
    let right_value = rd(m.nval, a1, ok_right, -1i64);
    m.put(
        index,
        9,
        (rd(m.rep, a0, ok_left, index as i64), rd(m.rep, a1, ok_right, index as i64), 0, 0),
        index as i64,
        if ok_left && ok_right && both_nat && left_value >= 0 && right_value >= 0 {
            sum_value(left_value, right_value)
        } else {
            -1i64
        },
        flag_of(rd(m.mentions, a0, ok_left, 0) > 0 || rd(m.mentions, a1, ok_right, 0) > 0),
        if local == ProofVerdict::Pass { (2i64, 0i64, 0i64) } else { (0i64, 0i64, 0i64) },
        local,
    )
}

/// `NatElim(motive, zero, succ, target)`: a non-dependent motive `Nat -> U`,
/// branches of the motive's codomain, a Nat target. Only a closed zero target
/// reduces (to the zero branch); anything else is UNKNOWN.
pub open spec fn nat_elim_rule(m: RefModel, cell: ProofCell, count: int, index: int) -> RefModel {
    let a0 = cell.args@[0];
    let a1 = cell.args@[1];
    let a2 = cell.args@[2];
    let a3 = cell.args@[3];
    let ok_motive = child_ok(a0, index, count);
    let ok_zero = child_ok(a1, index, count);
    let ok_succ = child_ok(a2, index, count);
    let ok_target = child_ok(a3, index, count);
    let motive_ok = ok_motive && rd(m.tt0, a0, ok_motive, 0) == 3;
    let motive_domain = rd(m.tt1, a0, motive_ok, 0);
    let motive_codomain = rd(m.tt2, a0, motive_ok, 0);
    let cod_denotation = denoted_at(m, motive_codomain, motive_ok);
    let motive_well_formed = motive_ok && denoted_at(m, motive_domain, motive_ok).0 == 2 && cod_denotation.0 == 1;
    let dependent = rd(m.mentions, motive_codomain, motive_well_formed, 0) > 0;
    let zero_actual = descriptor_at(m, a1, ok_zero);
    let succ_is_pi = rd(m.tt0, a2, ok_succ, 0) == 3;
    let succ_domain = rd(m.tt1, a2, ok_succ, 0);
    let succ_codomain = rd(m.tt2, a2, ok_succ, 0);
    let branches_ok = motive_well_formed && zero_actual == cod_denotation && succ_is_pi && denoted_at(
        m,
        succ_domain,
        ok_succ && succ_is_pi,
    ).0 == 2 && denoted_at(m, succ_codomain, ok_succ && succ_is_pi) == cod_denotation && rd(m.tt0, a3, ok_target, 0) == 2;
    let local = if !(ok_motive && ok_zero && ok_succ && ok_target) || !motive_well_formed || !branches_ok {
        ProofVerdict::Fail
    } else if dependent || rd(m.nval, a3, ok_target, -1i64) != 0 {
        ProofVerdict::Unknown
    } else {
        ProofVerdict::Pass
    };
    let settled = local == ProofVerdict::Pass;
    let motive_rep = rd(m.rep, a0, ok_motive, index as i64);
    let zero_rep = rd(m.rep, a1, ok_zero, index as i64);
    let succ_rep = rd(m.rep, a2, ok_succ, index as i64);
    let target_rep = rd(m.rep, a3, ok_target, index as i64);
    if settled {
        m.put(
            index,
            10,
            (zero_rep, 0, 0, 0),
            zero_rep,
            rd(m.nval, a1, ok_zero, -1i64),
            rd(m.mentions, a1, ok_zero, 0),
            zero_actual,
            local,
        )
    } else {
        m.put(index, 10, (motive_rep, zero_rep, succ_rep, target_rep), index as i64, -1i64, 0, (0, 0, 0), local)
    }
}

/// `Eq(T, a, b)`: `T` a type, both sides of the type `T` denotes.
pub open spec fn eq_rule(m: RefModel, cell: ProofCell, count: int, index: int) -> RefModel {
    let a0 = cell.args@[0];
    let a1 = cell.args@[1];
    let a2 = cell.args@[2];
    let ok_carrier = child_ok(a0, index, count);
    let ok_left = child_ok(a1, index, count);
    let ok_right = child_ok(a2, index, count);
    let carrier_rep = rd(m.rep, a0, ok_carrier, index as i64);
    let required = denoted_at(m, carrier_rep, ok_carrier);
    let local = verdict_if(
        !(ok_carrier && ok_left && ok_right) || rd(m.tt0, a0, ok_carrier, 0) != 1 || descriptor_at(m, a1, ok_left) != required
            || descriptor_at(m, a2, ok_right) != required,
    );
    m.put(
        index,
        11,
        (carrier_rep, rd(m.rep, a1, ok_left, index as i64), rd(m.rep, a2, ok_right, index as i64), 0),
        index as i64,
        -1i64,
        flag_of(rd(m.mentions, a1, ok_left, 0) > 0 || rd(m.mentions, a2, ok_right, 0) > 0),
        if local == ProofVerdict::Pass { (1i64, rd(m.tt1, a0, ok_carrier, 0), 0i64) } else { (0i64, 0i64, 0i64) },
        local,
    )
}

/// `Refl(w, claim)`: the claim is an Eq row; the equation itself is checked
/// at the end, against the proposition.
pub open spec fn refl_rule(m: RefModel, cell: ProofCell, count: int, index: int) -> RefModel {
    let a0 = cell.args@[0];
    let a1 = cell.args@[1];
    let ok_witness = child_ok(a0, index, count);
    let ok_claim = child_ok(a1, index, count);
    m.put(
        index,
        12,
        (rd(m.rep, a0, ok_witness, index as i64), rd(m.rep, a1, ok_claim, index as i64), 0, 0),
        index as i64,
        -1i64,
        flag_of(rd(m.mentions, a0, ok_witness, 0) > 0 || rd(m.mentions, a1, ok_claim, 0) > 0),
        (0, 0, 0),
        verdict_if(!ok_witness || !ok_claim || rd(m.rtag, a1, ok_claim, 0) != 11),
    )
}

/// An unsupported cell: no type, and the pass can at best be UNKNOWN.
pub open spec fn unsupported_rule(m: RefModel, index: int) -> RefModel {
    m.put(index, 0, (0, 0, 0, 0), index as i64, -1i64, 0, (0, 0, 0), ProofVerdict::Unknown)
}

/// One forward step: the typing rule of the cell's tag, applied at `index`.
pub open spec fn cell_step(m: RefModel, cell: ProofCell, count: int, index: int) -> RefModel {
    match cell.tag {
        ProofTag::Universe => universe_rule(m, cell, index),
        ProofTag::Nat => nat_rule(m, index),
        ProofTag::Zero => zero_rule(m, index),
        ProofTag::Var => var_rule(m, cell, count, index),
        ProofTag::Pi => pi_rule(m, cell, count, index),
        ProofTag::Lambda => lambda_rule(m, cell, count, index),
        ProofTag::Apply => apply_rule(m, cell, count, index),
        ProofTag::Succ => succ_rule(m, cell, count, index),
        ProofTag::Plus => plus_rule(m, cell, count, index),
        ProofTag::NatElim => nat_elim_rule(m, cell, count, index),
        ProofTag::Eq => eq_rule(m, cell, count, index),
        ProofTag::Refl => refl_rule(m, cell, count, index),
        ProofTag::Unsupported => unsupported_rule(m, index),
    }
}

/// The table width for `count` active cells (at least one row).
pub open spec fn table_width(count: int) -> int {
    if count > 1 {
        count
    } else {
        1
    }
}

/// The tables after the forward pass over the first `n` cells.
pub open spec fn pass_model(cells: Seq<ProofCell>, count: int, n: int) -> RefModel
    decreases n,
{
    if n <= 0 {
        fresh_model(table_width(count))
    } else {
        cell_step(pass_model(cells, count, n - 1), cells[n - 1], count, n - 1)
    }
}

/// A column value read as a position: negative or oversized values name
/// no position.
pub open spec fn as_position(value: i64) -> int {
    if value < 0 || value > usize::MAX {
        usize::MAX as int
    } else {
        value as int
    }
}

/// A column entry at a computed position, or zero outside the table.
pub open spec fn at_pos(table: Seq<i64>, position: int) -> i64 {
    if 0 <= position < table.len() {
        table[position]
    } else {
        0
    }
}

/// A Refl side is definitionally equal to the witness: a shared
/// representative, or equal closed numerals.
pub open spec fn side_matches(m: RefModel, side: int, witness: int) -> bool {
    at_pos(m.rep, side) == at_pos(m.rep, witness) || (at_pos(m.nval, side) >= 0 && at_pos(m.nval, witness) >= 0 && at_pos(
        m.nval,
        side,
    ) == at_pos(m.nval, witness))
}

/// The final claim check over the filled tables: `proof` must inhabit the
/// proposition denoted by `proposition`. A Refl proof is checked against its
/// equation (which must be the proposition, with both sides equal to the
/// witness and the witness of the carrier type); any other proof must
/// synthesize exactly the denoted descriptor. A proof that mentions a bound
/// variable is at best UNKNOWN.
pub open spec fn claim_verdict(m: RefModel, count: int, proof: int, proposition: int) -> ProofVerdict {
    let width = table_width(count);
    let indices_ok = proof < count && proposition < count;
    let prop_rep = if proposition < count { as_position(at_pos(m.rep, proposition)) } else { 0 };
    let prop_denotation = denotation(at_pos(m.rtag, prop_rep), at_pos(m.rr0, prop_rep), at_pos(m.rr1, prop_rep));
    let prop_is_type = prop_denotation.0 != 0 && indices_ok;
    let clamped = if proof < width - 1 { proof } else { width - 1 };
    let proof_desc = (at_pos(m.tt0, clamped), at_pos(m.tt1, clamped), at_pos(m.tt2, clamped));
    let proof_rep = if proof < count { as_position(at_pos(m.rep, proof)) } else { 0 };
    let is_refl = at_pos(m.rtag, proof_rep) == 12 && indices_ok;
    let witness = as_position(at_pos(m.rr0, proof_rep));
    let equation = as_position(at_pos(m.rr1, proof_rep));
    let in_equation = is_refl && equation < count && witness < count;
    let eq_carrier = if in_equation { as_position(at_pos(m.rr0, equation)) } else { 0 };
    let eq_left = if in_equation { as_position(at_pos(m.rr1, equation)) } else { 0 };
    let eq_right = if in_equation { as_position(at_pos(m.rr2, equation)) } else { 0 };
    let sides_defined = in_equation && eq_carrier < count && eq_left < count && eq_right < count;
    let witness_desc = if in_equation {
        (at_pos(m.tt0, witness), at_pos(m.tt1, witness), at_pos(m.tt2, witness))
    } else {
        (0i64, 0i64, 0i64)
    };
    let carrier_denotation = if sides_defined {
        denotation(at_pos(m.rtag, eq_carrier), at_pos(m.rr0, eq_carrier), at_pos(m.rr1, eq_carrier))
    } else {
        (0i64, 0i64, 0i64)
    };
    let refl_holds = sides_defined && equation == prop_rep && side_matches(m, eq_left, witness) && side_matches(
        m,
        eq_right,
        witness,
    ) && witness_desc == carrier_denotation;
    let claim_holds = if is_refl { refl_holds } else { indices_ok && proof_desc == prop_denotation };
    let open = indices_ok && at_pos(m.mentions, proof) > 0;
    let checked = if !indices_ok || !prop_is_type || !claim_holds {
        proof_join(m.status, ProofVerdict::Fail)
    } else {
        m.status
    };
    if open {
        proof_join(checked, ProofVerdict::Unknown)
    } else {
        checked
    }
}

/// The proof term mentions a bound variable once the forward pass is done.
pub open spec fn proof_term_open(artifact: ProofArtifact) -> bool {
    &&& artifact.proof < artifact.count
    &&& artifact.count <= artifact.cells@.len()
    &&& at_pos(pass_model(artifact.cells@, artifact.count as int, artifact.count as int).mentions, artifact.proof as int) > 0
}

/// The reference checker's verdict on an artifact: FAIL for a buffer over
/// capacity or an active prefix longer than the buffer; otherwise the claim
/// check over the tables of the forward pass across the active prefix.
pub open spec fn reference_verdict(artifact: ProofArtifact) -> ProofVerdict {
    if artifact.cells@.len() > PROOF_BUFFER_CAPACITY || artifact.count > artifact.cells@.len() {
        ProofVerdict::Fail
    } else {
        claim_verdict(
            pass_model(artifact.cells@, artifact.count as int, artifact.count as int),
            artifact.count as int,
            artifact.proof as int,
            artifact.proposition as int,
        )
    }
}

/// Closed numerals add: the sum of two naturals is their arithmetic sum
/// whenever it fits, and no numeral (-1) only when it overflows.
pub proof fn lemma_sum_of_closed_numerals(left: i64, right: i64)
    requires
        0 <= left,
        0 <= right,
    ensures
        left + right <= i64::MAX ==> sum_value(left, right) == left + right,
        left + right > i64::MAX ==> sum_value(left, right) == -1,
{
}

/// The row of a `Plus` over two closed Nat numerals records their sum as
/// its numeral value, whenever the sum fits: `n + 0` is `n`, `1 + 1` is 2.
pub proof fn lemma_plus_row_adds(m: RefModel, cell: ProofCell, count: int, index: int)
    requires
        0 <= index < m.nval.len(),
        index < m.tt0.len(),
        child_ok(cell.args@[0], index, count),
        child_ok(cell.args@[1], index, count),
        m.tt0[cell.args@[0] as int] == 2,
        m.tt0[cell.args@[1] as int] == 2,
        m.nval[cell.args@[0] as int] >= 0,
        m.nval[cell.args@[1] as int] >= 0,
        m.nval[cell.args@[0] as int] + m.nval[cell.args@[1] as int] <= i64::MAX,
    ensures
        plus_rule(m, cell, count, index).nval[index] == m.nval[cell.args@[0] as int] + m.nval[cell.args@[1] as int],
{
}

/// A closed numeral's successor is the next natural whenever it fits.
pub proof fn lemma_successor_of_closed_numeral(v: i64)
    requires
        0 <= v,
    ensures
        v < i64::MAX ==> succ_value(v) == v + 1,
        v == i64::MAX ==> succ_value(v) == -1,
{
}

} // verus!
