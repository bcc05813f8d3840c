use vstd::prelude::*;

use super::eval::{apply_closure, clamp, s_apply_closure, s_apply_value, s_eval, s_plus_val, plus_val};
use super::shape::DepBuffer;
use super::terms::{DepCell, DepTag, DepVerdict, PROOF_DEP_MAX_UNIVERSE};
use super::value::{
    empty_env, env_extend, frames_lookup, int_reading, read_int, ClosureBody, DepClosure, DepEnv,
    DepVal, Fuel,
};

verus! {

/// The largest fuel (plus rigid depth) for which rigid levels `32 + depth`
/// stay representable.
pub open spec fn depth_budget() -> int {
    i64::MAX - 34
}

/// Definitional equality over weak-head values. `depth` seeds rigid levels at
/// 32 and above (disjoint from every buffer level, hence capture-free). Head
/// mismatch is FAIL; stuck or opaque values are UNKNOWN.
#[verifier::opaque]
pub open spec fn s_defeq(cells: Seq<DepCell>, left: DepVal, right: DepVal, depth: i64, f: u64) -> (Result<(), DepVerdict>, u64)
    decreases f, 0nat, 0nat,
{
    if f == 0 {
        (Err(DepVerdict::Unknown), 0)
    } else {
        let f = (f - 1) as u64;
        if left == right && !(left is Proof || left is Stuck) {
            (Ok(()), f)
        } else {
            match (left, right) {
                (DepVal::Univ(a), DepVal::Univ(b)) => if a == b {
                    (Ok(()), f)
                } else {
                    (Err(DepVerdict::Fail), f)
                },
                (DepVal::Nat, DepVal::Nat) => (Ok(()), f),
                (DepVal::Var(a), DepVal::Var(b)) => if a == b {
                    (Ok(()), f)
                } else {
                    (Err(DepVerdict::Fail), f)
                },
                (DepVal::Succ(a), DepVal::Succ(b)) => s_defeq(cells, *a, *b, depth, f),
                (DepVal::Plus(a, b), DepVal::Plus(c, d)) => {
                    let (r, f1) = s_defeq(cells, *a, *c, depth, f);
                    let f1 = clamp(f1, f);
                    match r {
                        Err(e) => (Err(e), f1),
                        Ok(_) => s_defeq(cells, *b, *d, depth, f1),
                    }
                },
                (DepVal::Pi(a_dom, a_clo), DepVal::Pi(b_dom, b_clo)) => s_defeq_binder(
                    cells,
                    *a_dom,
                    a_clo,
                    *b_dom,
                    b_clo,
                    depth,
                    f,
                ),
                (DepVal::Lam(a_dom, a_clo), DepVal::Lam(b_dom, b_clo)) => s_defeq_binder(
                    cells,
                    *a_dom,
                    a_clo,
                    *b_dom,
                    b_clo,
                    depth,
                    f,
                ),
                (DepVal::Eq(a_t, a_l, a_r), DepVal::Eq(b_t, b_l, b_r)) => {
                    let (r, f1) = s_defeq(cells, *a_t, *b_t, depth, f);
                    let f1 = clamp(f1, f);
                    match r {
                        Err(e) => (Err(e), f1),
                        Ok(_) => {
                            let (r2, f2) = s_defeq(cells, *a_l, *b_l, depth, f1);
                            let f2 = clamp(f2, f1);
                            match r2 {
                                Err(e) => (Err(e), f2),
                                Ok(_) => s_defeq(cells, *a_r, *b_r, depth, f2),
                            }
                        },
                    }
                },
                _ => match (int_reading(left), int_reading(right)) {
                    (Some(a), Some(b)) => if a == b {
                        (Ok(()), f)
                    } else {
                        (Err(DepVerdict::Fail), f)
                    },
                    _ => if left is Stuck || left is Proof || right is Stuck || right is Proof {
                        (Err(DepVerdict::Unknown), f)
                    } else {
                        (Err(DepVerdict::Fail), f)
                    },
                },
            }
        }
    }
}

/// Binder comparison: equal domains, then bodies under a fresh rigid variable.
#[verifier::opaque]
pub open spec fn s_defeq_binder(
    cells: Seq<DepCell>,
    a_dom: DepVal,
    a_clo: DepClosure,
    b_dom: DepVal,
    b_clo: DepClosure,
    depth: i64,
    f: u64,
) -> (Result<(), DepVerdict>, u64)
    decreases f, 1nat, 0nat,
{
    let (r, f1) = s_defeq(cells, a_dom, b_dom, depth, f);
    let f1 = clamp(f1, f);
    match r {
        Err(e) => (Err(e), f1),
        Ok(_) => {
            let rigid = DepVal::Var((32 + depth) as i64);
            let (ab, f2) = s_apply_closure(cells, a_clo, rigid, a_dom, f1);
            let f2 = clamp(f2, f1);
            match ab {
                Err(e) => (Err(e), f2),
                Ok(a_body) => {
                    let (bb, f3) = s_apply_closure(cells, b_clo, rigid, b_dom, f2);
                    let f3 = clamp(f3, f2);
                    match bb {
                        Err(e) => (Err(e), f3),
                        Ok(b_body) => s_defeq(cells, a_body, b_body, (depth + 1) as i64, f3),
                    }
                },
            }
        },
    }
}

pub fn defeq(buffer: &DepBuffer, left: &DepVal, right: &DepVal, depth: i64, fuel: &mut Fuel) -> (r: Result<(), DepVerdict>)
    requires
        depth + old(fuel).0 <= depth_budget(),
    ensures
        final(fuel).0 <= old(fuel).0,
        (r, final(fuel).0) == s_defeq(buffer.cells@, *left, *right, depth, old(fuel).0),
    decreases old(fuel).0, 0nat, 0nat,
{
    proof {
        reveal(s_defeq);
        reveal(s_defeq_binder);
    }
    fuel.burn()?;
    // Identical values agree, except opaque proofs and stuck terms, which
    // abstain even against themselves.
    if left.same(right) && !matches!(left, DepVal::Proof | DepVal::Stuck) {
        return Ok(());
    }
    match (left, right) {
        (DepVal::Univ(a), DepVal::Univ(b)) => {
            if *a == *b {
                Ok(())
            } else {
                Err(DepVerdict::Fail)
            }
        },
        (DepVal::Nat, DepVal::Nat) => Ok(()),
        (DepVal::Var(a), DepVal::Var(b)) => {
            if *a == *b {
                Ok(())
            } else {
                Err(DepVerdict::Fail)
            }
        },
        (DepVal::Succ(a), DepVal::Succ(b)) => defeq(buffer, a, b, depth, fuel),
        (DepVal::Plus(a, b), DepVal::Plus(c, d)) => {
            defeq(buffer, a, c, depth, fuel)?;
            defeq(buffer, b, d, depth, fuel)
        },
        (DepVal::Pi(a_dom, a_clo), DepVal::Pi(b_dom, b_clo)) => defeq_binder(buffer, a_dom, a_clo, b_dom, b_clo, depth, fuel),
        (DepVal::Lam(a_dom, a_clo), DepVal::Lam(b_dom, b_clo)) => defeq_binder(buffer, a_dom, a_clo, b_dom, b_clo, depth, fuel),
        (DepVal::Eq(a_t, a_l, a_r), DepVal::Eq(b_t, b_l, b_r)) => {
            defeq(buffer, a_t, b_t, depth, fuel)?;
            defeq(buffer, a_l, b_l, depth, fuel)?;
            defeq(buffer, a_r, b_r, depth, fuel)
        },
        _ => {
            // Closed numerals compare by integer reading even across
            // Succ/Plus shapes; everything else stuck or opaque abstains.
            match (read_int(left), read_int(right)) {
                (Some(a), Some(b)) => {
                    if a == b {
                        Ok(())
                    } else {
                        Err(DepVerdict::Fail)
                    }
                },
                _ => {
                    if matches!(left, DepVal::Stuck | DepVal::Proof) || matches!(right, DepVal::Stuck | DepVal::Proof) {
                        Err(DepVerdict::Unknown)
                    } else {
                        Err(DepVerdict::Fail)
                    }
                },
            }
        },
    }
}

fn defeq_binder(
    buffer: &DepBuffer,
    a_dom: &DepVal,
    a_clo: &DepClosure,
    b_dom: &DepVal,
    b_clo: &DepClosure,
    depth: i64,
    fuel: &mut Fuel,
) -> (r: Result<(), DepVerdict>)
    requires
        depth + old(fuel).0 <= depth_budget() - 1,
    ensures
        final(fuel).0 <= old(fuel).0,
        (r, final(fuel).0) == s_defeq_binder(buffer.cells@, *a_dom, *a_clo, *b_dom, *b_clo, depth, old(fuel).0),
    decreases old(fuel).0, 1nat, 0nat,
{
    proof {
        reveal(s_defeq);
        reveal(s_defeq_binder);
    }
    defeq(buffer, a_dom, b_dom, depth, fuel)?;
    let rigid = DepVal::Var(32 + depth);
    let a_body = apply_closure(buffer, a_clo, rigid.duplicate(), a_dom.duplicate(), fuel)?;
    let b_body = apply_closure(buffer, b_clo, rigid, b_dom.duplicate(), fuel)?;
    defeq(buffer, &a_body, &b_body, depth + 1, fuel)
}


/// A universe classifier of a synthesized type: its level, or the verdict
/// when the type is not a universe (stuck types abstain).
pub open spec fn universe_of(ty: DepVal) -> Result<i64, DepVerdict> {
    match ty {
        DepVal::Univ(level) => Ok(level),
        DepVal::Var(_) | DepVal::Stuck => Err(DepVerdict::Unknown),
        _ => Err(DepVerdict::Fail),
    }
}

/// Types this kernel classifies: universes, `Nat`, `Pi` families, and
/// equalities. Rigid or stuck types abstain; anything else is ill-typed.
pub open spec fn classify(ty: DepVal) -> Result<(), DepVerdict> {
    match ty {
        DepVal::Univ(_) | DepVal::Nat | DepVal::Pi(_, _) | DepVal::Eq(_, _, _) => Ok(()),
        DepVal::Var(_) | DepVal::Stuck => Err(DepVerdict::Unknown),
        _ => Err(DepVerdict::Fail),
    }
}

pub open spec fn target_at(targets: Seq<Option<usize>>, index: usize) -> Option<usize> {
    if index < targets.len() {
        targets[index as int]
    } else {
        None
    }
}

/// Synthesize the (term, type) values of the cell at `index`.
pub open spec fn s_infer(cells: Seq<DepCell>, index: usize, env: DepEnv, targets: Seq<Option<usize>>, f: u64) -> (Result<(DepVal, DepVal), DepVerdict>, u64)
    decreases f, 0nat, 0nat,
{
    if f == 0 {
        (Err(DepVerdict::Unknown), 0)
    } else {
        let f = (f - 1) as u64;
        if index >= cells.len() {
            (Err(DepVerdict::Fail), f)
        } else {
            let cell = cells[index as int];
            let a = cell.args@;
            match cell.tag {
                DepTag::Universe => {
                    let level = a[0];
                    if !(0 <= level < PROOF_DEP_MAX_UNIVERSE) {
                        (Err(DepVerdict::Fail), f)
                    } else {
                        (Ok((DepVal::Univ(level), DepVal::Univ((level + 1) as i64))), f)
                    }
                },
                DepTag::Nat => (Ok((DepVal::Nat, DepVal::Univ(0))), f),
                DepTag::Zero => (Ok((DepVal::Zero, DepVal::Nat)), f),
                DepTag::Var => s_infer_var(cells, index, a[0], env, targets, f),
                DepTag::Pi => s_infer_pi(cells, a, env, targets, f),
                DepTag::Lam => s_infer_lam(cells, a, env, targets, f),
                DepTag::App => s_infer_app(cells, a, env, targets, f),
                DepTag::Succ => s_infer_succ(cells, a, env, targets, f),
                DepTag::Plus => s_infer_plus(cells, a, env, targets, f),
                DepTag::NatElim => s_infer_elim(cells, cell, env, targets, f),
                DepTag::Eq => s_infer_eq(cells, a, env, targets, f),
                DepTag::Refl => s_infer_refl(cells, a, env, targets, f),
                // Declarations elaborate vacuously: a `Hyp` is not a term,
                // but its presence is well-formed (any use goes through the
                // assumption path of `Var`).
                DepTag::Hyp => (Ok((DepVal::Stuck, DepVal::Stuck)), f),
                DepTag::Cong => s_infer_cong(cells, a, env, targets, f),
                DepTag::Unsupported => (Err(DepVerdict::Unknown), f),
            }
        }
    }
}

/// A variable: a bound level reads the environment; an assumption use
/// elaborates its declared type under the empty environment.
pub open spec fn s_infer_var(cells: Seq<DepCell>, index: usize, level: i64, env: DepEnv, targets: Seq<Option<usize>>, f: u64) -> (Result<(DepVal, DepVal), DepVerdict>, u64) {
    match frames_lookup(env.frames, level) {
        Some((term, ty)) => (Ok((term, ty)), f),
        None => match target_at(targets, index) {
            Some(binder) => if binder < cells.len() && cells[binder as int].tag == DepTag::Hyp {
                let (t, f1) = s_eval(cells, cells[binder as int].args@[1] as usize, empty_env(), f);
                match t {
                    Err(e) => (Err(e), clamp(f1, f)),
                    Ok(ty) => (Ok((DepVal::Var(level), ty)), clamp(f1, f)),
                }
            } else {
                (Err(DepVerdict::Fail), f)
            },
            None => (Err(DepVerdict::Fail), f),
        },
    }
}

/// A `Pi` family: both sides must be universes; the type is their join.
pub open spec fn s_infer_pi(cells: Seq<DepCell>, a: Seq<i64>, env: DepEnv, targets: Seq<Option<usize>>, f: u64) -> (Result<(DepVal, DepVal), DepVerdict>, u64)
    decreases f, 2nat, 0nat,
{
    let (d, f1) = s_infer(cells, a[0] as usize, env, targets, f);
    let f1 = clamp(f1, f);
    match d {
        Err(e) => (Err(e), f1),
        Ok((domain, domain_ty)) => match universe_of(domain_ty) {
            Err(e) => (Err(e), f1),
            Ok(domain_level) => {
                let level = a[2];
                let env_body = env_extend(env, level, DepVal::Var(level), domain);
                let (b, f2) = s_infer(cells, a[1] as usize, env_body, targets, f1);
                let f2 = clamp(f2, f1);
                match b {
                    Err(e) => (Err(e), f2),
                    Ok((_, body_ty)) => match universe_of(body_ty) {
                        Err(e) => (Err(e), f2),
                        Ok(body_level) => {
                            let joined = if domain_level >= body_level { domain_level } else { body_level };
                            if joined > PROOF_DEP_MAX_UNIVERSE {
                                (Err(DepVerdict::Fail), f2)
                            } else {
                                (
                                    Ok((
                                        DepVal::Pi(Box::new(domain), DepClosure { body: ClosureBody::Cell(a[1] as usize), env, level }),
                                        DepVal::Univ(joined),
                                    )),
                                    f2,
                                )
                            }
                        },
                    },
                }
            },
        },
    }
}

/// A `Lam`: a universe domain and a classified body type give a `Pi`.
pub open spec fn s_infer_lam(cells: Seq<DepCell>, a: Seq<i64>, env: DepEnv, targets: Seq<Option<usize>>, f: u64) -> (Result<(DepVal, DepVal), DepVerdict>, u64)
    decreases f, 2nat, 0nat,
{
    let (d, f1) = s_infer(cells, a[0] as usize, env, targets, f);
    let f1 = clamp(f1, f);
    match d {
        Err(e) => (Err(e), f1),
        Ok((domain, domain_ty)) => match universe_of(domain_ty) {
            Err(e) => (Err(e), f1),
            Ok(_) => {
                let level = a[2];
                let env_body = env_extend(env, level, DepVal::Var(level), domain);
                let (b, f2) = s_infer(cells, a[1] as usize, env_body, targets, f1);
                let f2 = clamp(f2, f1);
                match b {
                    Err(e) => (Err(e), f2),
                    Ok((_, body_ty)) => match classify(body_ty) {
                        Err(e) => (Err(e), f2),
                        Ok(_) => (
                            Ok((
                                DepVal::Lam(Box::new(domain), DepClosure { body: ClosureBody::Cell(a[1] as usize), env, level }),
                                DepVal::Pi(Box::new(domain), DepClosure { body: ClosureBody::Val(Box::new(body_ty)), env: env_body, level }),
                            )),
                            f2,
                        ),
                    },
                }
            },
        },
    }
}

/// An application: the function's type must be a `Pi` whose domain the
/// argument's type matches.
pub open spec fn s_infer_app(cells: Seq<DepCell>, a: Seq<i64>, env: DepEnv, targets: Seq<Option<usize>>, f: u64) -> (Result<(DepVal, DepVal), DepVerdict>, u64)
    decreases f, 2nat, 0nat,
{
    let (fr, f1) = s_infer(cells, a[0] as usize, env, targets, f);
    let f1 = clamp(f1, f);
    match fr {
        Err(e) => (Err(e), f1),
        Ok((function, function_ty)) => match function_ty {
            DepVal::Pi(domain, codomain) => {
                let (ar, f2) = s_infer(cells, a[1] as usize, env, targets, f1);
                let f2 = clamp(f2, f1);
                match ar {
                    Err(e) => (Err(e), f2),
                    Ok((argument, argument_ty)) => {
                        let (dr, f3) = s_defeq(cells, argument_ty, *domain, 0, f2);
                        let f3 = clamp(f3, f2);
                        match dr {
                            Err(e) => (Err(e), f3),
                            Ok(_) => {
                                let (tr, f4) = match function {
                                    DepVal::Lam(_, closure) => s_apply_closure(cells, closure, argument, *domain, f3),
                                    DepVal::Var(_) | DepVal::Stuck => (Ok(DepVal::Stuck), f3),
                                    _ => (Err(DepVerdict::Unknown), f3),
                                };
                                let f4 = clamp(f4, f3);
                                match tr {
                                    Err(e) => (Err(e), f4),
                                    Ok(term) => {
                                        let (yr, f5) = s_apply_closure(cells, codomain, argument, *domain, f4);
                                        match yr {
                                            Err(e) => (Err(e), clamp(f5, f4)),
                                            Ok(ty) => (Ok((term, ty)), clamp(f5, f4)),
                                        }
                                    },
                                }
                            },
                        }
                    },
                }
            },
            DepVal::Var(_) | DepVal::Stuck => (Err(DepVerdict::Unknown), f1),
            _ => (Err(DepVerdict::Fail), f1),
        },
    }
}

/// A successor of a `Nat`.
pub open spec fn s_infer_succ(cells: Seq<DepCell>, a: Seq<i64>, env: DepEnv, targets: Seq<Option<usize>>, f: u64) -> (Result<(DepVal, DepVal), DepVerdict>, u64)
    decreases f, 2nat, 0nat,
{
    let (c, f1) = s_infer(cells, a[0] as usize, env, targets, f);
    let f1 = clamp(f1, f);
    match c {
        Err(e) => (Err(e), f1),
        Ok((child, child_ty)) => {
            let (dr, f2) = s_defeq(cells, child_ty, DepVal::Nat, 0, f1);
            let f2 = clamp(f2, f1);
            match dr {
                Err(e) => (Err(e), f2),
                Ok(_) => (Ok((DepVal::Succ(Box::new(child)), DepVal::Nat)), f2),
            }
        },
    }
}

/// A sum of two `Nat`s.
pub open spec fn s_infer_plus(cells: Seq<DepCell>, a: Seq<i64>, env: DepEnv, targets: Seq<Option<usize>>, f: u64) -> (Result<(DepVal, DepVal), DepVerdict>, u64)
    decreases f, 2nat, 0nat,
{
    let (l, f1) = s_infer(cells, a[0] as usize, env, targets, f);
    let f1 = clamp(f1, f);
    match l {
        Err(e) => (Err(e), f1),
        Ok((left, left_ty)) => {
            let (r, f2) = s_infer(cells, a[1] as usize, env, targets, f1);
            let f2 = clamp(f2, f1);
            match r {
                Err(e) => (Err(e), f2),
                Ok((right, right_ty)) => {
                    let (d1, f3) = s_defeq(cells, left_ty, DepVal::Nat, 0, f2);
                    let f3 = clamp(f3, f2);
                    match d1 {
                        Err(e) => (Err(e), f3),
                        Ok(_) => {
                            let (d2, f4) = s_defeq(cells, right_ty, DepVal::Nat, 0, f3);
                            let f4 = clamp(f4, f3);
                            match d2 {
                                Err(e) => (Err(e), f4),
                                Ok(_) => {
                                    let (p, f5) = s_plus_val(left, right, f4);
                                    match p {
                                        Err(e) => (Err(e), clamp(f5, f4)),
                                        Ok(v) => (Ok((v, DepVal::Nat)), clamp(f5, f4)),
                                    }
                                },
                            }
                        },
                    }
                },
            }
        },
    }
}

/// An equality type: both sides must have the carrier type.
pub open spec fn s_infer_eq(cells: Seq<DepCell>, a: Seq<i64>, env: DepEnv, targets: Seq<Option<usize>>, f: u64) -> (Result<(DepVal, DepVal), DepVerdict>, u64)
    decreases f, 2nat, 0nat,
{
    let (t, f1) = s_infer(cells, a[0] as usize, env, targets, f);
    let f1 = clamp(f1, f);
    match t {
        Err(e) => (Err(e), f1),
        Ok((ty, ty_ty)) => match universe_of(ty_ty) {
            Err(e) => (Err(e), f1),
            Ok(universe) => {
                let (l, f2) = s_infer(cells, a[1] as usize, env, targets, f1);
                let f2 = clamp(f2, f1);
                match l {
                    Err(e) => (Err(e), f2),
                    Ok((left, left_ty)) => {
                        let (r, f3) = s_infer(cells, a[2] as usize, env, targets, f2);
                        let f3 = clamp(f3, f2);
                        match r {
                            Err(e) => (Err(e), f3),
                            Ok((right, right_ty)) => {
                                let (d1, f4) = s_defeq(cells, left_ty, ty, 0, f3);
                                let f4 = clamp(f4, f3);
                                match d1 {
                                    Err(e) => (Err(e), f4),
                                    Ok(_) => {
                                        let (d2, f5) = s_defeq(cells, right_ty, ty, 0, f4);
                                        let f5 = clamp(f5, f4);
                                        match d2 {
                                            Err(e) => (Err(e), f5),
                                            Ok(_) => (
                                                Ok((DepVal::Eq(Box::new(ty), Box::new(left), Box::new(right)), DepVal::Univ(universe))),
                                                f5,
                                            ),
                                        }
                                    },
                                }
                            },
                        }
                    },
                }
            },
        },
    }
}

/// Reflexivity proves the equality of a classified witness with itself.
pub open spec fn s_infer_refl(cells: Seq<DepCell>, a: Seq<i64>, env: DepEnv, targets: Seq<Option<usize>>, f: u64) -> (Result<(DepVal, DepVal), DepVerdict>, u64)
    decreases f, 2nat, 0nat,
{
    let (w, f1) = s_infer(cells, a[0] as usize, env, targets, f);
    let f1 = clamp(f1, f);
    match w {
        Err(e) => (Err(e), f1),
        Ok((witness, witness_ty)) => match classify(witness_ty) {
            Err(e) => (Err(e), f1),
            Ok(_) => (Ok((DepVal::Proof, DepVal::Eq(Box::new(witness_ty), Box::new(witness), Box::new(witness)))), f1),
        },
    }
}

/// Congruence of `Succ` over a proof of `a = b` in `Nat`.
pub open spec fn s_infer_cong(cells: Seq<DepCell>, a: Seq<i64>, env: DepEnv, targets: Seq<Option<usize>>, f: u64) -> (Result<(DepVal, DepVal), DepVerdict>, u64)
    decreases f, 2nat, 0nat,
{
    let (p, f1) = s_infer(cells, a[0] as usize, env, targets, f);
    let f1 = clamp(f1, f);
    match p {
        Err(e) => (Err(e), f1),
        Ok((_, proof_ty)) => match proof_ty {
            DepVal::Eq(ty, left, right) => {
                let (d0, f2) = s_defeq(cells, *ty, DepVal::Nat, 0, f1);
                let f2 = clamp(f2, f1);
                match d0 {
                    Err(e) => (Err(e), f2),
                    Ok(_) => {
                        let (sa, f3) = s_infer_succ_side(cells, a[1] as usize, env, targets, f2);
                        let f3 = clamp(f3, f2);
                        match sa {
                            Err(e) => (Err(e), f3),
                            Ok(succ_a) => {
                                let (sb, f4) = s_infer_succ_side(cells, a[2] as usize, env, targets, f3);
                                let f4 = clamp(f4, f3);
                                match sb {
                                    Err(e) => (Err(e), f4),
                                    Ok(succ_b) => {
                                        let (d1, f5) = s_defeq(cells, succ_a, *left, 0, f4);
                                        let f5 = clamp(f5, f4);
                                        match d1 {
                                            Err(e) => (Err(e), f5),
                                            Ok(_) => {
                                                let (d2, f6) = s_defeq(cells, succ_b, *right, 0, f5);
                                                let f6 = clamp(f6, f5);
                                                match d2 {
                                                    Err(e) => (Err(e), f6),
                                                    Ok(_) => (
                                                        Ok((
                                                            DepVal::Proof,
                                                            DepVal::Eq(
                                                                Box::new(DepVal::Nat),
                                                                Box::new(DepVal::Succ(left)),
                                                                Box::new(DepVal::Succ(right)),
                                                            ),
                                                        )),
                                                        f6,
                                                    ),
                                                }
                                            },
                                        }
                                    },
                                }
                            },
                        }
                    },
                }
            },
            DepVal::Var(_) | DepVal::Stuck => (Err(DepVerdict::Unknown), f1),
            _ => (Err(DepVerdict::Fail), f1),
        },
    }
}

/// The `Succ` sides of a `Cong`: the predecessor value of a constructor
/// cell over `Nat`.
pub open spec fn s_infer_succ_side(cells: Seq<DepCell>, index: usize, env: DepEnv, targets: Seq<Option<usize>>, f: u64) -> (Result<DepVal, DepVerdict>, u64)
    decreases f, 1nat, 0nat,
{
    if index >= cells.len() || cells[index as int].tag != DepTag::Succ {
        (Err(DepVerdict::Fail), f)
    } else {
        let (r, f1) = s_infer(cells, index, env, targets, f);
        let f1 = clamp(f1, f);
        match r {
            Err(e) => (Err(e), f1),
            Ok((term, ty)) => {
                let (d, f2) = s_defeq(cells, ty, DepVal::Nat, 0, f1);
                let f2 = clamp(f2, f1);
                match d {
                    Err(e) => (Err(e), f2),
                    Ok(_) => match term {
                        DepVal::Succ(pred) => (Ok(*pred), f2),
                        DepVal::Var(_) | DepVal::Stuck => (Err(DepVerdict::Unknown), f2),
                        _ => (Err(DepVerdict::Fail), f2),
                    },
                }
            },
        }
    }
}


/// Application of the motive family (a genuine function or a neutral motive).
pub open spec fn s_family(cells: Seq<DepCell>, motive: Option<DepClosure>, value: DepVal, ty: DepVal, f: u64) -> (Result<DepVal, DepVerdict>, u64) {
    match motive {
        Some(closure) => s_apply_closure(cells, closure, value, ty, f),
        None => (Ok(DepVal::Stuck), f),
    }
}

/// The term of a `NatElim` cell for a synthesized target.
pub open spec fn s_elim_term(
    cells: Seq<DepCell>,
    a: Seq<i64>,
    env: DepEnv,
    targets: Seq<Option<usize>>,
    motive: Option<DepClosure>,
    zero_term: DepVal,
    step_term: DepVal,
    target_term: DepVal,
    f: u64,
) -> (Result<DepVal, DepVerdict>, u64)
    decreases f, 5nat, 0nat,
{
    match target_term {
        DepVal::Zero => (Ok(zero_term), f),
        DepVal::Succ(pred) => {
            let (rec, f1) = s_elim_rec(cells, a[1] as usize, a[2] as usize, *pred, env, targets, f);
            let f1 = clamp(f1, f);
            match rec {
                Err(e) => (Err(e), f1),
                Ok(rv) => {
                    let (once, f2) = s_apply_value(cells, step_term, *pred, DepVal::Nat, f1);
                    let f2 = clamp(f2, f1);
                    match once {
                        Err(e) => (Err(e), f2),
                        Ok(ov) => {
                            let (rt, f3) = s_family(cells, motive, *pred, DepVal::Nat, f2);
                            let f3 = clamp(f3, f2);
                            match rt {
                                Err(e) => (Err(e), f3),
                                Ok(rec_ty) => s_apply_value(cells, ov, rv, rec_ty, f3),
                            }
                        },
                    }
                },
            }
        },
        DepVal::Var(_) | DepVal::Stuck => (Ok(DepVal::Stuck), f),
        _ => if int_reading(target_term) is Some {
            s_elim_rec_closed(cells, a[1] as usize, a[2] as usize, target_term, env, targets, f)
        } else {
            (Err(DepVerdict::Unknown), f)
        },
    }
}

/// Dependent `Nat` elimination with the step type checked by motive
/// application under two rigid variables (never by rebuilding types).
pub open spec fn s_infer_elim(cells: Seq<DepCell>, cell: DepCell, env: DepEnv, targets: Seq<Option<usize>>, f: u64) -> (Result<(DepVal, DepVal), DepVerdict>, u64)
    decreases f, 9nat, 0nat,
{
    let a = cell.args@;
    let (mr, f1) = s_infer(cells, a[0] as usize, env, targets, f);
    let f1 = clamp(f1, f);
    match mr {
        Err(e) => (Err(e), f1),
        Ok((motive_term, motive_ty)) => match motive_ty {
            DepVal::Pi(motive_domain, motive_codomain) => {
                let (d0, f2) = s_defeq(cells, *motive_domain, DepVal::Nat, 0, f1);
                let f2 = clamp(f2, f1);
                if d0 is Err {
                    (Err(d0->Err_0), f2)
                } else {
                    let (co, f3) = s_apply_closure(cells, motive_codomain, DepVal::Var(32), DepVal::Nat, f2);
                    let f3 = clamp(f3, f2);
                    match co {
                        Err(e) => (Err(e), f3),
                        Ok(codomain_open) => match classify(codomain_open) {
                            Err(e) => (Err(e), f3),
                            Ok(_) => {
                                if !(motive_term is Lam || motive_term is Var || motive_term is Stuck) {
                                    (Err(DepVerdict::Unknown), f3)
                                } else {
                                    let motive = match motive_term {
                                        DepVal::Lam(_, closure) => Some(closure),
                                        _ => None,
                                    };
                                    s_infer_elim_zero(cells, a, env, targets, motive, f3)
                                }
                            },
                        },
                    }
                }
            },
            DepVal::Var(_) | DepVal::Stuck => (Err(DepVerdict::Unknown), f1),
            _ => (Err(DepVerdict::Fail), f1),
        },
    }
}

/// The base and step obligations of an eliminator, then its target.
pub open spec fn s_infer_elim_zero(
    cells: Seq<DepCell>,
    a: Seq<i64>,
    env: DepEnv,
    targets: Seq<Option<usize>>,
    motive: Option<DepClosure>,
    f: u64,
) -> (Result<(DepVal, DepVal), DepVerdict>, u64)
    decreases f, 8nat, 1nat,
{
    let (zr, f1) = s_infer(cells, a[1] as usize, env, targets, f);
    let f1 = clamp(f1, f);
    match zr {
        Err(e) => (Err(e), f1),
        Ok((zero_term, zero_ty)) => {
            let (mz, f2) = s_family(cells, motive, DepVal::Zero, DepVal::Nat, f1);
            let f2 = clamp(f2, f1);
            match mz {
                Err(e) => (Err(e), f2),
                Ok(motive_zero) => {
                    let (dz, f3) = s_defeq(cells, zero_ty, motive_zero, 0, f2);
                    let f3 = clamp(f3, f2);
                    match dz {
                        Err(e) => (Err(e), f3),
                        Ok(_) => {
                            let (sr, f4) = s_infer(cells, a[2] as usize, env, targets, f3);
                            let f4 = clamp(f4, f3);
                            match sr {
                                Err(e) => (Err(e), f4),
                                Ok((step_term, step_ty)) => s_infer_elim_step(cells, a, env, targets, motive, zero_term, step_term, step_ty, f4),
                            }
                        },
                    }
                },
            }
        },
    }
}

/// The step type: `Pi (k : Nat). Pi (ih : P k). P (Succ k)` checked under
/// rigid `k` and `ih`.
pub open spec fn s_infer_elim_step(
    cells: Seq<DepCell>,
    a: Seq<i64>,
    env: DepEnv,
    targets: Seq<Option<usize>>,
    motive: Option<DepClosure>,
    zero_term: DepVal,
    step_term: DepVal,
    step_ty: DepVal,
    f: u64,
) -> (Result<(DepVal, DepVal), DepVerdict>, u64)
    decreases f, 7nat, 0nat,
{
    let rigid_k = DepVal::Var(32);
    let (si, f1) = match step_ty {
        DepVal::Pi(domain, closure) => {
            let (d, g1) = s_defeq(cells, *domain, DepVal::Nat, 0, f);
            let g1 = clamp(g1, f);
            match d {
                Err(e) => (Err(e), g1),
                Ok(_) => s_apply_closure(cells, closure, rigid_k, DepVal::Nat, g1),
            }
        },
        DepVal::Var(_) | DepVal::Stuck => (Err(DepVerdict::Unknown), f),
        _ => (Err(DepVerdict::Fail), f),
    };
    let f1 = clamp(f1, f);
    match si {
        Err(e) => (Err(e), f1),
        Ok(step_inner) => match step_inner {
            DepVal::Pi(ih_domain, ih_closure) => {
                let (mk, f2) = s_family(cells, motive, rigid_k, DepVal::Nat, f1);
                let f2 = clamp(f2, f1);
                match mk {
                    Err(e) => (Err(e), f2),
                    Ok(motive_k) => {
                        let (d1, f3) = s_defeq(cells, *ih_domain, motive_k, 0, f2);
                        let f3 = clamp(f3, f2);
                        match d1 {
                            Err(e) => (Err(e), f3),
                            Ok(_) => {
                                let (g, f4) = s_apply_closure(cells, ih_closure, DepVal::Var(33), motive_k, f3);
                                let f4 = clamp(f4, f3);
                                match g {
                                    Err(e) => (Err(e), f4),
                                    Ok(got) => {
                                        let (w, f5) = s_family(cells, motive, DepVal::Succ(Box::new(rigid_k)), DepVal::Nat, f4);
                                        let f5 = clamp(f5, f4);
                                        match w {
                                            Err(e) => (Err(e), f5),
                                            Ok(want) => {
                                                let (d2, f6) = s_defeq(cells, got, want, 0, f5);
                                                let f6 = clamp(f6, f5);
                                                match d2 {
                                                    Err(e) => (Err(e), f6),
                                                    Ok(_) => s_infer_elim_target(cells, a, env, targets, motive, zero_term, step_term, f6),
                                                }
                                            },
                                        }
                                    },
                                }
                            },
                        }
                    },
                }
            },
            DepVal::Var(_) | DepVal::Stuck => (Err(DepVerdict::Unknown), f1),
            _ => (Err(DepVerdict::Fail), f1),
        },
    }
}

/// The eliminator's target: its type must be `Nat`; the result type is the
/// motive at the target.
pub open spec fn s_infer_elim_target(
    cells: Seq<DepCell>,
    a: Seq<i64>,
    env: DepEnv,
    targets: Seq<Option<usize>>,
    motive: Option<DepClosure>,
    zero_term: DepVal,
    step_term: DepVal,
    f: u64,
) -> (Result<(DepVal, DepVal), DepVerdict>, u64)
    decreases f, 6nat, 2nat,
{
    let (tr, f1) = s_infer(cells, a[3] as usize, env, targets, f);
    let f1 = clamp(f1, f);
    match tr {
        Err(e) => (Err(e), f1),
        Ok((target_term, target_ty)) => {
            let (d, f2) = s_defeq(cells, target_ty, DepVal::Nat, 0, f1);
            let f2 = clamp(f2, f1);
            match d {
                Err(e) => (Err(e), f2),
                Ok(_) => {
                    let (y, f3) = s_family(cells, motive, target_term, DepVal::Nat, f2);
                    let f3 = clamp(f3, f2);
                    match y {
                        Err(e) => (Err(e), f3),
                        Ok(ty) => {
                            let (t, f4) = s_elim_term(cells, a, env, targets, motive, zero_term, step_term, target_term, f3);
                            match t {
                                Err(e) => (Err(e), clamp(f4, f3)),
                                Ok(term) => (Ok((term, ty)), clamp(f4, f3)),
                            }
                        },
                    }
                },
            }
        },
    }
}

/// The eliminator's recursive call on a predecessor, with types from the
/// motive family.
pub open spec fn s_elim_rec(
    cells: Seq<DepCell>,
    zero: usize,
    step: usize,
    pred: DepVal,
    env: DepEnv,
    targets: Seq<Option<usize>>,
    f: u64,
) -> (Result<DepVal, DepVerdict>, u64)
    decreases f, 0nat, 0nat,
{
    if f == 0 {
        (Err(DepVerdict::Unknown), 0)
    } else {
        let f = (f - 1) as u64;
        match pred {
            DepVal::Zero => {
                let (z, f1) = s_infer(cells, zero, env, targets, f);
                match z {
                    Err(e) => (Err(e), clamp(f1, f)),
                    Ok((term, _)) => (Ok(term), clamp(f1, f)),
                }
            },
            DepVal::Succ(next) => {
                let (rec, f1) = s_elim_rec(cells, zero, step, *next, env, targets, f);
                let f1 = clamp(f1, f);
                match rec {
                    Err(e) => (Err(e), f1),
                    Ok(rv) => {
                        let (st, f2) = s_infer(cells, step, env, targets, f1);
                        let f2 = clamp(f2, f1);
                        match st {
                            Err(e) => (Err(e), f2),
                            Ok((step_term, _)) => {
                                let (once, f3) = s_apply_value(cells, step_term, *next, DepVal::Nat, f2);
                                let f3 = clamp(f3, f2);
                                match once {
                                    Err(e) => (Err(e), f3),
                                    Ok(ov) => s_apply_value(cells, ov, rv, DepVal::Nat, f3),
                                }
                            },
                        }
                    },
                }
            },
            _ => if int_reading(pred) is None {
                (Err(DepVerdict::Unknown), f)
            } else {
                s_elim_rec_closed(cells, zero, step, pred, env, targets, f)
            },
        }
    }
}

pub open spec fn s_elim_rec_closed(
    cells: Seq<DepCell>,
    zero: usize,
    step: usize,
    target: DepVal,
    env: DepEnv,
    targets: Seq<Option<usize>>,
    f: u64,
) -> (Result<DepVal, DepVerdict>, u64)
    decreases f, 4nat, 0nat,
{
    let (z, f1) = s_infer(cells, zero, env, targets, f);
    let f1 = clamp(f1, f);
    match z {
        Err(e) => (Err(e), f1),
        Ok((current, _)) => match int_reading(target) {
            None => (Err(DepVerdict::Unknown), f1),
            Some(steps) => s_elim_rec_loop(cells, step, env, targets, if steps < 0 { 0nat } else { steps as nat }, DepVal::Zero, current, f1),
        },
    }
}

pub open spec fn s_elim_rec_loop(
    cells: Seq<DepCell>,
    step: usize,
    env: DepEnv,
    targets: Seq<Option<usize>>,
    remaining: nat,
    pred: DepVal,
    current: DepVal,
    f: u64,
) -> (Result<DepVal, DepVerdict>, u64)
    decreases f, 3nat, remaining,
{
    if remaining == 0 {
        (Ok(current), f)
    } else {
        let (st, f1) = s_infer(cells, step, env, targets, f);
        let f1 = clamp(f1, f);
        match st {
            Err(e) => (Err(e), f1),
            Ok((step_term, _)) => {
                let (once, f2) = s_apply_value(cells, step_term, pred, DepVal::Nat, f1);
                let f2 = clamp(f2, f1);
                match once {
                    Err(e) => (Err(e), f2),
                    Ok(ov) => {
                        let (next, f3) = s_apply_value(cells, ov, current, DepVal::Nat, f2);
                        let f3 = clamp(f3, f2);
                        match next {
                            Err(e) => (Err(e), f3),
                            Ok(nv) => s_elim_rec_loop(cells, step, env, targets, (remaining - 1) as nat, DepVal::Succ(Box::new(pred)), nv, f3),
                        }
                    },
                }
            },
        }
    }
}


/// The level of a universe type, or the verdict when the type is not one.
fn universe_level(ty: &DepVal) -> (r: Result<i64, DepVerdict>)
    ensures
        r == universe_of(*ty),
{
    match ty {
        DepVal::Univ(level) => Ok(*level),
        DepVal::Var(_) | DepVal::Stuck => Err(DepVerdict::Unknown),
        _ => Err(DepVerdict::Fail),
    }
}

/// Types this kernel classifies: universes, `Nat`, `Pi` families, and
/// equalities. Rigid or stuck types abstain; anything else is ill-typed.
fn classifier(ty: &DepVal) -> (r: Result<(), DepVerdict>)
    ensures
        r == classify(*ty),
{
    match ty {
        DepVal::Univ(_) | DepVal::Nat | DepVal::Pi(_, _) | DepVal::Eq(_, _, _) => Ok(()),
        DepVal::Var(_) | DepVal::Stuck => Err(DepVerdict::Unknown),
        _ => Err(DepVerdict::Fail),
    }
}

fn target_of(targets: &[Option<usize>], index: usize) -> (r: Option<usize>)
    ensures
        r == target_at(targets@, index),
{
    if index < targets.len() {
        targets[index]
    } else {
        None
    }
}

impl DepBuffer {
    /// Application of the motive family: a genuine function applies, a
    /// neutral motive yields a stuck value.
    fn family(&self, motive: &Option<DepClosure>, value: DepVal, ty: DepVal, fuel: &mut Fuel) -> (r: Result<DepVal, DepVerdict>)
        ensures
            final(fuel).0 <= old(fuel).0,
            (r, final(fuel).0) == s_family(self.cells@, *motive, value, ty, old(fuel).0),
    {
        match motive {
            Some(closure) => apply_closure(self, closure, value, ty, fuel),
            None => Ok(DepVal::Stuck),
        }
    }

    /// Synthesize the (term, type) values of one cell.
    pub fn infer(&self, index: usize, env: &DepEnv, targets: &[Option<usize>], fuel: &mut Fuel) -> (r: Result<(DepVal, DepVal), DepVerdict>)
        requires
            old(fuel).0 <= depth_budget(),
        ensures
            final(fuel).0 <= old(fuel).0,
            (r, final(fuel).0) == s_infer(self.cells@, index, *env, targets@, old(fuel).0),
        decreases old(fuel).0, 0nat, 0nat,
    {
        fuel.burn()?;
        if index >= self.cells.len() {
            return Err(DepVerdict::Fail);
        }
        let cell = self.cells[index].duplicate();
        match cell.tag {
            DepTag::Universe => {
                let level = cell.args[0];
                if !(0 <= level && level < PROOF_DEP_MAX_UNIVERSE) {
                    return Err(DepVerdict::Fail);
                }
                Ok((DepVal::Univ(level), DepVal::Univ(level + 1)))
            },
            DepTag::Nat => Ok((DepVal::Nat, DepVal::Univ(0))),
            DepTag::Zero => Ok((DepVal::Zero, DepVal::Nat)),
            DepTag::Var => self.infer_var(index, cell.args[0], env, targets, fuel),
            DepTag::Pi => self.infer_pi(&cell, env, targets, fuel),
            DepTag::Lam => self.infer_lam(&cell, env, targets, fuel),
            DepTag::App => self.infer_app(&cell, env, targets, fuel),
            DepTag::Succ => self.infer_succ(&cell, env, targets, fuel),
            DepTag::Plus => self.infer_plus(&cell, env, targets, fuel),
            DepTag::NatElim => self.infer_elim(&cell, env, targets, fuel),
            DepTag::Eq => self.infer_eq(&cell, env, targets, fuel),
            DepTag::Refl => self.infer_refl(&cell, env, targets, fuel),
            // Declarations elaborate vacuously: a `Hyp` is not a term, but
            // its presence is well-formed (any use goes through the
            // assumption path of `Var`).
            DepTag::Hyp => Ok((DepVal::Stuck, DepVal::Stuck)),
            DepTag::Cong => self.infer_cong(&cell, env, targets, fuel),
            DepTag::Unsupported => Err(DepVerdict::Unknown),
        }
    }

    /// A variable: a bound level reads the environment; an assumption use
    /// elaborates its declared type under the empty environment (assumption
    /// types are closed by structure).
    fn infer_var(&self, index: usize, level: i64, env: &DepEnv, targets: &[Option<usize>], fuel: &mut Fuel) -> (r: Result<(DepVal, DepVal), DepVerdict>)
        ensures
            final(fuel).0 <= old(fuel).0,
            (r, final(fuel).0) == s_infer_var(self.cells@, index, level, *env, targets@, old(fuel).0),
    {
        if let Some((term, ty)) = env.lookup(level) {
            return Ok((term, ty));
        }
        match target_of(targets, index) {
            Some(binder) => {
                if binder < self.cells.len() && self.cells[binder].tag == DepTag::Hyp {
                    let ty_cell = self.cells[binder].args[1] as usize;
                    let ty = self.eval(ty_cell, &DepEnv::empty(), fuel)?;
                    Ok((DepVal::Var(level), ty))
                } else {
                    Err(DepVerdict::Fail)
                }
            },
            None => Err(DepVerdict::Fail),
        }
    }

    fn infer_pi(&self, cell: &DepCell, env: &DepEnv, targets: &[Option<usize>], fuel: &mut Fuel) -> (r: Result<(DepVal, DepVal), DepVerdict>)
        requires
            old(fuel).0 <= depth_budget(),
        ensures
            final(fuel).0 <= old(fuel).0,
            (r, final(fuel).0) == s_infer_pi(self.cells@, cell.args@, *env, targets@, old(fuel).0),
        decreases old(fuel).0, 2nat, 0nat,
    {
        let (domain, domain_ty) = self.infer(cell.args[0] as usize, env, targets, fuel)?;
        let domain_level = universe_level(&domain_ty)?;
        let body_index = cell.args[1] as usize;
        let level = cell.args[2];
        let env_body = env.extended(level, DepVal::Var(level), domain.duplicate());
        let (_, body_ty) = self.infer(body_index, &env_body, targets, fuel)?;
        let body_level = universe_level(&body_ty)?;
        let joined = if domain_level >= body_level { domain_level } else { body_level };
        if joined > PROOF_DEP_MAX_UNIVERSE {
            return Err(DepVerdict::Fail);
        }
        let closure = DepClosure::cell(body_index, env.duplicate(), level);
        Ok((DepVal::Pi(Box::new(domain), closure), DepVal::Univ(joined)))
    }

    fn infer_lam(&self, cell: &DepCell, env: &DepEnv, targets: &[Option<usize>], fuel: &mut Fuel) -> (r: Result<(DepVal, DepVal), DepVerdict>)
        requires
            old(fuel).0 <= depth_budget(),
        ensures
            final(fuel).0 <= old(fuel).0,
            (r, final(fuel).0) == s_infer_lam(self.cells@, cell.args@, *env, targets@, old(fuel).0),
        decreases old(fuel).0, 2nat, 0nat,
    {
        let (domain, domain_ty) = self.infer(cell.args[0] as usize, env, targets, fuel)?;
        universe_level(&domain_ty)?;
        let body_index = cell.args[1] as usize;
        let level = cell.args[2];
        let env_body = env.extended(level, DepVal::Var(level), domain.duplicate());
        let (_, body_ty) = self.infer(body_index, &env_body, targets, fuel)?;
        classifier(&body_ty)?;
        let term_closure = DepClosure::cell(body_index, env.duplicate(), level);
        let type_closure = DepClosure::value(body_ty, env_body, level);
        Ok((DepVal::Lam(Box::new(domain.duplicate()), term_closure), DepVal::Pi(Box::new(domain), type_closure)))
    }

    fn infer_app(&self, cell: &DepCell, env: &DepEnv, targets: &[Option<usize>], fuel: &mut Fuel) -> (r: Result<(DepVal, DepVal), DepVerdict>)
        requires
            old(fuel).0 <= depth_budget(),
        ensures
            final(fuel).0 <= old(fuel).0,
            (r, final(fuel).0) == s_infer_app(self.cells@, cell.args@, *env, targets@, old(fuel).0),
        decreases old(fuel).0, 2nat, 0nat,
    {
        let (function, function_ty) = self.infer(cell.args[0] as usize, env, targets, fuel)?;
        let (domain, codomain) = match function_ty {
            DepVal::Pi(domain, codomain) => (domain, codomain),
            DepVal::Var(_) | DepVal::Stuck => return Err(DepVerdict::Unknown),
            _ => return Err(DepVerdict::Fail),
        };
        let (argument, argument_ty) = self.infer(cell.args[1] as usize, env, targets, fuel)?;
        defeq(self, &argument_ty, &domain, 0, fuel)?;
        let term = match function {
            DepVal::Lam(_, closure) => apply_closure(self, &closure, argument.duplicate(), (*domain).duplicate(), fuel)?,
            DepVal::Var(_) | DepVal::Stuck => DepVal::Stuck,
            _ => return Err(DepVerdict::Unknown),
        };
        let ty = apply_closure(self, &codomain, argument, *domain, fuel)?;
        Ok((term, ty))
    }

    fn infer_succ(&self, cell: &DepCell, env: &DepEnv, targets: &[Option<usize>], fuel: &mut Fuel) -> (r: Result<(DepVal, DepVal), DepVerdict>)
        requires
            old(fuel).0 <= depth_budget(),
        ensures
            final(fuel).0 <= old(fuel).0,
            (r, final(fuel).0) == s_infer_succ(self.cells@, cell.args@, *env, targets@, old(fuel).0),
        decreases old(fuel).0, 2nat, 0nat,
    {
        let (child, child_ty) = self.infer(cell.args[0] as usize, env, targets, fuel)?;
        defeq(self, &child_ty, &DepVal::Nat, 0, fuel)?;
        Ok((DepVal::Succ(Box::new(child)), DepVal::Nat))
    }

    fn infer_plus(&self, cell: &DepCell, env: &DepEnv, targets: &[Option<usize>], fuel: &mut Fuel) -> (r: Result<(DepVal, DepVal), DepVerdict>)
        requires
            old(fuel).0 <= depth_budget(),
        ensures
            final(fuel).0 <= old(fuel).0,
            (r, final(fuel).0) == s_infer_plus(self.cells@, cell.args@, *env, targets@, old(fuel).0),
        decreases old(fuel).0, 2nat, 0nat,
    {
        let (left, left_ty) = self.infer(cell.args[0] as usize, env, targets, fuel)?;
        let (right, right_ty) = self.infer(cell.args[1] as usize, env, targets, fuel)?;
        defeq(self, &left_ty, &DepVal::Nat, 0, fuel)?;
        defeq(self, &right_ty, &DepVal::Nat, 0, fuel)?;
        let sum = plus_val(left, right, fuel)?;
        Ok((sum, DepVal::Nat))
    }

    fn infer_eq(&self, cell: &DepCell, env: &DepEnv, targets: &[Option<usize>], fuel: &mut Fuel) -> (r: Result<(DepVal, DepVal), DepVerdict>)
        requires
            old(fuel).0 <= depth_budget(),
        ensures
            final(fuel).0 <= old(fuel).0,
            (r, final(fuel).0) == s_infer_eq(self.cells@, cell.args@, *env, targets@, old(fuel).0),
        decreases old(fuel).0, 2nat, 0nat,
    {
        let (ty, ty_ty) = self.infer(cell.args[0] as usize, env, targets, fuel)?;
        let universe = universe_level(&ty_ty)?;
        let (left, left_ty) = self.infer(cell.args[1] as usize, env, targets, fuel)?;
        let (right, right_ty) = self.infer(cell.args[2] as usize, env, targets, fuel)?;
        defeq(self, &left_ty, &ty, 0, fuel)?;
        defeq(self, &right_ty, &ty, 0, fuel)?;
        Ok((DepVal::Eq(Box::new(ty), Box::new(left), Box::new(right)), DepVal::Univ(universe)))
    }

    fn infer_refl(&self, cell: &DepCell, env: &DepEnv, targets: &[Option<usize>], fuel: &mut Fuel) -> (r: Result<(DepVal, DepVal), DepVerdict>)
        requires
            old(fuel).0 <= depth_budget(),
        ensures
            final(fuel).0 <= old(fuel).0,
            (r, final(fuel).0) == s_infer_refl(self.cells@, cell.args@, *env, targets@, old(fuel).0),
        decreases old(fuel).0, 2nat, 0nat,
    {
        let (witness, witness_ty) = self.infer(cell.args[0] as usize, env, targets, fuel)?;
        classifier(&witness_ty)?;
        Ok((DepVal::Proof, DepVal::Eq(Box::new(witness_ty), Box::new(witness.duplicate()), Box::new(witness))))
    }

    fn infer_cong(&self, cell: &DepCell, env: &DepEnv, targets: &[Option<usize>], fuel: &mut Fuel) -> (r: Result<(DepVal, DepVal), DepVerdict>)
        requires
            old(fuel).0 <= depth_budget(),
        ensures
            final(fuel).0 <= old(fuel).0,
            (r, final(fuel).0) == s_infer_cong(self.cells@, cell.args@, *env, targets@, old(fuel).0),
        decreases old(fuel).0, 2nat, 0nat,
    {
        let (_, proof_ty) = self.infer(cell.args[0] as usize, env, targets, fuel)?;
        let (ty, left, right) = match proof_ty {
            DepVal::Eq(ty, left, right) => (ty, left, right),
            DepVal::Var(_) | DepVal::Stuck => return Err(DepVerdict::Unknown),
            _ => return Err(DepVerdict::Fail),
        };
        defeq(self, &ty, &DepVal::Nat, 0, fuel)?;
        let succ_a = self.infer_succ_side(cell.args[1] as usize, env, targets, fuel)?;
        let succ_b = self.infer_succ_side(cell.args[2] as usize, env, targets, fuel)?;
        defeq(self, &succ_a, &left, 0, fuel)?;
        defeq(self, &succ_b, &right, 0, fuel)?;
        Ok((DepVal::Proof, DepVal::Eq(Box::new(DepVal::Nat), Box::new(DepVal::Succ(left)), Box::new(DepVal::Succ(right)))))
    }

    /// The `Succ` sides of a `Cong`: the predecessor value of a
    /// constructor cell over `Nat`.
    fn infer_succ_side(&self, index: usize, env: &DepEnv, targets: &[Option<usize>], fuel: &mut Fuel) -> (r: Result<DepVal, DepVerdict>)
        requires
            old(fuel).0 <= depth_budget(),
        ensures
            final(fuel).0 <= old(fuel).0,
            (r, final(fuel).0) == s_infer_succ_side(self.cells@, index, *env, targets@, old(fuel).0),
        decreases old(fuel).0, 1nat, 0nat,
    {
        if index >= self.cells.len() || self.cells[index].tag != DepTag::Succ {
            return Err(DepVerdict::Fail);
        }
        let (term, ty) = self.infer(index, env, targets, fuel)?;
        defeq(self, &ty, &DepVal::Nat, 0, fuel)?;
        match term {
            DepVal::Succ(predecessor) => Ok(*predecessor),
            DepVal::Var(_) | DepVal::Stuck => Err(DepVerdict::Unknown),
            _ => Err(DepVerdict::Fail),
        }
    }

    /// Dependent `Nat` elimination with the step type checked by motive
    /// application under two rigid variables (never by rebuilding types).
    fn infer_elim(&self, cell: &DepCell, env: &DepEnv, targets: &[Option<usize>], fuel: &mut Fuel) -> (r: Result<(DepVal, DepVal), DepVerdict>)
        requires
            old(fuel).0 <= depth_budget(),
        ensures
            final(fuel).0 <= old(fuel).0,
            (r, final(fuel).0) == s_infer_elim(self.cells@, *cell, *env, targets@, old(fuel).0),
        decreases old(fuel).0, 9nat, 0nat,
    {
        // The motive type (a `Pi`) governs the domain check and codomain
        // well-formedness; the motive term (a `Lam`) governs every family
        // application.
        let (motive_term, motive_ty) = self.infer(cell.args[0] as usize, env, targets, fuel)?;
        let (motive_domain, motive_codomain) = match motive_ty {
            DepVal::Pi(domain, codomain) => (domain, codomain),
            DepVal::Var(_) | DepVal::Stuck => return Err(DepVerdict::Unknown),
            _ => return Err(DepVerdict::Fail),
        };
        defeq(self, &motive_domain, &DepVal::Nat, 0, fuel)?;
        let codomain_open = apply_closure(self, &motive_codomain, DepVal::Var(32), DepVal::Nat, fuel)?;
        classifier(&codomain_open)?;
        let motive = match motive_term {
            DepVal::Lam(_, closure) => Some(closure),
            DepVal::Var(_) | DepVal::Stuck => None,
            _ => return Err(DepVerdict::Unknown),
        };
        self.infer_elim_zero(cell, env, targets, &motive, fuel)
    }

    /// The base and step obligations of an eliminator, then its target.
    fn infer_elim_zero(
        &self,
        cell: &DepCell,
        env: &DepEnv,
        targets: &[Option<usize>],
        motive: &Option<DepClosure>,
        fuel: &mut Fuel,
    ) -> (r: Result<(DepVal, DepVal), DepVerdict>)
        requires
            old(fuel).0 <= depth_budget(),
        ensures
            final(fuel).0 <= old(fuel).0,
            (r, final(fuel).0) == s_infer_elim_zero(self.cells@, cell.args@, *env, targets@, *motive, old(fuel).0),
        decreases old(fuel).0, 8nat, 1nat,
    {
        let (zero_term, zero_ty) = self.infer(cell.args[1] as usize, env, targets, fuel)?;
        let motive_zero = self.family(motive, DepVal::Zero, DepVal::Nat, fuel)?;
        defeq(self, &zero_ty, &motive_zero, 0, fuel)?;
        let (step_term, step_ty) = self.infer(cell.args[2] as usize, env, targets, fuel)?;
        self.infer_elim_step(cell, env, targets, motive, zero_term, step_term, step_ty, fuel)
    }

    /// The step type `Pi (k : Nat). Pi (ih : P k). P (Succ k)`, checked
    /// under rigid `k` and `ih`.
    fn infer_elim_step(
        &self,
        cell: &DepCell,
        env: &DepEnv,
        targets: &[Option<usize>],
        motive: &Option<DepClosure>,
        zero_term: DepVal,
        step_term: DepVal,
        step_ty: DepVal,
        fuel: &mut Fuel,
    ) -> (r: Result<(DepVal, DepVal), DepVerdict>)
        requires
            old(fuel).0 <= depth_budget(),
        ensures
            final(fuel).0 <= old(fuel).0,
            (r, final(fuel).0) == s_infer_elim_step(self.cells@, cell.args@, *env, targets@, *motive, zero_term, step_term, step_ty, old(fuel).0),
        decreases old(fuel).0, 7nat, 0nat,
    {
        let step_inner = match step_ty {
            DepVal::Pi(domain, closure) => {
                defeq(self, &domain, &DepVal::Nat, 0, fuel)?;
                apply_closure(self, &closure, DepVal::Var(32), DepVal::Nat, fuel)?
            },
            DepVal::Var(_) | DepVal::Stuck => return Err(DepVerdict::Unknown),
            _ => return Err(DepVerdict::Fail),
        };
        let (ih_domain, ih_closure) = match step_inner {
            DepVal::Pi(domain, closure) => (domain, closure),
            DepVal::Var(_) | DepVal::Stuck => return Err(DepVerdict::Unknown),
            _ => return Err(DepVerdict::Fail),
        };
        let motive_k = self.family(motive, DepVal::Var(32), DepVal::Nat, fuel)?;
        defeq(self, &ih_domain, &motive_k, 0, fuel)?;
        let got = apply_closure(self, &ih_closure, DepVal::Var(33), motive_k, fuel)?;
        let want = self.family(motive, DepVal::Succ(Box::new(DepVal::Var(32))), DepVal::Nat, fuel)?;
        defeq(self, &got, &want, 0, fuel)?;
        self.infer_elim_target(cell, env, targets, motive, zero_term, step_term, fuel)
    }

    /// The eliminator's target: its type must be `Nat`; the result type is
    /// the motive at the target.
    #[verifier::spinoff_prover]
    #[verifier::rlimit(60)]
    fn infer_elim_target(
        &self,
        cell: &DepCell,
        env: &DepEnv,
        targets: &[Option<usize>],
        motive: &Option<DepClosure>,
        zero_term: DepVal,
        step_term: DepVal,
        fuel: &mut Fuel,
    ) -> (r: Result<(DepVal, DepVal), DepVerdict>)
        requires
            old(fuel).0 <= depth_budget(),
        ensures
            final(fuel).0 <= old(fuel).0,
            (r, final(fuel).0) == s_infer_elim_target(self.cells@, cell.args@, *env, targets@, *motive, zero_term, step_term, old(fuel).0),
        decreases old(fuel).0, 6nat, 2nat,
    {
        let inferred = self.infer(cell.args[3] as usize, env, targets, fuel);
        let (target_term, target_ty) = match inferred {
            Ok(pair) => pair,
            Err(e) => return Err(e),
        };
        let checked = defeq(self, &target_ty, &DepVal::Nat, 0, fuel);
        if let Err(e) = checked {
            return Err(e);
        }
        let family = self.family(motive, target_term.duplicate(), DepVal::Nat, fuel);
        let ty = match family {
            Ok(ty) => ty,
            Err(e) => return Err(e),
        };
        let eliminated = self.elim_term(cell, env, targets, motive, zero_term, step_term, target_term, fuel);
        match eliminated {
            Ok(term) => Ok((term, ty)),
            Err(e) => Err(e),
        }
    }

    /// The term of an eliminator for a synthesized target.
    fn elim_term(
        &self,
        cell: &DepCell,
        env: &DepEnv,
        targets: &[Option<usize>],
        motive: &Option<DepClosure>,
        zero_term: DepVal,
        step_term: DepVal,
        target_term: DepVal,
        fuel: &mut Fuel,
    ) -> (r: Result<DepVal, DepVerdict>)
        requires
            old(fuel).0 <= depth_budget(),
        ensures
            final(fuel).0 <= old(fuel).0,
            (r, final(fuel).0) == s_elim_term(self.cells@, cell.args@, *env, targets@, *motive, zero_term, step_term, target_term, old(fuel).0),
        decreases old(fuel).0, 5nat, 0nat,
    {
        match target_term {
            DepVal::Zero => Ok(zero_term),
            DepVal::Succ(predecessor) => {
                let rec = self.elim_rec(cell.args[1] as usize, cell.args[2] as usize, (*predecessor).duplicate(), env, targets, fuel)?;
                let once = self.apply_value(step_term, (*predecessor).duplicate(), DepVal::Nat, fuel)?;
                let rec_ty = self.family(motive, *predecessor, DepVal::Nat, fuel)?;
                self.apply_value(once, rec, rec_ty, fuel)
            },
            DepVal::Var(_) | DepVal::Stuck => Ok(DepVal::Stuck),
            closed => {
                if read_int(&closed).is_some() {
                    self.elim_rec_closed(cell.args[1] as usize, cell.args[2] as usize, closed, env, targets, fuel)
                } else {
                    Err(DepVerdict::Unknown)
                }
            },
        }
    }

    /// The eliminator's recursive call on a predecessor.
    fn elim_rec(
        &self,
        zero: usize,
        step: usize,
        predecessor: DepVal,
        env: &DepEnv,
        targets: &[Option<usize>],
        fuel: &mut Fuel,
    ) -> (r: Result<DepVal, DepVerdict>)
        requires
            old(fuel).0 <= depth_budget(),
        ensures
            final(fuel).0 <= old(fuel).0,
            (r, final(fuel).0) == s_elim_rec(self.cells@, zero, step, predecessor, *env, targets@, old(fuel).0),
        decreases old(fuel).0, 0nat, 0nat,
    {
        fuel.burn()?;
        match predecessor {
            DepVal::Zero => {
                let (term, _) = self.infer(zero, env, targets, fuel)?;
                Ok(term)
            },
            DepVal::Succ(next) => {
                let rec = self.elim_rec(zero, step, (*next).duplicate(), env, targets, fuel)?;
                let (step_term, _) = self.infer(step, env, targets, fuel)?;
                let once = self.apply_value(step_term, *next, DepVal::Nat, fuel)?;
                self.apply_value(once, rec, DepVal::Nat, fuel)
            },
            closed => {
                if read_int(&closed).is_none() {
                    return Err(DepVerdict::Unknown);
                }
                self.elim_rec_closed(zero, step, closed, env, targets, fuel)
            },
        }
    }

    fn elim_rec_closed(
        &self,
        zero: usize,
        step: usize,
        target: DepVal,
        env: &DepEnv,
        targets: &[Option<usize>],
        fuel: &mut Fuel,
    ) -> (r: Result<DepVal, DepVerdict>)
        requires
            old(fuel).0 <= depth_budget(),
        ensures
            final(fuel).0 <= old(fuel).0,
            (r, final(fuel).0) == s_elim_rec_closed(self.cells@, zero, step, target, *env, targets@, old(fuel).0),
        decreases old(fuel).0, 4nat, 0nat,
    {
        let ghost f0 = fuel.0;
        let (zero_term, _) = self.infer(zero, env, targets, fuel)?;
        let mut current = zero_term;
        let steps = match read_int(&target) {
            Some(s) => s,
            None => return Err(DepVerdict::Unknown),
        };
        let mut predecessor = DepVal::Zero;
        let mut i: i64 = 0;
        let ghost total: nat = if steps < 0 { 0nat } else { steps as nat };
        while i < steps
            invariant
                fuel.0 <= f0,
                f0 == old(fuel).0,
                f0 <= depth_budget(),
                0 <= i,
                steps >= 0 ==> i <= steps,
                steps < 0 ==> i == 0,
                total == (if steps < 0 { 0nat } else { steps as nat }),
                s_elim_rec_closed(self.cells@, zero, step, target, *env, targets@, f0) == s_elim_rec_loop(
                    self.cells@,
                    step,
                    *env,
                    targets@,
                    (total - i) as nat,
                    predecessor,
                    current,
                    fuel.0,
                ),
            decreases steps - i,
        {
            let (step_term, _) = self.infer(step, env, targets, fuel)?;
            let once = self.apply_value(step_term, predecessor.duplicate(), DepVal::Nat, fuel)?;
            current = self.apply_value(once, current, DepVal::Nat, fuel)?;
            predecessor = DepVal::Succ(Box::new(predecessor));
            i = i + 1;
        }
        Ok(current)
    }
}

}
