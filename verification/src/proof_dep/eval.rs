use vstd::prelude::*;

use super::shape::DepBuffer;
use super::terms::{DepCell, DepTag, DepVerdict};
use super::value::{
    empty_env, env_extend, frames_len, frames_lookup, int_reading, read_int, ClosureBody,
    DepClosure, DepEnv, DepFrames, DepVal, Fuel,
};

verus! {

/// Remaining fuel never exceeds the fuel a step started with.
pub open spec fn clamp(a: u64, b: u64) -> u64 {
    if a <= b {
        a
    } else {
        b
    }
}

/// One fuelled step that either fails or yields a successor value.
pub open spec fn lift_succ(r: Result<DepVal, DepVerdict>) -> Result<DepVal, DepVerdict> {
    match r {
        Ok(v) => Ok(DepVal::Succ(Box::new(v))),
        Err(e) => Err(e),
    }
}

/// Capture-safe substitution of `arg` for rigid `level` (one unit of fuel per
/// visited value). Shadowing is unrepresentable (binder levels are unique),
/// so substitution descends everywhere except under a closure binding the
/// same level.
pub open spec fn s_subst_val(value: DepVal, level: i64, arg: DepVal, f: u64) -> (Result<DepVal, DepVerdict>, u64)
    decreases f, 0nat, 0nat,
{
    if f == 0 {
        (Err(DepVerdict::Unknown), 0)
    } else {
        let f = (f - 1) as u64;
        match value {
            DepVal::Var(found) => if found == level {
                (Ok(arg), f)
            } else {
                (Ok(value), f)
            },
            DepVal::Succ(inner) => {
                let (r, f1) = s_subst_val(*inner, level, arg, f);
                (lift_succ(r), clamp(f1, f))
            },
            DepVal::Plus(left, right) => {
                let (a, f1) = s_subst_val(*left, level, arg, f);
                let f1 = clamp(f1, f);
                match a {
                    Err(e) => (Err(e), f1),
                    Ok(av) => {
                        let (b, f2) = s_subst_val(*right, level, arg, f1);
                        let f2 = clamp(f2, f1);
                        match b {
                            Err(e) => (Err(e), f2),
                            Ok(bv) => (Ok(DepVal::Plus(Box::new(av), Box::new(bv))), f2),
                        }
                    },
                }
            },
            DepVal::Pi(domain, closure) => {
                let (a, f1) = s_subst_val(*domain, level, arg, f);
                let f1 = clamp(f1, f);
                match a {
                    Err(e) => (Err(e), f1),
                    Ok(av) => {
                        let (c, f2) = s_subst_closure(closure, level, arg, f1);
                        let f2 = clamp(f2, f1);
                        match c {
                            Err(e) => (Err(e), f2),
                            Ok(cv) => (Ok(DepVal::Pi(Box::new(av), cv)), f2),
                        }
                    },
                }
            },
            DepVal::Lam(domain, closure) => {
                let (a, f1) = s_subst_val(*domain, level, arg, f);
                let f1 = clamp(f1, f);
                match a {
                    Err(e) => (Err(e), f1),
                    Ok(av) => {
                        let (c, f2) = s_subst_closure(closure, level, arg, f1);
                        let f2 = clamp(f2, f1);
                        match c {
                            Err(e) => (Err(e), f2),
                            Ok(cv) => (Ok(DepVal::Lam(Box::new(av), cv)), f2),
                        }
                    },
                }
            },
            DepVal::Eq(ty, left, right) => {
                let (a, f1) = s_subst_val(*ty, level, arg, f);
                let f1 = clamp(f1, f);
                match a {
                    Err(e) => (Err(e), f1),
                    Ok(av) => {
                        let (b, f2) = s_subst_val(*left, level, arg, f1);
                        let f2 = clamp(f2, f1);
                        match b {
                            Err(e) => (Err(e), f2),
                            Ok(bv) => {
                                let (c, f3) = s_subst_val(*right, level, arg, f2);
                                let f3 = clamp(f3, f2);
                                match c {
                                    Err(e) => (Err(e), f3),
                                    Ok(cv) => (
                                        Ok(DepVal::Eq(Box::new(av), Box::new(bv), Box::new(cv))),
                                        f3,
                                    ),
                                }
                            },
                        }
                    },
                }
            },
            _ => (Ok(value), f),
        }
    }
}

/// Substitution over the frames of an environment, oldest frame first.
pub open spec fn s_subst_frames(frames: DepFrames, level: i64, arg: DepVal, f: u64) -> (Result<DepFrames, DepVerdict>, u64)
    decreases f, 1nat, frames_len(frames),
{
    match frames {
        DepFrames::Empty => (Ok(DepFrames::Empty), f),
        DepFrames::Frame(entry, term, ty, rest) => {
            let (r, f1) = s_subst_frames(*rest, level, arg, f);
            let f1 = clamp(f1, f);
            match r {
                Err(e) => (Err(e), f1),
                Ok(rv) => {
                    let (t, f2) = s_subst_val(*term, level, arg, f1);
                    let f2 = clamp(f2, f1);
                    match t {
                        Err(e) => (Err(e), f2),
                        Ok(tv) => {
                            let (y, f3) = s_subst_val(*ty, level, arg, f2);
                            let f3 = clamp(f3, f2);
                            match y {
                                Err(e) => (Err(e), f3),
                                Ok(yv) => (
                                    Ok(DepFrames::Frame(entry, Box::new(tv), Box::new(yv), Box::new(rv))),
                                    f3,
                                ),
                            }
                        },
                    }
                },
            }
        },
    }
}

pub open spec fn s_subst_closure(closure: DepClosure, level: i64, arg: DepVal, f: u64) -> (Result<DepClosure, DepVerdict>, u64)
    decreases f, 2nat, 0nat,
{
    if closure.level == level {
        (Ok(closure), f)
    } else {
        let (r, f1) = s_subst_frames(closure.env.frames, level, arg, f);
        let f1 = clamp(f1, f);
        match r {
            Err(e) => (Err(e), f1),
            Ok(frames) => match closure.body {
                ClosureBody::Cell(index) => (
                    Ok(DepClosure { body: ClosureBody::Cell(index), env: DepEnv { frames }, level: closure.level }),
                    f1,
                ),
                ClosureBody::Val(v) => {
                    let (b, f2) = s_subst_val(*v, level, arg, f1);
                    let f2 = clamp(f2, f1);
                    match b {
                        Err(e) => (Err(e), f2),
                        Ok(bv) => (
                            Ok(DepClosure { body: ClosureBody::Val(Box::new(bv)), env: DepEnv { frames }, level: closure.level }),
                            f2,
                        ),
                    }
                },
            },
        }
    }
}

/// Addition of weak-head values: unfolds successors of the left operand.
#[verifier::opaque]
pub open spec fn s_plus_val(left: DepVal, right: DepVal, f: u64) -> (Result<DepVal, DepVerdict>, u64)
    decreases f, 0nat, 0nat,
{
    if f == 0 {
        (Err(DepVerdict::Unknown), 0)
    } else {
        let f = (f - 1) as u64;
        match left {
            DepVal::Zero => (Ok(right), f),
            DepVal::Succ(pred) => {
                let (r, f1) = s_plus_val(*pred, right, f);
                (lift_succ(r), clamp(f1, f))
            },
            DepVal::Var(_) | DepVal::Stuck | DepVal::Plus(_, _) => (
                Ok(DepVal::Plus(Box::new(left), Box::new(right))),
                f,
            ),
            _ => (Err(DepVerdict::Unknown), f),
        }
    }
}

#[verifier::opaque]
pub open spec fn s_apply_closure(cells: Seq<DepCell>, closure: DepClosure, arg: DepVal, arg_ty: DepVal, f: u64) -> (Result<DepVal, DepVerdict>, u64)
    decreases f, 1nat, 0nat,
{
    match closure.body {
        ClosureBody::Cell(body) => s_eval(cells, body, env_extend(closure.env, closure.level, arg, arg_ty), f),
        ClosureBody::Val(v) => s_subst_val(*v, closure.level, arg, f),
    }
}

#[verifier::opaque]
pub open spec fn s_apply_value(cells: Seq<DepCell>, function: DepVal, arg: DepVal, arg_ty: DepVal, f: u64) -> (Result<DepVal, DepVerdict>, u64)
    decreases f, 2nat, 0nat,
{
    match function {
        DepVal::Lam(_, closure) => s_apply_closure(cells, closure, arg, arg_ty, f),
        DepVal::Var(_) | DepVal::Stuck => (Ok(DepVal::Stuck), f),
        _ => (Err(DepVerdict::Unknown), f),
    }
}

/// Weak-head evaluation of the cell at `index` under `env`.
#[verifier::opaque]
pub open spec fn s_eval(cells: Seq<DepCell>, index: usize, env: DepEnv, f: u64) -> (Result<DepVal, DepVerdict>, u64)
    decreases f, 0nat, 0nat,
{
    if f == 0 {
        (Err(DepVerdict::Unknown), 0)
    } else {
        let f = (f - 1) as u64;
        if index >= cells.len() {
            (Err(DepVerdict::Fail), f)
        } else {
            let cell = cells[index as int];
            let a = cell.args@;
            match cell.tag {
                DepTag::Universe => (Ok(DepVal::Univ(a[0])), f),
                DepTag::Nat => (Ok(DepVal::Nat), f),
                DepTag::Zero => (Ok(DepVal::Zero), f),
                DepTag::Var => match frames_lookup(env.frames, a[0]) {
                    Some((term, _)) => (Ok(term), f),
                    None => (Err(DepVerdict::Fail), f),
                },
                DepTag::Pi => {
                    let (d, f1) = s_eval(cells, a[0] as usize, env, f);
                    let f1 = clamp(f1, f);
                    match d {
                        Err(e) => (Err(e), f1),
                        Ok(dv) => (
                            Ok(DepVal::Pi(Box::new(dv), DepClosure { body: ClosureBody::Cell(a[1] as usize), env, level: a[2] })),
                            f1,
                        ),
                    }
                },
                DepTag::Lam => {
                    let (d, f1) = s_eval(cells, a[0] as usize, env, f);
                    let f1 = clamp(f1, f);
                    match d {
                        Err(e) => (Err(e), f1),
                        Ok(dv) => (
                            Ok(DepVal::Lam(Box::new(dv), DepClosure { body: ClosureBody::Cell(a[1] as usize), env, level: a[2] })),
                            f1,
                        ),
                    }
                },
                DepTag::App => {
                    let (fr, f1) = s_eval(cells, a[0] as usize, env, f);
                    let f1 = clamp(f1, f);
                    match fr {
                        Err(e) => (Err(e), f1),
                        Ok(fv) => {
                            let (ar, f2) = s_eval(cells, a[1] as usize, env, f1);
                            let f2 = clamp(f2, f1);
                            match ar {
                                Err(e) => (Err(e), f2),
                                Ok(av) => match fv {
                                    DepVal::Lam(_, closure) => s_apply_closure(cells, closure, av, DepVal::Stuck, f2),
                                    DepVal::Var(_) | DepVal::Stuck => (Ok(DepVal::Stuck), f2),
                                    _ => (Err(DepVerdict::Unknown), f2),
                                },
                            }
                        },
                    }
                },
                DepTag::Succ => {
                    let (r, f1) = s_eval(cells, a[0] as usize, env, f);
                    (lift_succ(r), clamp(f1, f))
                },
                DepTag::Plus => {
                    let (l, f1) = s_eval(cells, a[0] as usize, env, f);
                    let f1 = clamp(f1, f);
                    match l {
                        Err(e) => (Err(e), f1),
                        Ok(lv) => {
                            let (r, f2) = s_eval(cells, a[1] as usize, env, f1);
                            let f2 = clamp(f2, f1);
                            match r {
                                Err(e) => (Err(e), f2),
                                Ok(rv) => s_plus_val(lv, rv, f2),
                            }
                        },
                    }
                },
                DepTag::NatElim => s_eval_elim(cells, cell, env, f),
                DepTag::Eq => {
                    let (t, f1) = s_eval(cells, a[0] as usize, env, f);
                    let f1 = clamp(f1, f);
                    match t {
                        Err(e) => (Err(e), f1),
                        Ok(tv) => {
                            let (l, f2) = s_eval(cells, a[1] as usize, env, f1);
                            let f2 = clamp(f2, f1);
                            match l {
                                Err(e) => (Err(e), f2),
                                Ok(lv) => {
                                    let (r, f3) = s_eval(cells, a[2] as usize, env, f2);
                                    let f3 = clamp(f3, f2);
                                    match r {
                                        Err(e) => (Err(e), f3),
                                        Ok(rv) => (
                                            Ok(DepVal::Eq(Box::new(tv), Box::new(lv), Box::new(rv))),
                                            f3,
                                        ),
                                    }
                                },
                            }
                        },
                    }
                },
                DepTag::Refl | DepTag::Cong => (Ok(DepVal::Proof), f),
                DepTag::Hyp => (Err(DepVerdict::Fail), f),
                DepTag::Unsupported => (Err(DepVerdict::Unknown), f),
            }
        }
    }
}

/// Evaluation of a `NatElim` cell: genuine motives unfold, neutral motives
/// stay stuck, anything else abstains.
#[verifier::opaque]
pub open spec fn s_eval_elim(cells: Seq<DepCell>, cell: DepCell, env: DepEnv, f: u64) -> (Result<DepVal, DepVerdict>, u64)
    decreases f, 5nat, 0nat,
{
    let a = cell.args@;
    let (m, f1) = s_eval(cells, a[0] as usize, env, f);
    let f1 = clamp(f1, f);
    match m {
        Err(e) => (Err(e), f1),
        Ok(motive) => {
            let (t, f2) = s_eval(cells, a[3] as usize, env, f1);
            let f2 = clamp(f2, f1);
            match t {
                Err(e) => (Err(e), f2),
                Ok(target) => {
                    if !(motive is Lam) {
                        if motive is Var || motive is Stuck {
                            (Ok(DepVal::Stuck), f2)
                        } else {
                            (Err(DepVerdict::Unknown), f2)
                        }
                    } else {
                        match target {
                            DepVal::Zero => s_eval(cells, a[1] as usize, env, f2),
                            DepVal::Succ(pred) => {
                                let (st, f3) = s_eval(cells, a[2] as usize, env, f2);
                                let f3 = clamp(f3, f2);
                                match st {
                                    Err(e) => (Err(e), f3),
                                    Ok(step) => s_elim_succ(cells, step, a[1] as usize, a[2] as usize, *pred, env, f3),
                                }
                            },
                            DepVal::Var(_) | DepVal::Stuck | DepVal::Plus(_, _) => {
                                if int_reading(target) is Some {
                                    s_elim_closed(cells, a[1] as usize, a[2] as usize, target, env, f2)
                                } else {
                                    (Ok(DepVal::Stuck), f2)
                                }
                            },
                            _ => (Err(DepVerdict::Unknown), f2),
                        }
                    }
                },
            }
        },
    }
}

/// One iota unfolding for a successor target.
#[verifier::opaque]
pub open spec fn s_elim_succ(
    cells: Seq<DepCell>,
    step: DepVal,
    zero: usize,
    step_cell: usize,
    pred: DepVal,
    env: DepEnv,
    f: u64,
) -> (Result<DepVal, DepVerdict>, u64)
    decreases f, 0nat, 0nat,
{
    if f == 0 {
        (Err(DepVerdict::Unknown), 0)
    } else {
        let f = (f - 1) as u64;
        let (rec, f1) = match pred {
            DepVal::Zero => s_eval(cells, zero, env, f),
            DepVal::Succ(next) => s_elim_succ(cells, step, zero, step_cell, *next, env, f),
            _ => if int_reading(pred) is None {
                (Err(DepVerdict::Unknown), f)
            } else {
                s_elim_closed(cells, zero, step_cell, pred, env, f)
            },
        };
        let f1 = clamp(f1, f);
        match rec {
            Err(e) => (Err(e), f1),
            Ok(rv) => {
                let (once, f2) = s_apply_value(cells, step, pred, DepVal::Nat, f1);
                let f2 = clamp(f2, f1);
                match once {
                    Err(e) => (Err(e), f2),
                    Ok(ov) => s_apply_value(cells, ov, rv, DepVal::Nat, f2),
                }
            },
        }
    }
}

/// The eliminator applied to a closed symbolic target: unfold the reading.
#[verifier::opaque]
pub open spec fn s_elim_closed(cells: Seq<DepCell>, zero: usize, step: usize, target: DepVal, env: DepEnv, f: u64) -> (Result<DepVal, DepVerdict>, u64)
    decreases f, 4nat, 0nat,
{
    let (z, f1) = s_eval(cells, zero, env, f);
    let f1 = clamp(f1, f);
    match z {
        Err(e) => (Err(e), f1),
        Ok(current) => match int_reading(target) {
            None => (Err(DepVerdict::Unknown), f1),
            Some(steps) => s_elim_loop(cells, step, env, if steps < 0 { 0nat } else { steps as nat }, DepVal::Zero, current, f1),
        },
    }
}

/// The remaining `remaining` unfoldings of a closed eliminator.
#[verifier::opaque]
pub open spec fn s_elim_loop(
    cells: Seq<DepCell>,
    step: usize,
    env: DepEnv,
    remaining: nat,
    pred: DepVal,
    current: DepVal,
    f: u64,
) -> (Result<DepVal, DepVerdict>, u64)
    decreases f, 3nat, remaining,
{
    if remaining == 0 {
        (Ok(current), f)
    } else {
        let (s, f1) = s_eval(cells, step, env, f);
        let f1 = clamp(f1, f);
        match s {
            Err(e) => (Err(e), f1),
            Ok(sv) => {
                let (once, f2) = s_apply_value(cells, sv, pred, DepVal::Nat, f1);
                let f2 = clamp(f2, f1);
                match once {
                    Err(e) => (Err(e), f2),
                    Ok(ov) => {
                        let (next, f3) = s_apply_value(cells, ov, current, DepVal::Nat, f2);
                        let f3 = clamp(f3, f2);
                        match next {
                            Err(e) => (Err(e), f3),
                            Ok(nv) => s_elim_loop(cells, step, env, (remaining - 1) as nat, DepVal::Succ(Box::new(pred)), nv, f3),
                        }
                    },
                }
            },
        }
    }
}


/// Capture-safe substitution of `argument` for rigid `level`.
pub fn subst_val(value: &DepVal, level: i64, argument: &DepVal, fuel: &mut Fuel) -> (r: Result<DepVal, DepVerdict>)
    ensures
        final(fuel).0 <= old(fuel).0,
        (r, final(fuel).0) == s_subst_val(*value, level, *argument, old(fuel).0),
    decreases old(fuel).0, 0nat, 0nat,
{
    fuel.burn()?;
    match value {
        DepVal::Var(found) => {
            if *found == level {
                Ok(argument.duplicate())
            } else {
                Ok(value.duplicate())
            }
        },
        DepVal::Succ(inner) => {
            let v = subst_val(inner, level, argument, fuel)?;
            Ok(DepVal::Succ(Box::new(v)))
        },
        DepVal::Plus(left, right) => {
            let a = subst_val(left, level, argument, fuel)?;
            let b = subst_val(right, level, argument, fuel)?;
            Ok(DepVal::Plus(Box::new(a), Box::new(b)))
        },
        DepVal::Pi(domain, closure) => {
            let a = subst_val(domain, level, argument, fuel)?;
            let c = subst_closure(closure, level, argument, fuel)?;
            Ok(DepVal::Pi(Box::new(a), c))
        },
        DepVal::Lam(domain, closure) => {
            let a = subst_val(domain, level, argument, fuel)?;
            let c = subst_closure(closure, level, argument, fuel)?;
            Ok(DepVal::Lam(Box::new(a), c))
        },
        DepVal::Eq(ty, left, right) => {
            let a = subst_val(ty, level, argument, fuel)?;
            let b = subst_val(left, level, argument, fuel)?;
            let c = subst_val(right, level, argument, fuel)?;
            Ok(DepVal::Eq(Box::new(a), Box::new(b), Box::new(c)))
        },
        _ => Ok(value.duplicate()),
    }
}

fn subst_frames(frames: &DepFrames, level: i64, argument: &DepVal, fuel: &mut Fuel) -> (r: Result<DepFrames, DepVerdict>)
    ensures
        final(fuel).0 <= old(fuel).0,
        (r, final(fuel).0) == s_subst_frames(*frames, level, *argument, old(fuel).0),
    decreases old(fuel).0, 1nat, frames_len(*frames),
{
    match frames {
        DepFrames::Empty => Ok(DepFrames::Empty),
        DepFrames::Frame(entry, term, ty, rest) => {
            let r = subst_frames(rest, level, argument, fuel)?;
            let t = subst_val(term, level, argument, fuel)?;
            let y = subst_val(ty, level, argument, fuel)?;
            Ok(DepFrames::Frame(*entry, Box::new(t), Box::new(y), Box::new(r)))
        },
    }
}

fn subst_closure(closure: &DepClosure, level: i64, argument: &DepVal, fuel: &mut Fuel) -> (r: Result<DepClosure, DepVerdict>)
    ensures
        final(fuel).0 <= old(fuel).0,
        (r, final(fuel).0) == s_subst_closure(*closure, level, *argument, old(fuel).0),
    decreases old(fuel).0, 2nat, 0nat,
{
    if closure.level == level {
        return Ok(closure.duplicate());
    }
    let frames = subst_frames(&closure.env.frames, level, argument, fuel)?;
    let body = match &closure.body {
        ClosureBody::Cell(index) => ClosureBody::Cell(*index),
        ClosureBody::Val(value) => ClosureBody::Val(Box::new(subst_val(value, level, argument, fuel)?)),
    };
    Ok(DepClosure { body, env: DepEnv { frames }, level: closure.level })
}

pub(crate) fn plus_val(left: DepVal, right: DepVal, fuel: &mut Fuel) -> (r: Result<DepVal, DepVerdict>)
    ensures
        final(fuel).0 <= old(fuel).0,
        (r, final(fuel).0) == s_plus_val(left, right, old(fuel).0),
    decreases old(fuel).0, 0nat, 0nat,
{
    proof {
        reveal(s_plus_val);
    }
    fuel.burn()?;
    match left {
        DepVal::Zero => Ok(right),
        DepVal::Succ(pred) => {
            let v = plus_val(*pred, right, fuel)?;
            Ok(DepVal::Succ(Box::new(v)))
        },
        other => {
            if other.is_neutral_val() || matches!(other, DepVal::Plus(_, _)) {
                Ok(DepVal::Plus(Box::new(other), Box::new(right)))
            } else {
                Err(DepVerdict::Unknown)
            }
        },
    }
}

pub fn apply_closure(
    buffer: &DepBuffer,
    closure: &DepClosure,
    argument: DepVal,
    arg_type: DepVal,
    fuel: &mut Fuel,
) -> (r: Result<DepVal, DepVerdict>)
    ensures
        final(fuel).0 <= old(fuel).0,
        (r, final(fuel).0) == s_apply_closure(buffer.cells@, *closure, argument, arg_type, old(fuel).0),
    decreases old(fuel).0, 1nat, 0nat,
{
    proof {
        reveal(s_eval);
        reveal(s_eval_elim);
        reveal(s_elim_succ);
        reveal(s_elim_closed);
        reveal(s_elim_loop);
        reveal(s_apply_closure);
        reveal(s_apply_value);
    }
    match &closure.body {
        ClosureBody::Cell(body) => {
            let env = closure.env.extended(closure.level, argument, arg_type);
            buffer.eval(*body, &env, fuel)
        },
        ClosureBody::Val(value) => subst_val(value, closure.level, &argument, fuel),
    }
}

impl DepBuffer {
    pub fn apply_value(&self, function: DepVal, argument: DepVal, arg_type: DepVal, fuel: &mut Fuel) -> (r: Result<DepVal, DepVerdict>)
        ensures
            final(fuel).0 <= old(fuel).0,
            (r, final(fuel).0) == s_apply_value(self.cells@, function, argument, arg_type, old(fuel).0),
        decreases old(fuel).0, 2nat, 0nat,
    {
        proof {
            reveal(s_eval);
            reveal(s_eval_elim);
            reveal(s_elim_succ);
            reveal(s_elim_closed);
            reveal(s_elim_loop);
            reveal(s_apply_closure);
            reveal(s_apply_value);
        }
        match function {
            DepVal::Lam(_, closure) => apply_closure(self, &closure, argument, arg_type, fuel),
            DepVal::Var(_) | DepVal::Stuck => Ok(DepVal::Stuck),
            _ => Err(DepVerdict::Unknown),
        }
    }

    pub fn eval(&self, index: usize, env: &DepEnv, fuel: &mut Fuel) -> (r: Result<DepVal, DepVerdict>)
        ensures
            final(fuel).0 <= old(fuel).0,
            (r, final(fuel).0) == s_eval(self.cells@, index, *env, old(fuel).0),
        decreases old(fuel).0, 0nat, 0nat,
    {
        proof {
            reveal(s_eval);
            reveal(s_eval_elim);
            reveal(s_elim_succ);
            reveal(s_elim_closed);
            reveal(s_elim_loop);
            reveal(s_apply_closure);
            reveal(s_apply_value);
        }
        fuel.burn()?;
        if index >= self.cells.len() {
            return Err(DepVerdict::Fail);
        }
        let cell = self.cells[index].duplicate();
        match cell.tag {
            DepTag::Universe => Ok(DepVal::Univ(cell.args[0])),
            DepTag::Nat => Ok(DepVal::Nat),
            DepTag::Zero => Ok(DepVal::Zero),
            DepTag::Var => match env.lookup(cell.args[0]) {
                Some((term, _)) => Ok(term),
                None => Err(DepVerdict::Fail),
            },
            DepTag::Pi => {
                let domain = self.eval(cell.args[0] as usize, env, fuel)?;
                Ok(DepVal::Pi(Box::new(domain), DepClosure::cell(cell.args[1] as usize, env.duplicate(), cell.args[2])))
            },
            DepTag::Lam => {
                let domain = self.eval(cell.args[0] as usize, env, fuel)?;
                Ok(DepVal::Lam(Box::new(domain), DepClosure::cell(cell.args[1] as usize, env.duplicate(), cell.args[2])))
            },
            DepTag::App => {
                let function = self.eval(cell.args[0] as usize, env, fuel)?;
                let argument = self.eval(cell.args[1] as usize, env, fuel)?;
                match function {
                    // Evaluation never reads environment types (only
                    // inference does), so the dummy is unobservable here.
                    DepVal::Lam(_, closure) => apply_closure(self, &closure, argument, DepVal::Stuck, fuel),
                    DepVal::Var(_) | DepVal::Stuck => Ok(DepVal::Stuck),
                    _ => Err(DepVerdict::Unknown),
                }
            },
            DepTag::Succ => {
                let v = self.eval(cell.args[0] as usize, env, fuel)?;
                Ok(DepVal::Succ(Box::new(v)))
            },
            DepTag::Plus => {
                let left = self.eval(cell.args[0] as usize, env, fuel)?;
                let right = self.eval(cell.args[1] as usize, env, fuel)?;
                plus_val(left, right, fuel)
            },
            DepTag::NatElim => self.eval_elim(&cell, env, fuel),
            DepTag::Eq => {
                let ty = self.eval(cell.args[0] as usize, env, fuel)?;
                let left = self.eval(cell.args[1] as usize, env, fuel)?;
                let right = self.eval(cell.args[2] as usize, env, fuel)?;
                Ok(DepVal::Eq(Box::new(ty), Box::new(left), Box::new(right)))
            },
            DepTag::Refl | DepTag::Cong => Ok(DepVal::Proof),
            DepTag::Hyp => Err(DepVerdict::Fail),
            DepTag::Unsupported => Err(DepVerdict::Unknown),
        }
    }

    fn eval_elim(&self, cell: &DepCell, env: &DepEnv, fuel: &mut Fuel) -> (r: Result<DepVal, DepVerdict>)
        ensures
            final(fuel).0 <= old(fuel).0,
            (r, final(fuel).0) == s_eval_elim(self.cells@, *cell, *env, old(fuel).0),
        decreases old(fuel).0, 5nat, 0nat,
    {
        proof {
            reveal(s_eval);
            reveal(s_eval_elim);
            reveal(s_elim_succ);
            reveal(s_elim_closed);
            reveal(s_elim_loop);
            reveal(s_apply_closure);
            reveal(s_apply_value);
        }
        let motive = self.eval(cell.args[0] as usize, env, fuel)?;
        let target = self.eval(cell.args[3] as usize, env, fuel)?;
        // Evaluation needs only the motive's shape: genuine functions
        // unfold, neutrals stay stuck, anything else abstains.
        match motive {
            DepVal::Lam(_, _) => {},
            DepVal::Var(_) | DepVal::Stuck => return Ok(DepVal::Stuck),
            _ => return Err(DepVerdict::Unknown),
        }
        match target {
            DepVal::Zero => self.eval(cell.args[1] as usize, env, fuel),
            DepVal::Succ(pred) => {
                let step = self.eval(cell.args[2] as usize, env, fuel)?;
                self.elim_succ(step, cell.args[1] as usize, cell.args[2] as usize, *pred, env, fuel)
            },
            other => {
                if other.is_neutral_val() || matches!(other, DepVal::Plus(_, _)) {
                    if read_int(&other).is_some() {
                        self.elim_closed(cell.args[1] as usize, cell.args[2] as usize, other, env, fuel)
                    } else {
                        Ok(DepVal::Stuck)
                    }
                } else {
                    Err(DepVerdict::Unknown)
                }
            },
        }
    }

    /// One iota unfolding for a successor target.
    fn elim_succ(
        &self,
        step: DepVal,
        zero: usize,
        step_cell: usize,
        predecessor: DepVal,
        env: &DepEnv,
        fuel: &mut Fuel,
    ) -> (r: Result<DepVal, DepVerdict>)
        ensures
            final(fuel).0 <= old(fuel).0,
            (r, final(fuel).0) == s_elim_succ(self.cells@, step, zero, step_cell, predecessor, *env, old(fuel).0),
        decreases old(fuel).0, 0nat, 0nat,
    {
        proof {
            reveal(s_eval);
            reveal(s_eval_elim);
            reveal(s_elim_succ);
            reveal(s_elim_closed);
            reveal(s_elim_loop);
            reveal(s_apply_closure);
            reveal(s_apply_value);
        }
        fuel.burn()?;
        let rec = match predecessor.duplicate() {
            DepVal::Zero => self.eval(zero, env, fuel)?,
            DepVal::Succ(next) => self.elim_succ(step.duplicate(), zero, step_cell, *next, env, fuel)?,
            closed => {
                if read_int(&closed).is_none() {
                    return Err(DepVerdict::Unknown);
                }
                self.elim_closed(zero, step_cell, closed, env, fuel)?
            },
        };
        let once = self.apply_value(step, predecessor, DepVal::Nat, fuel)?;
        self.apply_value(once, rec, DepVal::Nat, fuel)
    }

    /// Eliminator applied to a closed symbolic target: unfold the integer
    /// reading. Open targets stay stuck (handled by the caller).
    fn elim_closed(&self, zero: usize, step: usize, target: DepVal, env: &DepEnv, fuel: &mut Fuel) -> (r: Result<DepVal, DepVerdict>)
        ensures
            final(fuel).0 <= old(fuel).0,
            (r, final(fuel).0) == s_elim_closed(self.cells@, zero, step, target, *env, old(fuel).0),
        decreases old(fuel).0, 4nat, 0nat,
    {
        proof {
            reveal(s_eval);
            reveal(s_eval_elim);
            reveal(s_elim_succ);
            reveal(s_elim_closed);
            reveal(s_elim_loop);
            reveal(s_apply_closure);
            reveal(s_apply_value);
        }
        let ghost f0 = fuel.0;
        let mut current = self.eval(zero, env, fuel)?;
        let steps = match read_int(&target) {
            Some(s) => s,
            None => return Err(DepVerdict::Unknown),
        };
        let mut predecessor = DepVal::Zero;
        let mut i: i64 = 0;
        let ghost total: nat = if steps < 0 { 0nat } else { steps as nat };
        while i < steps
            invariant
                fuel.0 <= f0,
                f0 == old(fuel).0,
                0 <= i,
                steps >= 0 ==> i <= steps,
                steps < 0 ==> i == 0,
                total == (if steps < 0 { 0nat } else { steps as nat }),
                s_elim_closed(self.cells@, zero, step, target, *env, f0) == s_elim_loop(
                    self.cells@,
                    step,
                    *env,
                    (total - i) as nat,
                    predecessor,
                    current,
                    fuel.0,
                ),
            decreases steps - i,
        {
            proof {
                reveal(s_eval);
                reveal(s_eval_elim);
                reveal(s_elim_succ);
                reveal(s_elim_closed);
                reveal(s_elim_loop);
                reveal(s_apply_closure);
                reveal(s_apply_value);
            }
            let step_val = self.eval(step, env, fuel)?;
            let once = self.apply_value(step_val, predecessor.duplicate(), DepVal::Nat, fuel)?;
            current = self.apply_value(once, current, DepVal::Nat, fuel)?;
            predecessor = DepVal::Succ(Box::new(predecessor));
            i = i + 1;
        }
        Ok(current)
    }
}

}
