use vstd::prelude::*;

use super::terms::DepVerdict;

verus! {

/// A semantic value: terms and types share one domain. `Proof` is opaque
/// (proof objects compare as UNKNOWN, never by structure).
#[derive(Debug)]
pub enum DepVal {
    Univ(i64),
    Nat,
    Zero,
    Succ(Box<DepVal>),
    Plus(Box<DepVal>, Box<DepVal>),
    Pi(Box<DepVal>, DepClosure),
    Lam(Box<DepVal>, DepClosure),
    Eq(Box<DepVal>, Box<DepVal>, Box<DepVal>),
    Proof,
    Var(i64),
    Stuck,
}

#[derive(Debug)]
pub enum ClosureBody {
    /// A body cell to evaluate under the extended environment.
    Cell(usize),
    /// An already-evaluated codomain value (from `Lam` synthesis):
    /// application substitutes the rigid variable.
    Val(Box<DepVal>),
}

#[derive(Debug)]
pub struct DepClosure {
    pub body: ClosureBody,
    pub env: DepEnv,
    pub level: i64,
}

/// Levels map to (term value, type value). Rigid variables map to
/// themselves with their domain type. The most recent frame is outermost,
/// so lookups find the latest binding of a level first.
#[derive(Debug)]
pub struct DepEnv {
    pub frames: DepFrames,
}

#[derive(Debug)]
pub enum DepFrames {
    Empty,
    Frame(i64, Box<DepVal>, Box<DepVal>, Box<DepFrames>),
}

/// The latest binding of `level` in a frame list.
pub open spec fn frames_lookup(frames: DepFrames, level: i64) -> Option<(DepVal, DepVal)>
    decreases frames,
{
    match frames {
        DepFrames::Empty => None,
        DepFrames::Frame(entry, term, ty, rest) => if entry == level {
            Some((*term, *ty))
        } else {
            frames_lookup(*rest, level)
        },
    }
}

pub open spec fn frames_len(frames: DepFrames) -> nat
    decreases frames,
{
    match frames {
        DepFrames::Empty => 0,
        DepFrames::Frame(_, _, _, rest) => 1 + frames_len(*rest),
    }
}

/// The environment extended with one binding.
pub open spec fn env_extend(env: DepEnv, level: i64, term: DepVal, ty: DepVal) -> DepEnv {
    DepEnv { frames: DepFrames::Frame(level, Box::new(term), Box::new(ty), Box::new(env.frames)) }
}

pub open spec fn empty_env() -> DepEnv {
    DepEnv { frames: DepFrames::Empty }
}

/// Closed natural reading: `None` for open or ill-shaped values.
pub open spec fn int_reading(value: DepVal) -> Option<i64>
    decreases value,
{
    match value {
        DepVal::Zero => Some(0),
        DepVal::Succ(pred) => match int_reading(*pred) {
            Some(n) => if n < i64::MAX {
                Some((n + 1) as i64)
            } else {
                None
            },
            None => None,
        },
        DepVal::Plus(left, right) => match (int_reading(*left), int_reading(*right)) {
            (Some(a), Some(b)) => if i64::MIN <= a + b <= i64::MAX {
                Some((a + b) as i64)
            } else {
                None
            },
            _ => None,
        },
        _ => None,
    }
}

/// The probe head encoding shared with the native `probe_eval_code`.
pub open spec fn value_head(value: DepVal) -> i64 {
    match value {
        DepVal::Nat => 2,
        DepVal::Zero => 3,
        DepVal::Univ(_) => 1,
        DepVal::Succ(_) => 4,
        DepVal::Plus(_, _) => 5,
        DepVal::Var(_) => 6,
        DepVal::Stuck => 7,
        DepVal::Pi(_, _) => 8,
        DepVal::Lam(_, _) => 9,
        DepVal::Eq(_, _, _) => 10,
        DepVal::Proof => 12,
    }
}

pub open spec fn is_neutral(value: DepVal) -> bool {
    value is Var || value is Stuck
}

impl DepVal {
    /// An exact copy of this value.
    pub fn duplicate(&self) -> (r: DepVal)
        ensures
            r == *self,
        decreases self,
    {
        match self {
            DepVal::Univ(level) => DepVal::Univ(*level),
            DepVal::Nat => DepVal::Nat,
            DepVal::Zero => DepVal::Zero,
            DepVal::Succ(inner) => DepVal::Succ(Box::new(inner.duplicate())),
            DepVal::Plus(left, right) => DepVal::Plus(
                Box::new(left.duplicate()),
                Box::new(right.duplicate()),
            ),
            DepVal::Pi(domain, closure) => DepVal::Pi(
                Box::new(domain.duplicate()),
                closure.duplicate(),
            ),
            DepVal::Lam(domain, closure) => DepVal::Lam(
                Box::new(domain.duplicate()),
                closure.duplicate(),
            ),
            DepVal::Eq(ty, left, right) => DepVal::Eq(
                Box::new(ty.duplicate()),
                Box::new(left.duplicate()),
                Box::new(right.duplicate()),
            ),
            DepVal::Proof => DepVal::Proof,
            DepVal::Var(level) => DepVal::Var(*level),
            DepVal::Stuck => DepVal::Stuck,
        }
    }

    /// Structural equality of two values.
    pub fn same(&self, other: &DepVal) -> (r: bool)
        ensures
            r == (*self == *other),
        decreases self,
    {
        match (self, other) {
            (DepVal::Univ(a), DepVal::Univ(b)) => *a == *b,
            (DepVal::Nat, DepVal::Nat) => true,
            (DepVal::Zero, DepVal::Zero) => true,
            (DepVal::Succ(a), DepVal::Succ(b)) => a.same(b),
            (DepVal::Plus(a, b), DepVal::Plus(c, d)) => a.same(c) && b.same(d),
            (DepVal::Pi(a, b), DepVal::Pi(c, d)) => a.same(c) && b.same(d),
            (DepVal::Lam(a, b), DepVal::Lam(c, d)) => a.same(c) && b.same(d),
            (DepVal::Eq(a, b, c), DepVal::Eq(d, e, f)) => a.same(d) && b.same(e) && c.same(f),
            (DepVal::Proof, DepVal::Proof) => true,
            (DepVal::Var(a), DepVal::Var(b)) => *a == *b,
            (DepVal::Stuck, DepVal::Stuck) => true,
            _ => false,
        }
    }


    pub fn is_neutral_val(&self) -> (r: bool)
        ensures
            r == is_neutral(*self),
    {
        matches!(self, DepVal::Var(_) | DepVal::Stuck)
    }
}

/// Closed natural reading of a value.
pub fn read_int(value: &DepVal) -> (r: Option<i64>)
    ensures
        r == int_reading(*value),
    decreases value,
{
    match value {
        DepVal::Zero => Some(0),
        DepVal::Succ(pred) => match read_int(pred) {
            Some(n) => n.checked_add(1),
            None => None,
        },
        DepVal::Plus(left, right) => match (read_int(left), read_int(right)) {
            (Some(a), Some(b)) => a.checked_add(b),
            _ => None,
        },
        _ => None,
    }
}

impl ClosureBody {
    pub fn duplicate(&self) -> (r: ClosureBody)
        ensures
            r == *self,
        decreases self,
    {
        match self {
            ClosureBody::Cell(index) => ClosureBody::Cell(*index),
            ClosureBody::Val(value) => ClosureBody::Val(Box::new(value.duplicate())),
        }
    }

    pub fn same(&self, other: &ClosureBody) -> (r: bool)
        ensures
            r == (*self == *other),
        decreases self,
    {
        match (self, other) {
            (ClosureBody::Cell(a), ClosureBody::Cell(b)) => *a == *b,
            (ClosureBody::Val(a), ClosureBody::Val(b)) => a.same(b),
            _ => false,
        }
    }
}

impl DepClosure {
    pub fn cell(body: usize, env: DepEnv, level: i64) -> (r: Self)
        ensures
            r == (DepClosure { body: ClosureBody::Cell(body), env, level }),
    {
        Self { body: ClosureBody::Cell(body), env, level }
    }

    pub fn value(value: DepVal, env: DepEnv, level: i64) -> (r: Self)
        ensures
            r == (DepClosure { body: ClosureBody::Val(Box::new(value)), env, level }),
    {
        Self { body: ClosureBody::Val(Box::new(value)), env, level }
    }

    pub fn duplicate(&self) -> (r: DepClosure)
        ensures
            r == *self,
        decreases self,
    {
        DepClosure { body: self.body.duplicate(), env: self.env.duplicate(), level: self.level }
    }

    pub fn same(&self, other: &DepClosure) -> (r: bool)
        ensures
            r == (*self == *other),
        decreases self,
    {
        self.level == other.level && self.body.same(&other.body) && self.env.same(&other.env)
    }
}

impl DepFrames {
    pub fn duplicate(&self) -> (r: DepFrames)
        ensures
            r == *self,
        decreases self,
    {
        match self {
            DepFrames::Empty => DepFrames::Empty,
            DepFrames::Frame(level, term, ty, rest) => DepFrames::Frame(
                *level,
                Box::new(term.duplicate()),
                Box::new(ty.duplicate()),
                Box::new(rest.duplicate()),
            ),
        }
    }

    pub fn same(&self, other: &DepFrames) -> (r: bool)
        ensures
            r == (*self == *other),
        decreases self,
    {
        match (self, other) {
            (DepFrames::Empty, DepFrames::Empty) => true,
            (DepFrames::Frame(a, b, c, d), DepFrames::Frame(e, f, g, h)) => *a == *e && b.same(f)
                && c.same(g) && d.same(h),
            _ => false,
        }
    }

    pub fn lookup(&self, level: i64) -> (r: Option<(DepVal, DepVal)>)
        ensures
            r == frames_lookup(*self, level),
        decreases self,
    {
        match self {
            DepFrames::Empty => None,
            DepFrames::Frame(entry, term, ty, rest) => if *entry == level {
                Some((term.duplicate(), ty.duplicate()))
            } else {
                rest.lookup(level)
            },
        }
    }
}

impl DepEnv {
    pub fn empty() -> (r: Self)
        ensures
            r == empty_env(),
    {
        DepEnv { frames: DepFrames::Empty }
    }

    pub fn duplicate(&self) -> (r: DepEnv)
        ensures
            r == *self,
        decreases self,
    {
        DepEnv { frames: self.frames.duplicate() }
    }

    pub fn same(&self, other: &DepEnv) -> (r: bool)
        ensures
            r == (*self == *other),
        decreases self,
    {
        self.frames.same(&other.frames)
    }

    pub fn extended(&self, level: i64, term: DepVal, ty: DepVal) -> (r: Self)
        ensures
            r == env_extend(*self, level, term, ty),
    {
        DepEnv {
            frames: DepFrames::Frame(level, Box::new(term), Box::new(ty), Box::new(self.frames.duplicate())),
        }
    }

    pub fn lookup(&self, level: i64) -> (r: Option<(DepVal, DepVal)>)
        ensures
            r == frames_lookup(self.frames, level),
    {
        self.frames.lookup(level)
    }
}

impl Default for DepEnv {
    fn default() -> (r: Self)
        ensures
            r == empty_env(),
    {
        DepEnv::empty()
    }
}

pub struct Fuel(pub u64);

impl Fuel {
    pub fn burn(&mut self) -> (r: Result<(), DepVerdict>)
        ensures
            old(self).0 == 0 ==> r == Err::<(), DepVerdict>(DepVerdict::Unknown) && final(self).0 == 0,
            old(self).0 > 0 ==> r == Ok::<(), DepVerdict>(()) && final(self).0 == old(self).0 - 1,
    {
        if self.0 == 0 {
            return Err(DepVerdict::Unknown);
        }
        self.0 = self.0 - 1;
        Ok(())
    }
}

}
