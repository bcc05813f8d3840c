use vstd::prelude::*;

verus! {

pub const PROOF_DEP_KERNEL_ID: &'static str = "mncs:proof-kernel:0.2";

pub const PROOF_DEP_BUFFER_CAPACITY: usize = 32;

pub const PROOF_DEP_MAX_UNIVERSE: i64 = 3;

/// Recursion fuel for one checker entry: exhaustion is UNKNOWN, never PASS.
pub const PROOF_DEP_FUEL: u64 = 65536;

#[derive(Debug, Clone, Copy, PartialEq, Eq, Structural)]
pub enum DepTag {
    Unsupported,
    Universe,
    Var,
    Pi,
    Lam,
    App,
    Nat,
    Zero,
    Succ,
    Plus,
    NatElim,
    Eq,
    Refl,
    Hyp,
    Cong,
}

/// The numeric code shared with the native kernel's tag table.
pub open spec fn tag_code(tag: DepTag) -> i64 {
    match tag {
        DepTag::Universe => 1,
        DepTag::Var => 2,
        DepTag::Pi => 3,
        DepTag::Lam => 4,
        DepTag::App => 5,
        DepTag::Nat => 6,
        DepTag::Zero => 7,
        DepTag::Succ => 8,
        DepTag::Plus => 9,
        DepTag::NatElim => 10,
        DepTag::Eq => 11,
        DepTag::Refl => 12,
        DepTag::Hyp => 13,
        DepTag::Cong => 14,
        DepTag::Unsupported => 0,
    }
}

/// The argument slots of a tag that hold child references.
pub open spec fn tag_ref_slots(tag: DepTag) -> Seq<usize> {
    match tag {
        DepTag::Universe | DepTag::Var | DepTag::Nat | DepTag::Zero | DepTag::Unsupported => seq![],
        DepTag::Pi | DepTag::Lam | DepTag::App => seq![0usize, 1usize],
        DepTag::Succ | DepTag::Refl => seq![0usize],
        DepTag::Plus => seq![0usize, 1usize],
        DepTag::Hyp => seq![1usize],
        DepTag::NatElim => seq![0usize, 1usize, 2usize, 3usize],
        DepTag::Eq => seq![0usize, 1usize, 2usize],
        DepTag::Cong => seq![0usize, 1usize, 2usize],
    }
}

pub open spec fn tag_is_binder(tag: DepTag) -> bool {
    tag == DepTag::Pi || tag == DepTag::Lam || tag == DepTag::Hyp
}

/// The tag named by `name` (the encoder also accepts `Lambda` and `Apply`).
pub open spec fn tag_named(name: Seq<char>) -> Option<DepTag> {
    if name == "Universe"@ {
        Some(DepTag::Universe)
    } else if name == "Var"@ {
        Some(DepTag::Var)
    } else if name == "Pi"@ {
        Some(DepTag::Pi)
    } else if name == "Lam"@ || name == "Lambda"@ {
        Some(DepTag::Lam)
    } else if name == "App"@ || name == "Apply"@ {
        Some(DepTag::App)
    } else if name == "Nat"@ {
        Some(DepTag::Nat)
    } else if name == "Zero"@ {
        Some(DepTag::Zero)
    } else if name == "Succ"@ {
        Some(DepTag::Succ)
    } else if name == "Plus"@ {
        Some(DepTag::Plus)
    } else if name == "NatElim"@ {
        Some(DepTag::NatElim)
    } else if name == "Eq"@ {
        Some(DepTag::Eq)
    } else if name == "Refl"@ {
        Some(DepTag::Refl)
    } else if name == "Hyp"@ {
        Some(DepTag::Hyp)
    } else if name == "Cong"@ {
        Some(DepTag::Cong)
    } else if name == "Unsupported"@ {
        Some(DepTag::Unsupported)
    } else {
        None
    }
}

/// Character-exact string equality.
pub fn str_eq(a: &str, b: &str) -> (r: bool)
    ensures
        r == (a@ == b@),
{
    let n = a.unicode_len();
    if n != b.unicode_len() {
        return false;
    }
    let mut i: usize = 0;
    while i < n
        invariant
            n == a@.len(),
            n == b@.len(),
            i <= n,
            forall|j: int| 0 <= j < i ==> a@[j] == b@[j],
        decreases n - i,
    {
        if a.get_char(i) != b.get_char(i) {
            return false;
        }
        i = i + 1;
    }
    assert(a@ =~= b@);
    true
}

impl DepTag {
    pub fn from_name(name: &str) -> (r: Option<Self>)
        ensures
            r == tag_named(name@),
    {
        if str_eq(name, "Universe") {
            Some(Self::Universe)
        } else if str_eq(name, "Var") {
            Some(Self::Var)
        } else if str_eq(name, "Pi") {
            Some(Self::Pi)
        } else if str_eq(name, "Lam") || str_eq(name, "Lambda") {
            Some(Self::Lam)
        } else if str_eq(name, "App") || str_eq(name, "Apply") {
            Some(Self::App)
        } else if str_eq(name, "Nat") {
            Some(Self::Nat)
        } else if str_eq(name, "Zero") {
            Some(Self::Zero)
        } else if str_eq(name, "Succ") {
            Some(Self::Succ)
        } else if str_eq(name, "Plus") {
            Some(Self::Plus)
        } else if str_eq(name, "NatElim") {
            Some(Self::NatElim)
        } else if str_eq(name, "Eq") {
            Some(Self::Eq)
        } else if str_eq(name, "Refl") {
            Some(Self::Refl)
        } else if str_eq(name, "Hyp") {
            Some(Self::Hyp)
        } else if str_eq(name, "Cong") {
            Some(Self::Cong)
        } else if str_eq(name, "Unsupported") {
            Some(Self::Unsupported)
        } else {
            None
        }
    }

    /// Numeric codes shared with the native kernel's `tag_code`.
    pub fn code(self) -> (r: i64)
        ensures
            r == tag_code(self),
    {
        match self {
            Self::Universe => 1,
            Self::Var => 2,
            Self::Pi => 3,
            Self::Lam => 4,
            Self::App => 5,
            Self::Nat => 6,
            Self::Zero => 7,
            Self::Succ => 8,
            Self::Plus => 9,
            Self::NatElim => 10,
            Self::Eq => 11,
            Self::Refl => 12,
            Self::Hyp => 13,
            Self::Cong => 14,
            Self::Unsupported => 0,
        }
    }

    /// Argument slots that are child references (must order below the cell).
    pub fn ref_slots(self) -> (r: &'static [usize])
        ensures
            r@ == tag_ref_slots(self),
    {
        match self {
            Self::Universe | Self::Var | Self::Nat | Self::Zero | Self::Unsupported => {
                let r: &[usize] = &[];
                assert(r@ =~= tag_ref_slots(self));
                r
            },
            Self::Pi | Self::Lam | Self::App | Self::Plus => {
                let r: &[usize] = &[0, 1];
                assert(r@ =~= tag_ref_slots(self));
                r
            },
            Self::Succ | Self::Refl => {
                let r: &[usize] = &[0];
                assert(r@ =~= tag_ref_slots(self));
                r
            },
            Self::Hyp => {
                let r: &[usize] = &[1];
                assert(r@ =~= tag_ref_slots(self));
                r
            },
            Self::NatElim => {
                let r: &[usize] = &[0, 1, 2, 3];
                assert(r@ =~= tag_ref_slots(self));
                r
            },
            Self::Eq | Self::Cong => {
                let r: &[usize] = &[0, 1, 2];
                assert(r@ =~= tag_ref_slots(self));
                r
            },
        }
    }

    pub fn is_binder(self) -> (r: bool)
        ensures
            r == tag_is_binder(self),
    {
        matches!(self, Self::Pi | Self::Lam | Self::Hyp)
    }
}

#[derive(Debug, Clone, PartialEq, Eq)]
pub struct DepCell {
    pub tag: DepTag,
    pub args: [i64; 4],
}

impl DepCell {
    pub fn new(tag: DepTag, args: [i64; 4]) -> (r: Self)
        ensures
            r.tag == tag,
            r.args == args,
    {
        Self { tag, args }
    }

    /// An exact copy of this cell.
    pub fn duplicate(&self) -> (r: Self)
        ensures
            r == *self,
    {
        Self { tag: self.tag, args: self.args }
    }
}

#[derive(Debug, Clone, Copy, PartialEq, Eq, Structural)]
pub enum DepVerdict {
    Pass,
    Fail,
    Unknown,
}

/// Verdict join: FAIL dominates UNKNOWN, which dominates PASS.
pub open spec fn verdict_join(a: DepVerdict, b: DepVerdict) -> DepVerdict {
    if a == DepVerdict::Fail || b == DepVerdict::Fail {
        DepVerdict::Fail
    } else if a == DepVerdict::Unknown || b == DepVerdict::Unknown {
        DepVerdict::Unknown
    } else {
        DepVerdict::Pass
    }
}

pub open spec fn verdict_code(v: DepVerdict) -> i64 {
    match v {
        DepVerdict::Pass => 0,
        DepVerdict::Fail => 1,
        DepVerdict::Unknown => 2,
    }
}

impl DepVerdict {
    pub fn dominate(self, other: Self) -> (r: Self)
        ensures
            r == verdict_join(self, other),
    {
        match (self, other) {
            (Self::Fail, _) | (_, Self::Fail) => Self::Fail,
            (Self::Unknown, _) | (_, Self::Unknown) => Self::Unknown,
            _ => Self::Pass,
        }
    }

    pub fn code(self) -> (r: i64)
        ensures
            r == verdict_code(self),
    {
        match self {
            Self::Pass => 0,
            Self::Fail => 1,
            Self::Unknown => 2,
        }
    }

    pub fn from_code(code: i64) -> (r: Option<Self>)
        ensures
            r matches Some(v) ==> verdict_code(v) == code,
            r is None <==> !(0 <= code <= 2),
    {
        match code {
            0 => Some(Self::Pass),
            1 => Some(Self::Fail),
            2 => Some(Self::Unknown),
            _ => None,
        }
    }
}

/// The verdict join is commutative, associative and idempotent, with PASS as
/// unit and FAIL as absorbing element: traversal order never changes the
/// joined verdict of a set of per-cell outcomes.
pub proof fn lemma_verdict_join_laws(a: DepVerdict, b: DepVerdict, c: DepVerdict)
    ensures
        verdict_join(a, b) == verdict_join(b, a),
        verdict_join(verdict_join(a, b), c) == verdict_join(a, verdict_join(b, c)),
        verdict_join(a, a) == a,
        verdict_join(a, DepVerdict::Pass) == a,
        verdict_join(a, DepVerdict::Fail) == DepVerdict::Fail,
{
}

/// Verdict codes round-trip: decoding the code of a verdict gives it back,
/// and only the three verdict codes decode.
pub proof fn lemma_verdict_code_roundtrip(v: DepVerdict)
    ensures
        0 <= verdict_code(v) <= 2,
        forall|w: DepVerdict| verdict_code(w) == verdict_code(v) ==> w == v,
{
}

}
