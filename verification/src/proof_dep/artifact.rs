use vstd::prelude::*;
use vstd::string::*;

use crate::digest::{sha256_hex, sha256_hex_of};
use crate::frame::{chars_bytes, le_bytes, lemma_skip_step, push_le, push_str, str_frame};

use super::check::{
    assumption_set_spec, assumptions_code, copy_cells, dep_assumption_set, dep_assumptions, dep_check,
    dep_check_verdict, dep_probe_defeq, dep_probe_eval, probe_defeq_code, probe_eval_code,
    DepAssumptionSet, DepAssumptionUse,
};
use super::shape::DepBuffer;
use super::terms::{str_eq, tag_named, verdict_code, DepCell, DepTag, DepVerdict, PROOF_DEP_KERNEL_ID};

verus! {

/// The canonical name of a tag.
pub open spec fn tag_name(tag: DepTag) -> Seq<char> {
    match tag {
        DepTag::Unsupported => "Unsupported"@,
        DepTag::Universe => "Universe"@,
        DepTag::Var => "Var"@,
        DepTag::Pi => "Pi"@,
        DepTag::Lam => "Lam"@,
        DepTag::App => "App"@,
        DepTag::Nat => "Nat"@,
        DepTag::Zero => "Zero"@,
        DepTag::Succ => "Succ"@,
        DepTag::Plus => "Plus"@,
        DepTag::NatElim => "NatElim"@,
        DepTag::Eq => "Eq"@,
        DepTag::Refl => "Refl"@,
        DepTag::Hyp => "Hyp"@,
        DepTag::Cong => "Cong"@,
    }
}

/// Serializable cell: the tag by name.
#[derive(Debug, Clone, PartialEq, Eq)]
pub struct DepCellSer {
    pub tag: String,
    pub args: [i64; 4],
}

impl DepCellSer {
    pub fn name(tag: DepTag) -> (r: &'static str)
        ensures
            r@ == tag_name(tag),
    {
        match tag {
            DepTag::Unsupported => "Unsupported",
            DepTag::Universe => "Universe",
            DepTag::Var => "Var",
            DepTag::Pi => "Pi",
            DepTag::Lam => "Lam",
            DepTag::App => "App",
            DepTag::Nat => "Nat",
            DepTag::Zero => "Zero",
            DepTag::Succ => "Succ",
            DepTag::Plus => "Plus",
            DepTag::NatElim => "NatElim",
            DepTag::Eq => "Eq",
            DepTag::Refl => "Refl",
            DepTag::Hyp => "Hyp",
            DepTag::Cong => "Cong",
        }
    }

    pub fn of(cell: &DepCell) -> (r: Self)
        ensures
            r.tag@ == tag_name(cell.tag),
            r.args@ == cell.args@,
    {
        Self { tag: Self::name(cell.tag).to_owned(), args: cell.args }
    }

    pub fn to_cell(&self) -> (r: Option<DepCell>)
        ensures
            r matches Some(c) ==> tag_named(self.tag@) == Some(c.tag) && c.args@ == self.args@,
            r is None <==> tag_named(self.tag@) is None,
    {
        match DepTag::from_name(self.tag.as_str()) {
            Some(tag) => Some(DepCell::new(tag, self.args)),
            None => None,
        }
    }
}

/// Every tag's canonical name reads back as that tag.
pub proof fn lemma_tag_name_roundtrip(tag: DepTag)
    ensures
        tag_named(tag_name(tag)) == Some(tag),
{
    reveal_strlit("Unsupported");
    reveal_strlit("Universe");
    reveal_strlit("Var");
    reveal_strlit("Pi");
    reveal_strlit("Lam");
    reveal_strlit("Lambda");
    reveal_strlit("App");
    reveal_strlit("Apply");
    reveal_strlit("Nat");
    reveal_strlit("Zero");
    reveal_strlit("Succ");
    reveal_strlit("Plus");
    reveal_strlit("NatElim");
    reveal_strlit("Eq");
    reveal_strlit("Refl");
    reveal_strlit("Hyp");
    reveal_strlit("Cong");
    assert("Unsupported"@.len() == 11 && "Unsupported"@[0] == 'U' && "Unsupported"@[1] == 'n' && "Unsupported"@[2] == 's');
    assert("Universe"@.len() == 8 && "Universe"@[0] == 'U' && "Universe"@[1] == 'n' && "Universe"@[2] == 'i');
    assert("Var"@.len() == 3 && "Var"@[0] == 'V' && "Var"@[1] == 'a' && "Var"@[2] == 'r');
    assert("Pi"@.len() == 2 && "Pi"@[0] == 'P' && "Pi"@[1] == 'i');
    assert("Lam"@.len() == 3 && "Lam"@[0] == 'L' && "Lam"@[1] == 'a' && "Lam"@[2] == 'm');
    assert("Lambda"@.len() == 6 && "Lambda"@[0] == 'L' && "Lambda"@[1] == 'a' && "Lambda"@[2] == 'm');
    assert("App"@.len() == 3 && "App"@[0] == 'A' && "App"@[1] == 'p' && "App"@[2] == 'p');
    assert("Apply"@.len() == 5 && "Apply"@[0] == 'A' && "Apply"@[1] == 'p' && "Apply"@[2] == 'p');
    assert("Nat"@.len() == 3 && "Nat"@[0] == 'N' && "Nat"@[1] == 'a' && "Nat"@[2] == 't');
    assert("Zero"@.len() == 4 && "Zero"@[0] == 'Z' && "Zero"@[1] == 'e' && "Zero"@[2] == 'r');
    assert("Succ"@.len() == 4 && "Succ"@[0] == 'S' && "Succ"@[1] == 'u' && "Succ"@[2] == 'c');
    assert("Plus"@.len() == 4 && "Plus"@[0] == 'P' && "Plus"@[1] == 'l' && "Plus"@[2] == 'u');
    assert("NatElim"@.len() == 7 && "NatElim"@[0] == 'N' && "NatElim"@[1] == 'a' && "NatElim"@[2] == 't');
    assert("Eq"@.len() == 2 && "Eq"@[0] == 'E' && "Eq"@[1] == 'q');
    assert("Refl"@.len() == 4 && "Refl"@[0] == 'R' && "Refl"@[1] == 'e' && "Refl"@[2] == 'f');
    assert("Hyp"@.len() == 3 && "Hyp"@[0] == 'H' && "Hyp"@[1] == 'y' && "Hyp"@[2] == 'p');
    assert("Cong"@.len() == 4 && "Cong"@[0] == 'C' && "Cong"@[1] == 'o' && "Cong"@[2] == 'n');
}


/// A signed integer as its eight two's-complement bytes.
pub open spec fn i64_frame(x: i64) -> Seq<u8> {
    le_bytes((x as u64) as nat, 8)
}

pub open spec fn uses_bytes(s: Seq<DepAssumptionUse>) -> Seq<u8>
    decreases s.len(),
{
    if s.len() == 0 {
        seq![]
    } else {
        i64_frame(s[0].hyp) + i64_frame(s[0].level) + i64_frame(s[0].carrier) + uses_bytes(s.drop_first())
    }
}

pub open spec fn cell_frame(c: DepCellSer) -> Seq<u8> {
    str_frame(c.tag@) + i64_frame(c.args@[0]) + i64_frame(c.args@[1]) + i64_frame(c.args@[2]) + i64_frame(c.args@[3])
}

pub open spec fn cells_bytes(s: Seq<DepCellSer>) -> Seq<u8>
    decreases s.len(),
{
    if s.len() == 0 {
        seq![]
    } else {
        cell_frame(s[0]) + cells_bytes(s.drop_first())
    }
}

/// The sealed material of an artifact: every field but the identity, each
/// framed so that distinct field values give distinct byte strings.
pub open spec fn artifact_material(a: DepArtifact) -> Seq<u8> {
    str_frame(a.schema_version@) + str_frame(a.kernel@) + str_frame(a.obligation@) + le_bytes(
        if a.assumptions.valid { 1nat } else { 0nat },
        1,
    ) + le_bytes(a.assumptions.uses@.len(), 8) + uses_bytes(a.assumptions.uses@) + le_bytes(a.cells@.len(), 8)
        + cells_bytes(a.cells@) + le_bytes(a.count as nat, 8) + le_bytes(a.proof as nat, 8) + le_bytes(
        a.proposition as nat,
        8,
    )
}

/// The content identity an artifact's material seals to.
pub open spec fn seal_of(a: DepArtifact) -> Seq<char> {
    "mncs:proof-dep:"@ + sha256_hex_of(artifact_material(a))
}

fn push_i64(out: &mut Vec<u8>, x: i64)
    ensures
        final(out)@ == old(out)@ + i64_frame(x),
{
    push_le(out, x as u64 as u128, 8);
}

fn push_uses(out: &mut Vec<u8>, uses: &Vec<DepAssumptionUse>)
    ensures
        final(out)@ == old(out)@ + uses_bytes(uses@),
{
    let ghost start = out@;
    let mut i: usize = 0;
    assert(uses@.skip(0) =~= uses@);
    while i < uses.len()
        invariant
            i <= uses@.len(),
            start + uses_bytes(uses@) == out@ + uses_bytes(uses@.skip(i as int)),
        decreases uses@.len() - i,
    {
        proof {
            lemma_skip_step(uses@, i as int);
        }
        let ghost before = out@;
        let u = uses[i];
        push_i64(out, u.hyp);
        push_i64(out, u.level);
        push_i64(out, u.carrier);
        assert(before + uses_bytes(uses@.skip(i as int)) =~= out@ + uses_bytes(uses@.skip(i as int + 1)));
        i = i + 1;
    }
    assert(out@ + uses_bytes(uses@.skip(i as int)) =~= out@);
}

fn push_cells(out: &mut Vec<u8>, cells: &Vec<DepCellSer>)
    ensures
        final(out)@ == old(out)@ + cells_bytes(cells@),
{
    let ghost start = out@;
    let mut i: usize = 0;
    assert(cells@.skip(0) =~= cells@);
    while i < cells.len()
        invariant
            i <= cells@.len(),
            start + cells_bytes(cells@) == out@ + cells_bytes(cells@.skip(i as int)),
        decreases cells@.len() - i,
    {
        proof {
            lemma_skip_step(cells@, i as int);
        }
        let ghost before = out@;
        push_str(out, cells[i].tag.as_str());
        push_i64(out, cells[i].args[0]);
        push_i64(out, cells[i].args[1]);
        push_i64(out, cells[i].args[2]);
        push_i64(out, cells[i].args[3]);
        assert(before + cells_bytes(cells@.skip(i as int)) =~= out@ + cells_bytes(cells@.skip(i as int + 1)));
        i = i + 1;
    }
    assert(out@ + cells_bytes(cells@.skip(i as int)) =~= out@);
}

/// A sealed proof artifact: the exact buffer, the obligation it discharges,
/// and the claimed canonical assumption set. The identity covers every other
/// field, so the `Hyp` declarations inside the buffer are part of it. The
/// recorded assumptions are a claim, not authority: admission re-checks the
/// exact cells.
#[derive(Debug, Clone, PartialEq, Eq)]
pub struct DepArtifact {
    pub schema_version: String,
    pub identity: String,
    pub kernel: String,
    pub obligation: String,
    pub assumptions: DepAssumptionSet,
    pub cells: Vec<DepCellSer>,
    pub count: usize,
    pub proof: usize,
    pub proposition: usize,
}

pub const DEP_ARTIFACT_SCHEMA_VERSION: &'static str = "0.3";

/// The artifact carries the current schema and its identity is the seal of
/// its material.
pub open spec fn identity_valid(a: DepArtifact) -> bool {
    a.schema_version@ == DEP_ARTIFACT_SCHEMA_VERSION@ && a.identity@.len() > 0 && a.identity@ == seal_of(a)
}

/// A sealed artifact whose identity text is altered in transit, every other
/// field kept, no longer validates: the seal covers the identity exactly.
pub proof fn lemma_altered_identity_invalid(a: DepArtifact, b: DepArtifact)
    requires
        identity_valid(a),
        b.identity@ != a.identity@,
        b.schema_version == a.schema_version,
        b.kernel == a.kernel,
        b.obligation == a.obligation,
        b.assumptions == a.assumptions,
        b.cells == a.cells,
        b.count == a.count,
        b.proof == a.proof,
        b.proposition == a.proposition,
    ensures
        !identity_valid(b),
{
    assert(artifact_material(b) == artifact_material(a));
}

fn material(artifact: &DepArtifact) -> (r: Vec<u8>)
    ensures
        r@ == artifact_material(*artifact),
{
    let mut out: Vec<u8> = Vec::new();
    push_str(&mut out, artifact.schema_version.as_str());
    push_str(&mut out, artifact.kernel.as_str());
    push_str(&mut out, artifact.obligation.as_str());
    push_le(&mut out, if artifact.assumptions.valid { 1 } else { 0 }, 1);
    push_le(&mut out, artifact.assumptions.uses.len() as u128, 8);
    push_uses(&mut out, &artifact.assumptions.uses);
    push_le(&mut out, artifact.cells.len() as u128, 8);
    push_cells(&mut out, &artifact.cells);
    push_le(&mut out, artifact.count as u128, 8);
    push_le(&mut out, artifact.proof as u128, 8);
    push_le(&mut out, artifact.proposition as u128, 8);
    assert(out@ =~= artifact_material(*artifact));
    out
}

fn dep_seal(artifact: &DepArtifact) -> (r: String)
    ensures
        r@ == seal_of(*artifact),
{
    let bytes = material(artifact);
    let digest = sha256_hex(bytes.as_slice());
    String::from_str("mncs:proof-dep:").concat(digest.as_str())
}

impl DepArtifact {
    pub fn new(obligation: &str, cells: Vec<DepCell>, count: usize, proof: usize, proposition: usize) -> (r: Self)
        ensures
            r.schema_version@ == DEP_ARTIFACT_SCHEMA_VERSION@,
            r.kernel@ == PROOF_DEP_KERNEL_ID@,
            r.obligation@ == obligation@,
            (r.assumptions.valid, r.assumptions.uses@) == assumption_set_spec(cells@, count, proof, proposition),
            r.cells@.len() == cells@.len(),
            forall|i: int| 0 <= i < cells@.len() ==> (#[trigger] r.cells@[i]).tag@ == tag_name(cells@[i].tag)
                && r.cells@[i].args@ == cells@[i].args@,
            r.count == count,
            r.proof == proof,
            r.proposition == proposition,
            identity_valid(r),
    {
        let assumptions = dep_assumption_set(copy_cells(cells.as_slice()), count, proof, proposition);
        let mut sers: Vec<DepCellSer> = Vec::new();
        let mut i: usize = 0;
        while i < cells.len()
            invariant
                i <= cells@.len(),
                sers@.len() == i,
                forall|j: int| 0 <= j < i ==> (#[trigger] sers@[j]).tag@ == tag_name(cells@[j].tag) && sers@[j].args@ == cells@[j].args@,
            decreases cells@.len() - i,
        {
            sers.push(DepCellSer::of(&cells[i]));
            i = i + 1;
        }
        let mut artifact = Self {
            schema_version: DEP_ARTIFACT_SCHEMA_VERSION.to_owned(),
            identity: String::new(),
            kernel: PROOF_DEP_KERNEL_ID.to_owned(),
            obligation: obligation.to_owned(),
            assumptions,
            cells: sers,
            count,
            proof,
            proposition,
        };
        artifact.identity = dep_seal(&artifact);
        proof {
            reveal_strlit("mncs:proof-dep:");
        }
        artifact
    }

    /// Recompute the content seal after deliberate assembly or
    /// transformation. Resealing never checks anything; it binds the current
    /// material to a fresh identity.
    pub fn reseal(&mut self)
        ensures
            final(self).identity@ == seal_of(*old(self)),
            final(self).schema_version == old(self).schema_version,
            final(self).kernel == old(self).kernel,
            final(self).obligation == old(self).obligation,
            final(self).assumptions == old(self).assumptions,
            final(self).cells == old(self).cells,
            final(self).count == old(self).count,
            final(self).proof == old(self).proof,
            final(self).proposition == old(self).proposition,
    {
        self.identity = dep_seal(self);
    }

    pub fn identity_is_valid(&self) -> (r: bool)
        ensures
            r == identity_valid(*self),
    {
        if !str_eq(self.schema_version.as_str(), DEP_ARTIFACT_SCHEMA_VERSION) || self.identity.unicode_len() == 0 {
            return false;
        }
        let seal = dep_seal(self);
        self.identity == seal
    }

    /// The buffer the artifact carries, if every tag name decodes.
    pub fn buffer(&self) -> (r: Option<DepBuffer>)
        ensures
            r is Some <==> forall|i: int| 0 <= i < self.cells@.len() ==> tag_named(#[trigger] self.cells@[i].tag@) is Some,
            r matches Some(b) ==> b.count == self.count && b.cells@.len() == self.cells@.len() && forall|i: int|
                0 <= i < self.cells@.len() ==> Some((#[trigger] b.cells@[i]).tag) == tag_named(self.cells@[i].tag@)
                    && b.cells@[i].args@ == self.cells@[i].args@,
    {
        let mut cells: Vec<DepCell> = Vec::new();
        let mut i: usize = 0;
        while i < self.cells.len()
            invariant
                i <= self.cells@.len(),
                cells@.len() == i,
                forall|j: int| 0 <= j < i ==> tag_named(#[trigger] self.cells@[j].tag@) is Some,
                forall|j: int|
                    0 <= j < i ==> Some((#[trigger] cells@[j]).tag) == tag_named(self.cells@[j].tag@) && cells@[j].args@
                        == self.cells@[j].args@,
            decreases self.cells@.len() - i,
        {
            match self.cells[i].to_cell() {
                Some(cell) => cells.push(cell),
                None => return None,
            }
            i = i + 1;
        }
        Some(DepBuffer::new(cells, self.count))
    }
}


/// The independent checker's corroboration report: its diagnostic verdict
/// over the exact artifact cells, compared against the issued verdict. It
/// carries no authority: nothing here binds, accepts, or upgrades anything.
#[derive(Debug, Clone, Copy, PartialEq, Eq, Structural)]
pub enum DepCorroboration {
    /// Both sides returned PASS over the exact cells with exactly equal
    /// canonical assumption sets: the only consumable state.
    AgreePass,
    /// Both sides agree on a non-PASS verdict; nothing is consumable.
    AgreeNonPass { verdict: DepVerdict },
    /// The sides disagree (verdict class or assumption set): quarantine.
    Disagree { mncs: DepVerdict, rust: DepVerdict },
    /// The independent checker could not run: the issued verdict stands
    /// alone and uncorroborated, and is never consumed.
    CheckerUnavailable,
}

/// What happens without independent agreement. The only policy requires
/// corroboration: an uncorroborated PASS is recorded but never consumed.
#[derive(Debug, Clone, Copy, PartialEq, Eq, Structural)]
pub enum CorroborationPolicy {
    RequireCorroboration,
}

impl Default for CorroborationPolicy {
    fn default() -> (r: Self)
        ensures
            r == CorroborationPolicy::RequireCorroboration,
    {
        CorroborationPolicy::RequireCorroboration
    }
}

impl DepCorroboration {
    /// Whether an issued binding may be consumed under this report: only
    /// full PASS agreement consumes.
    pub fn consumable(self) -> (r: bool)
        ensures
            r == (self is AgreePass),
    {
        matches!(self, Self::AgreePass)
    }
}

/// The corroboration of an issued verdict and claimed canonical set against
/// an independent re-check (`rust`, `None` when that checker is unavailable).
pub open spec fn corroboration_spec(
    mncs: DepVerdict,
    claimed: Option<(bool, Seq<DepAssumptionUse>)>,
    cells: Seq<DepCell>,
    count: usize,
    proof: usize,
    proposition: usize,
    rust: Option<DepVerdict>,
) -> DepCorroboration {
    match rust {
        None => DepCorroboration::CheckerUnavailable,
        Some(rust_verdict) => if rust_verdict != mncs {
            DepCorroboration::Disagree { mncs, rust: rust_verdict }
        } else if mncs == DepVerdict::Pass {
            let observed = assumption_set_spec(cells, count, proof, proposition);
            let sets_equal = match claimed {
                Some(c) => c.0 && c == observed,
                None => false,
            };
            if observed.0 && sets_equal {
                DepCorroboration::AgreePass
            } else {
                DepCorroboration::Disagree { mncs, rust: rust_verdict }
            }
        } else {
            DepCorroboration::AgreeNonPass { verdict: mncs }
        },
    }
}

/// Compare the issued verdict (and its claimed canonical assumption set)
/// against an independent re-check of the exact artifact cells. A PASS on
/// the re-checking side never upgrades a non-PASS issued verdict.
pub fn corroborate_proof(
    mncs_verdict: DepVerdict,
    mncs_assumptions: Option<&DepAssumptionSet>,
    cells: Vec<DepCell>,
    count: usize,
    proof: usize,
    proposition: usize,
    rust: Option<DepVerdict>,
) -> (r: DepCorroboration)
    ensures
        r == corroboration_spec(
            mncs_verdict,
            match mncs_assumptions {
                Some(c) => Some((c.valid, c.uses@)),
                None => None,
            },
            cells@,
            count,
            proof,
            proposition,
            rust,
        ),
        r.consumable_spec() ==> mncs_verdict == DepVerdict::Pass && rust == Some(DepVerdict::Pass)
            && dep_check_verdict(cells@, count, proof, proposition) == DepVerdict::Pass,
        mncs_verdict != DepVerdict::Pass ==> !r.consumable_spec(),
{
    let rust_verdict = match rust {
        Some(verdict) => verdict,
        None => return DepCorroboration::CheckerUnavailable,
    };
    if rust_verdict != mncs_verdict {
        return DepCorroboration::Disagree { mncs: mncs_verdict, rust: rust_verdict };
    }
    match mncs_verdict {
        DepVerdict::Pass => {
            let observed = dep_assumption_set(cells, count, proof, proposition);
            let sets_equal = match mncs_assumptions {
                Some(claimed) => claimed.valid && claimed.same_as(&observed),
                None => false,
            };
            if observed.valid && sets_equal {
                DepCorroboration::AgreePass
            } else {
                DepCorroboration::Disagree { mncs: mncs_verdict, rust: rust_verdict }
            }
        },
        other => DepCorroboration::AgreeNonPass { verdict: other },
    }
}

impl DepCorroboration {
    pub open spec fn consumable_spec(self) -> bool {
        self is AgreePass
    }
}

/// The entry a corpus case exercises.
#[derive(Debug, Clone, Copy, PartialEq, Eq, Structural)]
pub enum DepEntry {
    Check,
    Assumptions,
    AssumptionSet,
    Eval,
    Defeq,
}

/// One entry of the shared differential corpus.
#[derive(Debug, Clone)]
pub struct DepCorpusCase {
    pub id: String,
    pub entry: DepEntry,
    pub cells: Vec<DepCell>,
    pub count: usize,
    pub first: usize,
    pub second: usize,
    pub expected: i64,
    /// The decoded canonical set a set case expects (`expected` is 0 on
    /// agreement, 1 on divergence).
    pub expected_set: Option<DepAssumptionSet>,
}

/// The result a corpus case computes.
pub open spec fn case_result(case: DepCorpusCase) -> i64 {
    match case.entry {
        DepEntry::Check => verdict_code(dep_check_verdict(case.cells@, case.count, case.first, case.second)),
        DepEntry::Assumptions => assumptions_code(case.cells@, case.count, case.first, case.second),
        DepEntry::AssumptionSet => {
            let observed = assumption_set_spec(case.cells@, case.count, case.first, case.second);
            let agrees = match case.expected_set {
                Some(expected) => (expected.valid, expected.uses@) == observed,
                None => false,
            };
            if agrees { 0 } else { 1 }
        },
        DepEntry::Eval => probe_eval_code(case.cells@, case.count, case.first),
        DepEntry::Defeq => probe_defeq_code(case.cells@, case.count, case.first, case.second),
    }
}

/// Run one shared-corpus case through the reference checker. Set cases
/// return 0 on exact canonical-set agreement, 1 on any divergence.
pub fn run_dep_case(case: &DepCorpusCase) -> (r: i64)
    ensures
        r == case_result(*case),
{
    let cells = copy_cells(case.cells.as_slice());
    match case.entry {
        DepEntry::Check => dep_check(cells, case.count, case.first, case.second),
        DepEntry::Assumptions => dep_assumptions(cells, case.count, case.first, case.second),
        DepEntry::AssumptionSet => {
            let observed = dep_assumption_set(cells, case.count, case.first, case.second);
            let agrees = match &case.expected_set {
                Some(expected) => expected.same_as(&observed),
                None => false,
            };
            if agrees {
                0
            } else {
                1
            }
        },
        DepEntry::Eval => dep_probe_eval(cells, case.count, case.first),
        DepEntry::Defeq => dep_probe_defeq(cells, case.count, case.first, case.second),
    }
}

}
