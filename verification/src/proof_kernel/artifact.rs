use vstd::prelude::*;
use vstd::string::*;

use crate::digest::{sha256_hex, sha256_hex_of};
use crate::frame::{le_bytes, lemma_skip_step, push_le, push_str, str_frame};
use crate::identity::{id_views, sorted_unique_ids, strictly_sorted, SemanticId};
use crate::text::text_eq;

verus! {

pub const PROOF_KERNEL_ID: &'static str = "mncs:proof-kernel:0.1";

pub const PROOF_ARTIFACT_SCHEMA_VERSION: &'static str = "0.1";

pub const PROOF_MAX_UNIVERSE: i64 = 3;

pub const PROOF_BUFFER_CAPACITY: usize = 16;

#[derive(Debug, Clone, Copy, PartialEq, Eq, Structural)]
pub enum ProofTag {
    Universe,
    Var,
    Pi,
    Lambda,
    Apply,
    Nat,
    Zero,
    Succ,
    Plus,
    NatElim,
    Eq,
    Refl,
    Unsupported,
}

pub open spec fn proof_tag_code(tag: ProofTag) -> i64 {
    match tag {
        ProofTag::Universe => 1,
        ProofTag::Var => 2,
        ProofTag::Pi => 3,
        ProofTag::Lambda => 4,
        ProofTag::Apply => 5,
        ProofTag::Nat => 6,
        ProofTag::Zero => 7,
        ProofTag::Succ => 8,
        ProofTag::Plus => 9,
        ProofTag::NatElim => 10,
        ProofTag::Eq => 11,
        ProofTag::Refl => 12,
        ProofTag::Unsupported => 0,
    }
}

pub open spec fn proof_tag_named(name: Seq<char>) -> Option<ProofTag> {
    if name == "Universe"@ {
        Some(ProofTag::Universe)
    } else if name == "Var"@ {
        Some(ProofTag::Var)
    } else if name == "Pi"@ {
        Some(ProofTag::Pi)
    } else if name == "Lambda"@ {
        Some(ProofTag::Lambda)
    } else if name == "Apply"@ {
        Some(ProofTag::Apply)
    } else if name == "Nat"@ {
        Some(ProofTag::Nat)
    } else if name == "Zero"@ {
        Some(ProofTag::Zero)
    } else if name == "Succ"@ {
        Some(ProofTag::Succ)
    } else if name == "Plus"@ {
        Some(ProofTag::Plus)
    } else if name == "NatElim"@ {
        Some(ProofTag::NatElim)
    } else if name == "Eq"@ {
        Some(ProofTag::Eq)
    } else if name == "Refl"@ {
        Some(ProofTag::Refl)
    } else if name == "Unsupported"@ {
        Some(ProofTag::Unsupported)
    } else {
        None
    }
}

impl ProofTag {
    pub fn from_name(name: &str) -> (r: Option<Self>)
        ensures
            r == proof_tag_named(name@),
    {
        if text_eq(name, "Universe") {
            Some(Self::Universe)
        } else if text_eq(name, "Var") {
            Some(Self::Var)
        } else if text_eq(name, "Pi") {
            Some(Self::Pi)
        } else if text_eq(name, "Lambda") {
            Some(Self::Lambda)
        } else if text_eq(name, "Apply") {
            Some(Self::Apply)
        } else if text_eq(name, "Nat") {
            Some(Self::Nat)
        } else if text_eq(name, "Zero") {
            Some(Self::Zero)
        } else if text_eq(name, "Succ") {
            Some(Self::Succ)
        } else if text_eq(name, "Plus") {
            Some(Self::Plus)
        } else if text_eq(name, "NatElim") {
            Some(Self::NatElim)
        } else if text_eq(name, "Eq") {
            Some(Self::Eq)
        } else if text_eq(name, "Refl") {
            Some(Self::Refl)
        } else if text_eq(name, "Unsupported") {
            Some(Self::Unsupported)
        } else {
            None
        }
    }

    pub fn code(self) -> (r: i64)
        ensures
            r == proof_tag_code(self),
    {
        match self {
            Self::Universe => 1,
            Self::Var => 2,
            Self::Pi => 3,
            Self::Lambda => 4,
            Self::Apply => 5,
            Self::Nat => 6,
            Self::Zero => 7,
            Self::Succ => 8,
            Self::Plus => 9,
            Self::NatElim => 10,
            Self::Eq => 11,
            Self::Refl => 12,
            Self::Unsupported => 0,
        }
    }

    pub fn is_binder(self) -> (r: bool)
        ensures
            r == (self == ProofTag::Pi || self == ProofTag::Lambda),
    {
        matches!(self, Self::Pi | Self::Lambda)
    }
}

#[derive(Debug, Clone, PartialEq, Eq)]
pub struct ProofCell {
    pub tag: ProofTag,
    pub args: [i64; 4],
}

impl ProofCell {
    pub fn new(tag: ProofTag, args: [i64; 4]) -> (r: Self)
        ensures
            r.tag == tag,
            r.args@ == args@,
    {
        Self { tag, args }
    }
}

#[derive(Debug, Clone, Copy, PartialEq, Eq, Structural)]
pub enum ProofVerdict {
    Pass,
    Fail,
    Unknown,
}

/// The verdict join: FAIL dominates UNKNOWN, which dominates PASS.
pub open spec fn proof_join(a: ProofVerdict, b: ProofVerdict) -> ProofVerdict {
    if a == ProofVerdict::Fail || b == ProofVerdict::Fail {
        ProofVerdict::Fail
    } else if a == ProofVerdict::Unknown || b == ProofVerdict::Unknown {
        ProofVerdict::Unknown
    } else {
        ProofVerdict::Pass
    }
}

impl ProofVerdict {
    pub fn dominate(self, other: Self) -> (r: Self)
        ensures
            r == proof_join(self, other),
    {
        match (self, other) {
            (Self::Fail, _) | (_, Self::Fail) => Self::Fail,
            (Self::Unknown, _) | (_, Self::Unknown) => Self::Unknown,
            _ => Self::Pass,
        }
    }

    pub fn code(self) -> (r: i64)
        ensures
            r == (match self {
                ProofVerdict::Pass => 0i64,
                ProofVerdict::Fail => 1i64,
                ProofVerdict::Unknown => 2i64,
            }),
    {
        match self {
            Self::Pass => 0,
            Self::Fail => 1,
            Self::Unknown => 2,
        }
    }
}

/// A proof artifact: the exact cells, the obligation they discharge, and
/// the assumptions and dependencies they were checked under. The identity
/// seals every other field.
#[derive(Debug, Clone, PartialEq, Eq)]
pub struct ProofArtifact {
    pub schema_version: String,
    pub identity: SemanticId,
    pub kernel: String,
    pub obligation: SemanticId,
    pub assumptions: Vec<SemanticId>,
    pub dependencies: Vec<SemanticId>,
    pub cells: Vec<ProofCell>,
    pub count: usize,
    pub proof: usize,
    pub proposition: usize,
}

pub open spec fn i64_bytes(x: i64) -> Seq<u8> {
    le_bytes((x as u64) as nat, 8)
}

pub open spec fn ids_bytes(ids: Seq<SemanticId>) -> Seq<u8>
    decreases ids.len(),
{
    if ids.len() == 0 {
        seq![]
    } else {
        str_frame(ids[0].0@) + ids_bytes(ids.drop_first())
    }
}

pub open spec fn proof_cells_bytes(cells: Seq<ProofCell>) -> Seq<u8>
    decreases cells.len(),
{
    if cells.len() == 0 {
        seq![]
    } else {
        i64_bytes(proof_tag_code(cells[0].tag)) + i64_bytes(cells[0].args@[0]) + i64_bytes(cells[0].args@[1]) + i64_bytes(
            cells[0].args@[2],
        ) + i64_bytes(cells[0].args@[3]) + proof_cells_bytes(cells.drop_first())
    }
}

/// The sealed material: every field but the identity, framed.
pub open spec fn proof_material(a: ProofArtifact) -> Seq<u8> {
    str_frame(a.schema_version@) + str_frame(a.kernel@) + str_frame(a.obligation.0@) + le_bytes(
        a.assumptions@.len() as nat,
        8,
    ) + ids_bytes(a.assumptions@) + le_bytes(a.dependencies@.len() as nat, 8) + ids_bytes(a.dependencies@) + le_bytes(
        a.cells@.len() as nat,
        8,
    ) + proof_cells_bytes(a.cells@) + le_bytes(a.count as nat, 8) + le_bytes(a.proof as nat, 8) + le_bytes(
        a.proposition as nat,
        8,
    )
}

/// `mncs:proof:<digest of the material>`.
pub open spec fn proof_seal(a: ProofArtifact) -> Seq<char> {
    "mncs:proof:"@ + sha256_hex_of(proof_material(a))
}

/// The artifact carries the current schema and its identity is its seal.
pub open spec fn proof_identity_valid(a: ProofArtifact) -> bool {
    a.schema_version@ == PROOF_ARTIFACT_SCHEMA_VERSION@ && a.identity.0@.len() > 0 && a.identity.0@ == proof_seal(a)
}

/// A sealed proof artifact whose identity text is altered, every other field
/// kept, no longer validates.
pub proof fn lemma_altered_proof_identity_invalid(a: ProofArtifact, b: ProofArtifact)
    requires
        proof_identity_valid(a),
        b.identity.0@ != a.identity.0@,
        b.schema_version == a.schema_version,
        b.kernel == a.kernel,
        b.obligation == a.obligation,
        b.assumptions == a.assumptions,
        b.dependencies == a.dependencies,
        b.cells == a.cells,
        b.count == a.count,
        b.proof == a.proof,
        b.proposition == a.proposition,
    ensures
        !proof_identity_valid(b),
{
    assert(proof_material(b) == proof_material(a));
}

fn push_i64(out: &mut Vec<u8>, x: i64)
    ensures
        final(out)@ == old(out)@ + i64_bytes(x),
{
    push_le(out, x as u64 as u128, 8);
}

fn push_ids(out: &mut Vec<u8>, ids: &Vec<SemanticId>)
    ensures
        final(out)@ == old(out)@ + ids_bytes(ids@),
{
    let ghost start = out@;
    let mut i: usize = 0;
    assert(ids@.skip(0) =~= ids@);
    while i < ids.len()
        invariant
            i <= ids@.len(),
            start + ids_bytes(ids@) == out@ + ids_bytes(ids@.skip(i as int)),
        decreases ids@.len() - i,
    {
        proof {
            lemma_skip_step(ids@, i as int);
        }
        let ghost before = out@;
        push_str(out, ids[i].0.as_str());
        assert(before + ids_bytes(ids@.skip(i as int)) =~= out@ + ids_bytes(ids@.skip(i as int + 1)));
        i = i + 1;
    }
    assert(out@ + ids_bytes(ids@.skip(i as int)) =~= out@);
}

fn push_cells(out: &mut Vec<u8>, cells: &Vec<ProofCell>)
    ensures
        final(out)@ == old(out)@ + proof_cells_bytes(cells@),
{
    let ghost start = out@;
    let mut i: usize = 0;
    assert(cells@.skip(0) =~= cells@);
    while i < cells.len()
        invariant
            i <= cells@.len(),
            start + proof_cells_bytes(cells@) == out@ + proof_cells_bytes(cells@.skip(i as int)),
        decreases cells@.len() - i,
    {
        proof {
            lemma_skip_step(cells@, i as int);
        }
        let ghost before = out@;
        push_i64(out, cells[i].tag.code());
        push_i64(out, cells[i].args[0]);
        push_i64(out, cells[i].args[1]);
        push_i64(out, cells[i].args[2]);
        push_i64(out, cells[i].args[3]);
        assert(before + proof_cells_bytes(cells@.skip(i as int)) =~= out@ + proof_cells_bytes(cells@.skip(i as int + 1)));
        i = i + 1;
    }
    assert(out@ + proof_cells_bytes(cells@.skip(i as int)) =~= out@);
}

fn material(artifact: &ProofArtifact) -> (r: Vec<u8>)
    ensures
        r@ == proof_material(*artifact),
{
    let mut out: Vec<u8> = Vec::new();
    push_str(&mut out, artifact.schema_version.as_str());
    push_str(&mut out, artifact.kernel.as_str());
    push_str(&mut out, artifact.obligation.0.as_str());
    push_le(&mut out, artifact.assumptions.len() as u128, 8);
    push_ids(&mut out, &artifact.assumptions);
    push_le(&mut out, artifact.dependencies.len() as u128, 8);
    push_ids(&mut out, &artifact.dependencies);
    push_le(&mut out, artifact.cells.len() as u128, 8);
    push_cells(&mut out, &artifact.cells);
    push_le(&mut out, artifact.count as u128, 8);
    push_le(&mut out, artifact.proof as u128, 8);
    push_le(&mut out, artifact.proposition as u128, 8);
    assert(out@ =~= proof_material(*artifact));
    out
}

fn seal_text(artifact: &ProofArtifact) -> (r: String)
    ensures
        r@ == proof_seal(*artifact),
{
    let bytes = material(artifact);
    let digest = sha256_hex(bytes.as_slice());
    String::from_str("mncs:proof:").concat(digest.as_str())
}

impl ProofArtifact {
    /// An artifact over the given cells; assumptions and dependencies are
    /// kept sorted with duplicates removed, and the identity is sealed.
    pub fn new(
        kernel: &str,
        obligation: SemanticId,
        assumptions: Vec<SemanticId>,
        dependencies: Vec<SemanticId>,
        cells: Vec<ProofCell>,
        count: usize,
        proof: usize,
        proposition: usize,
    ) -> (r: Self)
        ensures
            r.schema_version@ == PROOF_ARTIFACT_SCHEMA_VERSION@,
            r.kernel@ == kernel@,
            r.obligation.0@ == obligation.0@,
            strictly_sorted(id_views(r.assumptions@)),
            forall|t: Seq<char>| id_views(r.assumptions@).contains(t) <==> id_views(assumptions@).contains(t),
            strictly_sorted(id_views(r.dependencies@)),
            forall|t: Seq<char>| id_views(r.dependencies@).contains(t) <==> id_views(dependencies@).contains(t),
            r.cells@ == cells@,
            r.count == count,
            r.proof == proof,
            r.proposition == proposition,
            proof_identity_valid(r),
    {
        let assumptions = sorted_unique_ids(&assumptions);
        let dependencies = sorted_unique_ids(&dependencies);
        let mut artifact = Self {
            schema_version: PROOF_ARTIFACT_SCHEMA_VERSION.to_owned(),
            identity: SemanticId(String::new()),
            kernel: kernel.to_owned(),
            obligation,
            assumptions,
            dependencies,
            cells,
            count,
            proof,
            proposition,
        };
        artifact.seal();
        proof {
            reveal_strlit("mncs:proof:");
        }
        artifact
    }

    /// Bind the identity to the current material.
    pub fn seal(&mut self)
        ensures
            final(self).identity.0@ == proof_seal(*old(self)),
            final(self).schema_version == old(self).schema_version,
            final(self).kernel == old(self).kernel,
            final(self).obligation == old(self).obligation,
            final(self).assumptions == old(self).assumptions,
            final(self).dependencies == old(self).dependencies,
            final(self).cells == old(self).cells,
            final(self).count == old(self).count,
            final(self).proof == old(self).proof,
            final(self).proposition == old(self).proposition,
    {
        self.identity = SemanticId(String::new());
        let text = seal_text(self);
        self.identity = SemanticId(text);
    }

    pub fn identity_is_valid(&self) -> (r: bool)
        ensures
            r == proof_identity_valid(*self),
    {
        if !text_eq(self.schema_version.as_str(), PROOF_ARTIFACT_SCHEMA_VERSION) || self.identity.0.unicode_len() == 0 {
            return false;
        }
        let text = seal_text(self);
        self.identity.0 == text
    }
}

/// One case of the proof-kernel corpus: an artifact's cells and indices,
/// and the pinned verdict of a curated case (`None` for generated cases,
/// where the reference checker is the oracle).
#[derive(Debug, Clone)]
pub struct ProofCorpusCase {
    pub id: String,
    pub cells: Vec<ProofCell>,
    pub count: usize,
    pub proof: usize,
    pub proposition: usize,
    pub expected: Option<ProofVerdict>,
}

} // verus!
