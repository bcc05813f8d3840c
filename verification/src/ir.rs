//! The high-level IR's vocabulary: values, state regions, paths, operations
//! with their machine-intent links, blocks, transitions and trace entries;
//! and the lowering of one machine-intent expression to an IR operation.

use vstd::prelude::*;
use vstd::string::*;

use crate::digest::{sha256_hex, sha256_hex_of};
use crate::graph::copy_ids;
use crate::identity::{id_views, SemanticId};
use crate::machine_intent::{
    id_texts, operation_identity, CapabilityUse, Fact, MachineIntentExpression, MachinePreference, Obligation,
    Requirement,
};
use crate::text::{decimal, push_decimal};

verus! {

pub const HIGH_LEVEL_IR_SCHEMA_VERSION: &'static str = "0.3";

/// The type of an IR or SSA value.
#[derive(Debug, Clone, PartialEq, Eq)]
pub enum IrType {
    Named(String),
}

#[derive(Debug, Clone, PartialEq, Eq)]
pub struct IrValue {
    pub identity: SemanticId,
    pub semantic_identity: Option<SemanticId>,
    pub ty: IrType,
    pub producer: Option<SemanticId>,
}

#[derive(Debug, Clone, Copy, PartialEq, Eq, Structural)]
pub enum StateRegionKind {
    Local,
    External,
    Storage,
    CapabilityControlled,
}

#[derive(Debug, Clone, PartialEq, Eq)]
pub struct IrStateRegion {
    pub identity: SemanticId,
    pub semantic_identity: Option<SemanticId>,
    pub name: String,
    pub kind: StateRegionKind,
    pub capability: Option<SemanticId>,
}

#[derive(Debug, Clone, Copy, PartialEq, Eq, Structural)]
pub enum PathKind {
    Normal,
    Error,
    Compensation,
    Fatal,
}

#[derive(Debug, Clone, Copy, PartialEq, Eq, Structural)]
pub enum FailurePathKind {
    Error,
    Compensation,
    Fatal,
}

/// What an IR operation is: a function entry, an effect, a machine-intent
/// operation or a return.
#[derive(Debug, Clone, Copy, PartialEq, Eq, Structural)]
pub enum IrOperationKind {
    FunctionEntry,
    Effect,
    MachineIntent,
    Return,
}

/// The identities an operation keeps of its machine intent.
#[derive(Debug, Clone, PartialEq, Eq)]
pub struct MachineIntentLinks {
    pub operation_identity: SemanticId,
    pub intent_identity: SemanticId,
    pub fact_identities: Vec<SemanticId>,
    pub preference_identities: Vec<SemanticId>,
    pub requirement_identities: Vec<SemanticId>,
    pub obligation_identities: Vec<SemanticId>,
    pub capability_identities: Vec<SemanticId>,
}

#[derive(Debug, Clone, PartialEq, Eq)]
pub struct IrOperation {
    pub identity: SemanticId,
    pub semantic_identity: Option<SemanticId>,
    pub kind: IrOperationKind,
    pub inputs: Vec<IrValue>,
    pub outputs: Vec<IrValue>,
    pub state_region: Option<SemanticId>,
    pub effects: Vec<SemanticId>,
    pub capability_uses: Vec<CapabilityUse>,
    pub contracts: Vec<SemanticId>,
    pub assumptions: Vec<SemanticId>,
    pub evidence: Vec<SemanticId>,
    pub machine_intent: Option<MachineIntentLinks>,
    pub obligations: Vec<SemanticId>,
}

#[derive(Debug, Clone, PartialEq, Eq)]
pub struct IrBlock {
    pub identity: SemanticId,
    pub path: PathKind,
    pub operations: Vec<IrOperation>,
}

#[derive(Debug, Clone, PartialEq, Eq)]
pub struct IrTransition {
    pub identity: SemanticId,
    pub from: SemanticId,
    pub to: SemanticId,
    pub path: PathKind,
}

#[derive(Debug, Clone, PartialEq, Eq)]
pub struct TraceEntry {
    pub semantic_identity: SemanticId,
    pub graph_node: Option<SemanticId>,
    pub ir_identities: Vec<SemanticId>,
    pub related: Vec<SemanticId>,
}

#[derive(Debug, Clone, PartialEq, Eq)]
pub struct TraceMap {
    pub entries: Vec<TraceEntry>,
}

/// `mncs:0.3:ir:<kind>:<digest of the semantic identity>:<ordinal>`.
pub open spec fn ir_identity_text(kind: Seq<char>, semantic: Seq<char>, ordinal: nat) -> Seq<char> {
    "mncs:0.3:ir:"@ + kind + ":"@ + sha256_hex_of(vstd::utf8::encode_utf8(semantic)) + ":"@ + decimal(ordinal)
}

fn ir_identity(kind: &str, semantic: &SemanticId, ordinal: u64) -> (r: SemanticId)
    ensures
        r.0@ == ir_identity_text(kind@, semantic.0@, ordinal as nat),
{
    let digest = sha256_hex(semantic.0.as_str().as_bytes());
    let mut text = String::from_str("mncs:0.3:ir:").concat(kind).concat(":").concat(digest.as_str());
    text.append(":");
    push_decimal(&mut text, ordinal);
    SemanticId(text)
}

fn preference_identities(preferences: &Vec<MachinePreference>) -> (r: Vec<SemanticId>)
    ensures
        id_views(r@) == preferences@.map_values(|p: MachinePreference| p.identity.0@),
{
    let mut out: Vec<SemanticId> = Vec::new();
    let mut i: usize = 0;
    while i < preferences.len()
        invariant
            i <= preferences@.len(),
            out@.len() == i,
            forall|k: int| 0 <= k < i ==> (#[trigger] out@[k]).0@ == preferences@[k].identity.0@,
        decreases preferences@.len() - i,
    {
        out.push(preferences[i].identity.duplicate());
        i = i + 1;
    }
    assert(id_views(out@) =~= preferences@.map_values(|p: MachinePreference| p.identity.0@));
    out
}

impl MachineIntentExpression {
    /// The IR operation of this expression: a machine-intent operation
    /// whose links keep the operation, the intent, and every fact,
    /// preference, requirement and obligation identity in order, with no
    /// capability; its obligations are the linked ones, and it has no
    /// values, effects, contracts, assumptions or evidence.
    pub fn lower_to_ir_operation(&self) -> (r: IrOperation)
        ensures
            r.identity.0@ == ir_identity_text("machine-intent"@, operation_identity(self.operation), 0),
            r.semantic_identity matches Some(s) && s.0@ == operation_identity(self.operation),
            r.kind == IrOperationKind::MachineIntent,
            r.inputs@.len() == 0,
            r.outputs@.len() == 0,
            r.state_region is None,
            r.effects@.len() == 0,
            r.capability_uses@.len() == 0,
            r.contracts@.len() == 0,
            r.assumptions@.len() == 0,
            r.evidence@.len() == 0,
            r.machine_intent matches Some(links) && {
                &&& links.operation_identity.0@ == operation_identity(self.operation)
                &&& links.intent_identity.0@ == self.intent.identity.0@
                &&& id_views(links.fact_identities@) == self.facts@.map_values(|f: Fact| f.identity.0@)
                &&& id_views(links.preference_identities@) == self.preferences@.map_values(
                    |p: MachinePreference| p.identity.0@,
                )
                &&& id_views(links.requirement_identities@) == self.requirements@.map_values(
                    |q: Requirement| q.identity.0@,
                )
                &&& id_views(links.obligation_identities@) == self.obligations@.map_values(|o: Obligation| o.identity.0@)
                &&& links.capability_identities@.len() == 0
            },
            id_views(r.obligations@) == self.obligations@.map_values(|o: Obligation| o.identity.0@),
    {
        let node = self.lower_to_high_level_ir();
        proof {
            assert(id_views(node.fact_identities@) == id_texts(node.fact_identities@));
            assert(id_views(node.requirement_identities@) == id_texts(node.requirement_identities@));
            assert(id_views(node.obligation_identities@) == id_texts(node.obligation_identities@));
        }
        let identity = ir_identity("machine-intent", &node.operation_identity, 0);
        let obligations = copy_ids(node.obligation_identities.as_slice());
        let links = MachineIntentLinks {
            operation_identity: node.operation_identity.duplicate(),
            intent_identity: node.intent_identity,
            fact_identities: node.fact_identities,
            preference_identities: preference_identities(&self.preferences),
            requirement_identities: node.requirement_identities,
            obligation_identities: node.obligation_identities,
            capability_identities: Vec::new(),
        };
        IrOperation {
            identity,
            semantic_identity: Some(node.operation_identity),
            kind: IrOperationKind::MachineIntent,
            inputs: Vec::new(),
            outputs: Vec::new(),
            state_region: None,
            effects: Vec::new(),
            capability_uses: Vec::new(),
            contracts: Vec::new(),
            assumptions: Vec::new(),
            evidence: Vec::new(),
            machine_intent: Some(links),
            obligations,
        }
    }
}

} // verus!
