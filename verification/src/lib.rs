//! Executable semantic model: proof-kernel reference checkers, machine intent,
//! representation selection, identities, and evidence transport.

pub mod corpus;
pub mod digest;
pub mod evidence;
pub mod frame;
pub mod body_ranges;
pub mod function_body;
pub mod function_obligations;
pub mod graph;
pub mod graph_json;
pub mod identity;
pub mod impact;
pub mod ir;
pub mod json;
pub mod json_parse;
pub mod machine_intent;
pub mod obligations;
pub mod operation_obligations;
pub mod process;
pub mod process_runtime;
pub mod provider;
pub mod proof_dep;
pub mod proof_transport;
pub mod provenance;
pub mod refinement;
pub mod proof_kernel;
pub mod representation;
pub mod ssa;
pub mod text;
pub mod traversal;

pub use corpus::{dep_corpus_cases, proof_corpus_cases};
pub use evidence::{EvidenceFreshness, EvidenceState};
pub use graph::{EdgeKind, GraphEdge, GraphNode, InvalidationReason, InvalidationReport, SemanticGraph};
pub use body_ranges::{body_ranges, range_lookup};
pub use function_body::{
    body_operation_facts, constant_value, BodyBlock, BodyOperation, BodyOperationKind, BodyValue, ScalarType,
};
pub use function_obligations::{
    assumption_ids, bounds_obligation, call_authority_obligation, contract_evidence_obligation,
    declaration_obligations, declared_effect_obligation, DeclaredEffect, Program, FunctionDeclarations, IterationDeclaration, float_finite_obligation, iteration_obligations, operation_intent_obligation,
    runtime_check_obligation, view_range_obligation, BoundedAccess, BoundsEvidence,
};
pub use identity::{
    assumption_id, block_id, capability_id, contract_id, iteration_id, operation_id, decode_component, diff_identities, encode_component, finite_type_id, finite_variant_id, function_id, module_id,
    record_type_id, sorted_unique_ids, IdentityChange, IdentityKind, IdentityRecord, SemanticDiff,
    SemanticId, SemanticIdentities,
};
pub use impact::{ImpactNode, ImpactRisk, SemanticImpact, SEMANTIC_IMPACT_SCHEMA_VERSION};
pub use ir::{
    FailurePathKind, IrBlock, IrOperation, IrOperationKind, IrStateRegion, IrTransition, IrType, IrValue,
    MachineIntentLinks, PathKind, StateRegionKind, TraceEntry, TraceMap, HIGH_LEVEL_IR_SCHEMA_VERSION,
};
pub use json::{JsonNumber, JsonValue};
pub use json_parse::{parse_proof_corpus, parse_proof_dep_corpus};
pub use machine_intent::{
    AlignmentCapability, ArithmeticIntent, BackendPromise, CapabilityUse, BackendPromiseDecision, Fact,
    HighLevelIrNode, IntegerEvaluation, IntegerOperation, IntegerType, Intent,
    MachineIntentExpression, MachinePreference, Obligation, ObligationStatus, Preference,
    Requirement,
};
pub use operation_obligations::{
    function_obligations, operation_obligations, BodyOperationFacts, OperationFacts,
};
pub use obligations::{
    division_obligations, generate_machine_intent_obligations, integer_bounds,
    integer_overflow_obligation, range_interval, range_proves_integer_operation,
    scalar_overflow_obligation, ObligationGeneration, ObligationRecord,
    OBLIGATION_SCHEMA_VERSION,
};
pub use process::{
    CapturedStream, ExitStatus, ProcessError, ProcessRequest, ProcessResult, MAX_ARGUMENTS,
    MAX_ARGUMENT_BYTES, MAX_CAPTURE_BYTES, MAX_DEADLINE_MS, MAX_ENVIRONMENT,
    MAX_ENVIRONMENT_BYTES, MAX_STDIN_BYTES,
};
pub use process_runtime::{
    classify_lifecycle, launch_command, launch_options, LifecycleFacts, OwnedProcessHandle, OwnedProcessRequest,
    ProcessLifecycleStatus, ProcessObservation, ProcessResourceEnvelope, ProcessRuntimeError,
};
pub use proof_dep::artifact::{
    corroborate_proof, run_dep_case, CorroborationPolicy, DepArtifact, DepCellSer,
    DepCorpusCase, DepCorroboration, DepEntry, DEP_ARTIFACT_SCHEMA_VERSION,
};
pub use proof_dep::check::{
    dep_assumption_set, dep_assumptions, dep_check, dep_probe_defeq, dep_probe_eval,
    DepAssumptionSet, DepAssumptionUse,
};
pub use proof_dep::infer::defeq;
pub use proof_dep::shape::DepBuffer;
pub use proof_dep::terms::{
    DepCell, DepTag, DepVerdict, PROOF_DEP_BUFFER_CAPACITY, PROOF_DEP_FUEL, PROOF_DEP_KERNEL_ID,
    PROOF_DEP_MAX_UNIVERSE,
};
pub use proof_dep::value::{ClosureBody, DepClosure, DepEnv, DepVal, Fuel};
pub use proof_kernel::artifact::{
    ProofArtifact, ProofCell, ProofCorpusCase, ProofTag, ProofVerdict, PROOF_ARTIFACT_SCHEMA_VERSION,
    PROOF_BUFFER_CAPACITY, PROOF_KERNEL_ID, PROOF_MAX_UNIVERSE,
};
pub use proof_kernel::range::{
    kernel_backed_range_result, EvidenceAuthorityClass, RangeQuery, VerifierIdentity, VerifierIndependence,
    VerifierMethod, VerifierResult,
};
pub use proof_kernel::reference::{reference_check, ProofBinding};
pub use proof_transport::{
    attach_proof_relationship, proof_binding_refs, record_proof_evidence,
    validate_relationship_for_use,
    ProofAdmissionEvidence, ProofBindingRef, ProofEvidenceOutcome,
    ProofRelationship, TransportMismatch, PROOF_DEPENDENCY_SLOTS, PROOF_EVIDENCE_RULE,
    PROOF_RELATIONSHIP_SCHEMA_VERSION,
};
pub use provenance::{TargetIdentity, TransformationRecord, PROVENANCE_SCHEMA_VERSION};
pub use refinement::{
    AuthorityCapability, AuthorityKind, AuthorityScope, CausalSlice, CausalSliceEdge, Confidence,
    DiagnosticCategory, DiagnosticObligation, PatchOperation, PromotionDecision,
    PromotionDisposition, ProtectedPropertyEvaluation, ProtectedPropertyResult,
    ProtectedPropertyStatus, RefinementBudget, RepairProposal, ResourceLimits, SemanticChange,
    SemanticPatch, VerificationPlan, REFINEMENT_SCHEMA_VERSION,
};
pub use ssa::{
    BodyCyclePolicy, IterationCeilings, IterationDomain, SsaBlock, SsaBoundedIteration, SsaDiagnostic,
    SsaFunction, SsaInstruction, SsaInstructionKind, SsaModule, SsaRecordType, SsaTerminator, SsaTraceEntry, SsaTraceMap,
    SsaTransformationDecision, SsaValidationReport, SsaValue, ELISION_IMPLEMENTATION, ELISION_RULE,
    SSA_SCHEMA_VERSION,
};
pub use representation::{
    select_representation, LayoutFamily, RepresentationCandidate, RepresentationContext,
    RepresentationDecision, RepresentationObservation, SpatialFacts,
};
