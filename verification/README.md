# mncs_model

A verified semantic model for machine-level programs, written in Verus.

- `src/proof_kernel/`: proof artifacts with content seals, the table-driven
  reference checker (`rules.rs` states its typing rules), and proof bindings.
- `src/proof_dep/`: the dependent proof checker (shape, evaluation,
  definitional equality, inference, assumption sets) and corroboration.
- `src/identity.rs`, `src/graph.rs`, `src/graph_json.rs`, `src/traversal.rs`,
  `src/impact.rs`, `src/refinement.rs`: semantic identities, the semantic
  graph and its compact JSON identity, evidence invalidation, impact
  neighborhoods and causal slices.
- `src/machine_intent.rs`, `src/representation.rs`, `src/obligations.rs`,
  `src/provenance.rs`, `src/proof_transport.rs`: integer intent, backend
  promises, representation selection, obligations and evidence transport.
- `src/function_body.rs`, `src/body_ranges.rs`, `src/function_obligations.rs`,
  `src/operation_obligations.rs`: function bodies, the literal table and the
  conservative interval analysis over a body, and the obligations a
  program's functions establish (declared effects, contract evidence,
  bounded iterations, calls, body operations), ordered by identity.
- `src/ir.rs`, `src/ssa.rs`: the high-level IR's operations with their
  machine-intent links; the SSA artifact, its validation (every structural
  error, with reachability and dominance stated declaratively), proof
  relationships and evidence recorded on it, and the evidence-gated
  elision of one overflow check.
- `src/process.rs`, `src/process_runtime.rs`, `src/provider.rs`: request
  validation, bounded output capture, lifecycle classification for
  supervised processes, and reading what the process-tree provider shows.
- `src/corpus.rs`, `src/json.rs`, `src/json_parse.rs`: reading proof corpora
  from their JSON text.
- `app/`: the unverified edge: JSON document serialization, process and
  service-manager I/O.
- `tests/`: executable tests of the library.
