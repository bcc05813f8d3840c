use mncs_model::{
    corroborate_proof, dep_assumption_set, dep_assumptions, dep_check, dep_probe_defeq,
    dep_probe_eval, CorroborationPolicy, DepArtifact, DepAssumptionSet, DepAssumptionUse, DepCell,
    DepCorroboration, DepTag, DepVerdict,
};

fn cell(tag: DepTag, args: [i64; 4]) -> DepCell {
    DepCell::new(tag, args)
}

fn nat_type() -> DepCell {
    cell(DepTag::Nat, [0, 0, 0, 0])
}

fn zero() -> DepCell {
    cell(DepTag::Zero, [0, 0, 0, 0])
}

fn var(level: i64) -> DepCell {
    cell(DepTag::Var, [level, 0, 0, 0])
}

/// The flagship: Pi (n : Nat). Eq Nat (Plus n Zero) n by induction.
fn flagship_cells() -> Vec<DepCell> {
    vec![
        nat_type(),                                 // 0
        zero(),                                // 1
        var(1),                                // 2 motive n (use A)
        cell(DepTag::Plus, [2, 1, 0, 0]),      // 3 Plus n Zero
        var(1),                                // 4 motive n (use B)
        cell(DepTag::Eq, [0, 3, 4, 0]),        // 5 motive body
        cell(DepTag::Lam, [0, 5, 1, 0]),       // 6 motive
        cell(DepTag::Refl, [1, 0, 0, 0]),      // 7 base
        var(2),                                // 8 k (Plus-A)
        cell(DepTag::Plus, [8, 1, 0, 0]),      // 9 Plus k Zero
        cell(DepTag::Succ, [9, 0, 0, 0]),      // 10 sA
        var(2),                                // 11 k (sB)
        cell(DepTag::Succ, [11, 0, 0, 0]),     // 12 sB
        var(2),                                // 13 k (Plus-B)
        cell(DepTag::Plus, [13, 1, 0, 0]),     // 14 Plus-B
        var(2),                                // 15 k (P-k side)
        cell(DepTag::Eq, [0, 14, 15, 0]),      // 16 P k
        var(3),                                // 17 ih
        cell(DepTag::Cong, [17, 10, 12, 0]),   // 18 step body
        cell(DepTag::Lam, [16, 18, 3, 0]),     // 19 inner step
        cell(DepTag::Lam, [0, 19, 2, 0]),      // 20 outer step
        var(0),                                // 21 target n
        cell(DepTag::NatElim, [6, 7, 20, 21]), // 22
        cell(DepTag::Lam, [0, 22, 0, 0]),      // 23 proof
        var(4),                                // 24 prop n (use A)
        cell(DepTag::Plus, [24, 1, 0, 0]),     // 25
        var(4),                                // 26 prop n (use B)
        cell(DepTag::Eq, [0, 25, 26, 0]),      // 27
        cell(DepTag::Pi, [0, 27, 4, 0]),       // 28 prop
    ]
}

#[test]
fn reference_passes_flagship_plus_zero_right() {
    assert_eq!(dep_check(flagship_cells(), 29, 23, 28), 0);
}

#[test]
fn reference_reports_empty_assumptions_for_flagship() {
    assert_eq!(dep_assumptions(flagship_cells(), 29, 23, 28), 0);
}

#[test]
fn reference_passes_closed_refl() {
    let cells = vec![
        nat_type(),
        zero(),
        cell(DepTag::Eq, [0, 1, 1, 0]),
        cell(DepTag::Refl, [1, 0, 0, 0]),
    ];
    assert_eq!(dep_check(cells, 4, 3, 2), 0);
}

#[test]
fn reference_evaluates_beta_identity() {
    let cells = vec![
        nat_type(),
        zero(),
        var(5),
        cell(DepTag::Lam, [0, 2, 5, 0]),
        cell(DepTag::App, [3, 1, 0, 0]),
    ];
    assert_eq!(dep_probe_eval(cells, 5, 4), 3);
}

#[test]
fn reference_computes_plus_defeq() {
    let cells = vec![
        nat_type(),
        zero(),
        cell(DepTag::Succ, [1, 0, 0, 0]),
        cell(DepTag::Succ, [2, 0, 0, 0]),
        cell(DepTag::Plus, [2, 2, 0, 0]),
        cell(DepTag::Succ, [2, 0, 0, 0]),
    ];
    assert_eq!(dep_probe_defeq(cells, 6, 4, 5), 0);
}

#[test]
fn reference_resolves_nested_lam() {
    let cells = vec![
        nat_type(),
        var(5),
        cell(DepTag::Lam, [0, 1, 6, 0]),
        cell(DepTag::Lam, [0, 2, 5, 0]),
        cell(DepTag::Pi, [0, 0, 7, 0]),
        cell(DepTag::Pi, [0, 4, 8, 0]),
    ];
    assert_eq!(dep_check(cells, 6, 3, 5), 0);
}

#[test]
fn reference_checks_const_family_elim() {
    let cells = vec![
        nat_type(),
        zero(),
        cell(DepTag::Lam, [0, 0, 5, 0]),
        var(7),
        cell(DepTag::Lam, [0, 3, 7, 0]),
        cell(DepTag::Lam, [0, 4, 6, 0]),
        cell(DepTag::NatElim, [2, 1, 5, 1]),
    ];
    assert_eq!(dep_check(cells, 7, 6, 0), 0);
}

#[test]
fn reference_checks_open_proof_and_counts_assumption() {
    let cells = vec![
        nat_type(),
        cell(DepTag::Hyp, [0, 0, 0, 0]),
        var(0),
        var(0),
        var(0),
        cell(DepTag::Refl, [2, 0, 0, 0]),
        cell(DepTag::Eq, [0, 3, 4, 0]),
    ];
    assert_eq!(dep_check(cells.clone(), 7, 5, 6), 0);
    assert_eq!(dep_assumptions(cells, 7, 5, 6), 33i64.pow(5));
}

#[test]
fn reference_fails_undeclared_variable() {
    let cells = vec![nat_type(), var(7)];
    assert_eq!(dep_check(cells, 2, 1, 0), 1);
}

#[test]
fn reference_fails_hyp_as_proof() {
    let cells = vec![nat_type(), cell(DepTag::Hyp, [0, 0, 0, 0])];
    assert_eq!(dep_check(cells, 2, 1, 0), 1);
}

#[test]
fn reference_fails_embedded_hyp() {
    let cells = vec![
        nat_type(),
        cell(DepTag::Hyp, [0, 0, 0, 0]),
        cell(DepTag::Succ, [1, 0, 0, 0]),
    ];
    assert_eq!(dep_check(cells, 3, 2, 0), 1);
}

#[test]
fn reference_fails_dependent_hyp() {
    let cells = vec![
        nat_type(),
        var(3),
        cell(DepTag::Pi, [0, 1, 4, 0]),
        cell(DepTag::Hyp, [3, 2, 0, 0]),
    ];
    assert_eq!(dep_check(cells, 4, 2, 2), 1);
}

fn open_refl_cells() -> Vec<DepCell> {
    vec![
        nat_type(),
        cell(DepTag::Hyp, [0, 0, 0, 0]),
        var(0),
        var(0),
        var(0),
        cell(DepTag::Refl, [2, 0, 0, 0]),
        cell(DepTag::Eq, [0, 3, 4, 0]),
    ]
}

fn flagship_artifact() -> DepArtifact {
    DepArtifact::new(
        "mncs:obligation:plus-zero-right",
        flagship_cells(),
        29,
        23,
        28,
    )
}

fn rust_verdict_of(artifact: &DepArtifact) -> DepVerdict {
    let buffer = artifact.buffer().expect("buffer");
    DepVerdict::from_code(dep_check(
        buffer.cells,
        artifact.count,
        artifact.proof,
        artifact.proposition,
    ))
    .expect("verdict code")
}

/// Corroboration input for the honest path: the issued verdict and set as
/// the admission layer would decode them.
fn honest_mncs_side(artifact: &DepArtifact) -> (DepVerdict, DepAssumptionSet) {
    (rust_verdict_of(artifact), artifact.assumptions.clone())
}

// Policy 1: MNCS PASS + Rust PASS over the exact cells with equal
// canonical sets is the ONLY consumable state.
#[test]
fn corroboration_consumes_mncs_pass_with_rust_agreement() {
    let artifact = flagship_artifact();
    assert!(artifact.identity_is_valid());
    assert!(artifact.assumptions.is_empty_set());
    let (mncs_verdict, mncs_set) = honest_mncs_side(&artifact);
    assert_eq!(mncs_verdict, DepVerdict::Pass);
    let report = corroborate_proof(
        mncs_verdict,
        Some(&mncs_set),
        flagship_cells(),
        29,
        23,
        28,
        Some(rust_verdict_of(&artifact)),
    );
    assert_eq!(report, DepCorroboration::AgreePass);
    assert!(report.consumable());
}

// Policy 2: MNCS PASS disputed by the Rust checker quarantines the
// binding — no consumption until the disagreement is resolved.
#[test]
fn corroboration_refuses_mncs_pass_under_rust_disagreement() {
    let artifact = flagship_artifact();
    let (mncs_verdict, mncs_set) = honest_mncs_side(&artifact);
    assert_eq!(mncs_verdict, DepVerdict::Pass);
    for rust in [DepVerdict::Fail, DepVerdict::Unknown] {
        let report = corroborate_proof(
            mncs_verdict,
            Some(&mncs_set),
            flagship_cells(),
            29,
            23,
            28,
            Some(rust),
        );
        assert_eq!(
            report,
            DepCorroboration::Disagree {
                mncs: DepVerdict::Pass,
                rust
            }
        );
        assert!(!report.consumable());
    }
}

// Policy 3: MNCS UNKNOWN + Rust PASS grants no authority. UNKNOWN never
// upgrades, no matter how confident the second checker is.
#[test]
fn corroboration_never_upgrades_mncs_unknown() {
    let artifact = flagship_artifact();
    let report = corroborate_proof(
        DepVerdict::Unknown,
        Some(&DepAssumptionSet::invalid()),
        flagship_cells(),
        29,
        23,
        28,
        Some(rust_verdict_of(&artifact)),
    );
    assert_eq!(
        report,
        DepCorroboration::Disagree {
            mncs: DepVerdict::Unknown,
            rust: DepVerdict::Pass
        }
    );
    assert!(!report.consumable());
    // Even unanimous UNKNOWN is observable but not consumable.
    let report = corroborate_proof(
        DepVerdict::Unknown,
        Some(&DepAssumptionSet::invalid()),
        flagship_cells(),
        29,
        23,
        28,
        Some(DepVerdict::Unknown),
    );
    assert_eq!(
        report,
        DepCorroboration::AgreeNonPass {
            verdict: DepVerdict::Unknown
        }
    );
    assert!(!report.consumable());
}

// Policy 4: MNCS FAIL + Rust PASS grants no authority. A second checker's
// PASS can never override an MNCS FAIL.
#[test]
fn corroboration_never_overrides_mncs_fail() {
    let artifact = flagship_artifact();
    let report = corroborate_proof(
        DepVerdict::Fail,
        Some(&DepAssumptionSet::invalid()),
        flagship_cells(),
        29,
        23,
        28,
        Some(rust_verdict_of(&artifact)),
    );
    assert_eq!(
        report,
        DepCorroboration::Disagree {
            mncs: DepVerdict::Fail,
            rust: DepVerdict::Pass
        }
    );
    assert!(!report.consumable());
    // Unanimous FAIL is observable but not consumable.
    let report = corroborate_proof(
        DepVerdict::Fail,
        Some(&DepAssumptionSet::invalid()),
        flagship_cells(),
        29,
        23,
        28,
        Some(DepVerdict::Fail),
    );
    assert_eq!(
        report,
        DepCorroboration::AgreeNonPass {
            verdict: DepVerdict::Fail
        }
    );
    assert!(!report.consumable());
}

// Policy 5: Rust checker unavailable + MNCS PASS quarantines under the
// explicit default policy. No silent authority rules are invented: the
// policy value says RequireCorroboration and the report refuses.
#[test]
fn corroboration_quarantines_without_checker_under_explicit_policy() {
    let artifact = flagship_artifact();
    let (mncs_verdict, mncs_set) = honest_mncs_side(&artifact);
    assert_eq!(mncs_verdict, DepVerdict::Pass);
    let policy = CorroborationPolicy::default();
    assert_eq!(policy, CorroborationPolicy::RequireCorroboration);
    let report = corroborate_proof(
        mncs_verdict,
        Some(&mncs_set),
        flagship_cells(),
        29,
        23,
        28,
        None,
    );
    assert_eq!(report, DepCorroboration::CheckerUnavailable);
    assert!(!report.consumable());
}

// Policy 6/7/8/9 (transport legs): mutating the proof cells, the
// obligation, the kernel, or the claimed assumption set breaks either
// the seal or the corroboration inputs, so reuse is refused.
#[test]
fn corroboration_rejects_mutated_proof_cells() {
    let artifact = flagship_artifact();
    let (mncs_verdict, mncs_set) = honest_mncs_side(&artifact);
    let mut tampered = flagship_cells();
    tampered[21] = var(1);
    let rust =
        DepVerdict::from_code(dep_check(tampered.clone(), 29, 23, 28)).expect("verdict code");
    assert_ne!(rust, DepVerdict::Pass);
    let report = corroborate_proof(
        mncs_verdict,
        Some(&mncs_set),
        tampered,
        29,
        23,
        28,
        Some(rust),
    );
    assert!(!report.consumable());
}

#[test]
fn corroboration_rejects_mutated_assumption_claim() {
    let artifact = flagship_artifact();
    let (mncs_verdict, _) = honest_mncs_side(&artifact);
    // Claim the empty flagship set contains an assumption: the
    // recomputed set disagrees, so the binding quarantines.
    let mut claimed = artifact.assumptions.clone();
    claimed.uses.push(DepAssumptionUse {
        hyp: 1,
        level: 0,
        carrier: 0,
    });
    let report = corroborate_proof(
        mncs_verdict,
        Some(&claimed),
        flagship_cells(),
        29,
        23,
        28,
        Some(DepVerdict::Pass),
    );
    assert_eq!(
        report,
        DepCorroboration::Disagree {
            mncs: DepVerdict::Pass,
            rust: DepVerdict::Pass
        }
    );
    assert!(!report.consumable());
}

#[test]
fn canonical_set_records_open_assumptions_exactly() {
    let cells = open_refl_cells();
    let set = dep_assumption_set(cells.clone(), 7, 5, 6);
    assert_eq!(
        set,
        DepAssumptionSet {
            uses: vec![DepAssumptionUse {
                hyp: 1,
                level: 0,
                carrier: 0,
            }],
            valid: true,
        }
    );
    let artifact = DepArtifact::new("mncs:obligation:open-refl", cells, 7, 5, 6);
    assert!(artifact.identity_is_valid());
    assert_eq!(artifact.assumptions, set);
    // The diagnostic projection still reproduces its historical value,
    // but it is no longer consulted by anything authoritative here.
    assert_eq!(
        dep_assumptions(artifact.buffer().expect("buffer").cells, 7, 5, 6),
        33i64.pow(5)
    );
    // PASS + agreement + equal sets consumes, even with assumptions.
    let (mncs_verdict, mncs_set) = honest_mncs_side(&artifact);
    let report = corroborate_proof(
        mncs_verdict,
        Some(&mncs_set),
        open_refl_cells(),
        7,
        5,
        6,
        Some(DepVerdict::Pass),
    );
    assert_eq!(report, DepCorroboration::AgreePass);
    assert!(report.consumable());
}

#[test]
fn canonical_set_distinguishes_level_carrier_and_membership() {
    let open = open_refl_cells();
    let base = dep_assumption_set(open.clone(), 7, 5, 6);
    assert!(base.valid);
    // Removing the assumption use changes the set (the witness no longer
    // mentions the hypothesis, so the proof goes non-PASS and the set
    // goes invalid rather than silently empty).
    let mut closed = open.clone();
    closed[2] = nat_type();
    closed[3] = nat_type();
    closed[4] = nat_type();
    let closed_set = dep_assumption_set(closed, 7, 5, 6);
    assert_ne!(closed_set, base);
    // Changing the declared level changes the set even at the same index.
    let mut releveled = open.clone();
    releveled[1] = cell(DepTag::Hyp, [9, 0, 0, 0]);
    let releveled_set = dep_assumption_set(releveled.clone(), 7, 5, 6);
    assert_ne!(releveled_set, base);
    // Changing the carrier cell changes the set even at the same index.
    let mut recarriered = open.clone();
    recarriered[1] = cell(DepTag::Hyp, [0, 1, 0, 0]);
    let recarriered_set = dep_assumption_set(recarriered.clone(), 7, 5, 6);
    assert_ne!(recarriered_set, base);
    // Non-PASS verdicts yield an invalid set, never an empty-looking one.
    let bad = vec![nat_type(), var(7)];
    let fail_set = dep_assumption_set(bad, 2, 1, 0);
    assert!(!fail_set.valid);
    assert!(!fail_set.is_empty_set());
}


#[test]
fn artifact_seal_rejects_tampered_identity_and_fields() {
    let artifact = flagship_artifact();
    assert!(artifact.identity_is_valid());
    assert!(artifact.identity.starts_with("mncs:proof-dep:"));
    assert_eq!(artifact.identity.len(), "mncs:proof-dep:".len() + 64);
    assert!(artifact.assumptions.is_empty_set());
    let mut tampered = artifact.clone();
    let start = "mncs:proof-dep:".len();
    let flip = if tampered.identity[start..].starts_with('a') { "b" } else { "a" };
    tampered.identity.replace_range(start..start + 1, flip);
    assert!(!tampered.identity_is_valid());
    let mut moved = artifact.clone();
    moved.proof = 22;
    assert!(!moved.identity_is_valid());
    moved.reseal();
    assert!(moved.identity_is_valid());
    assert_ne!(moved.identity, artifact.identity);
    let mut old_schema = artifact.clone();
    old_schema.schema_version = "0.2".to_string();
    old_schema.reseal();
    assert!(!old_schema.identity_is_valid());
}

#[test]
fn artifact_buffer_round_trips_cells() {
    let artifact = flagship_artifact();
    let buffer = artifact.buffer().expect("buffer");
    assert_eq!(buffer.cells, flagship_cells());
    assert_eq!(buffer.count, 29);
    let mut broken = artifact.clone();
    broken.cells[3].tag = "Minus".to_string();
    assert!(broken.buffer().is_none());
}
