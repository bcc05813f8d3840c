use mncs_model::{
    dep_corpus_cases, parse_proof_corpus, parse_proof_dep_corpus, proof_corpus_cases, DepEntry, DepTag, JsonNumber, JsonValue, ProofTag,
    ProofVerdict,
};

fn text(s: &str) -> JsonValue {
    JsonValue::Text(s.to_owned())
}

fn object(fields: Vec<(&str, JsonValue)>) -> JsonValue {
    JsonValue::Object(fields.into_iter().map(|(k, v)| (k.to_owned(), v)).collect())
}

fn number(n: i64) -> JsonValue {
    JsonValue::Number(JsonNumber { as_i64: Some(n), as_u64: if n >= 0 { Some(n as u64) } else { None } })
}

fn integer(n: i64) -> JsonValue {
    object(vec![("integer", object(vec![("value", number(n))]))])
}

fn byte(n: i64) -> JsonValue {
    object(vec![("byte", object(vec![("value", number(n))]))])
}

fn cell(tag: &str, args: [i64; 4]) -> JsonValue {
    let mut fields = vec![JsonValue::Array(vec![
        text("tag"),
        object(vec![("finite", object(vec![("variant_identity", text(&format!("mncs:0.2:finite-variant:Kernel::Tag::{tag}")))]))]),
    ])];
    for (slot, value) in args.iter().enumerate() {
        fields.push(JsonValue::Array(vec![text(&format!("arg{slot}")), integer(*value)]));
    }
    object(vec![("record", object(vec![("fields", JsonValue::Array(fields))]))])
}

fn buffer(cells: usize, tag: &str) -> JsonValue {
    object(vec![(
        "sequence",
        object(vec![("values", JsonValue::Array((0..cells).map(|_| cell(tag, [0, 0, 0, 0])).collect()))]),
    )])
}

fn proof_case(id: &str, cells: usize, expected: i64) -> JsonValue {
    object(vec![
        ("case_id", text(id)),
        ("request", object(vec![("arguments", JsonValue::Array(vec![buffer(cells, "Nat"), byte(1), byte(0), byte(0)]))])),
        ("expected", JsonValue::Array(vec![integer(expected)])),
    ])
}

#[test]
fn proof_corpus_reads_cells_indices_and_expectations() {
    let document = object(vec![("cases", JsonValue::Array(vec![proof_case("a", 16, 0), proof_case("b", 16, 7)]))]);
    let cases = proof_corpus_cases(&document).expect("corpus");
    assert_eq!(cases.len(), 2);
    assert_eq!(cases[0].id, "a");
    assert_eq!(cases[0].cells.len(), 16);
    assert_eq!(cases[0].cells[0].tag, ProofTag::Nat);
    assert_eq!(cases[0].count, 1);
    assert_eq!(cases[0].expected, Some(ProofVerdict::Pass));
    assert_eq!(cases[1].expected, None);
}

#[test]
fn proof_corpus_reports_the_first_malformed_case() {
    let missing = object(vec![("other", JsonValue::Null)]);
    assert_eq!(proof_corpus_cases(&missing).unwrap_err(), "corpus has no cases array");
    let short = object(vec![("cases", JsonValue::Array(vec![proof_case("a", 16, 0), proof_case("short", 3, 0)]))]);
    assert_eq!(proof_corpus_cases(&short).unwrap_err(), "short: buffer is not 16 cells");
    let anonymous = object(vec![("cases", JsonValue::Array(vec![object(vec![("id", number(3))])]))]);
    assert_eq!(proof_corpus_cases(&anonymous).unwrap_err(), "case has no id");
    let mut bad_cell = proof_case("c", 16, 0);
    if let JsonValue::Object(fields) = &mut bad_cell {
        fields[1].1 = object(vec![("arguments", JsonValue::Array(vec![buffer(16, "Bogus"), byte(1), byte(0), byte(0)]))]);
    }
    let document = object(vec![("cases", JsonValue::Array(vec![bad_cell]))]);
    assert_eq!(proof_corpus_cases(&document).unwrap_err(), "c: bad cell");
}

fn dep_case(id: &str, function: &str, expected: JsonValue) -> JsonValue {
    object(vec![
        ("id", text(id)),
        (
            "request",
            object(vec![
                ("target", object(vec![("function", text(function))])),
                ("arguments", JsonValue::Array(vec![buffer(32, "Lambda"), byte(2), byte(1), byte(0)])),
            ]),
        ),
        ("expected", JsonValue::Array(vec![expected])),
    ])
}

fn sequence(values: &[i64]) -> JsonValue {
    object(vec![("sequence", object(vec![("values", JsonValue::Array(values.iter().map(|v| integer(*v)).collect()))]))])
}

#[test]
fn dep_corpus_reads_entries_and_assumption_sets() {
    let set = object(vec![(
        "record",
        object(vec![(
            "fields",
            JsonValue::Array(vec![
                JsonValue::Array(vec![text("count"), integer(1)]),
                JsonValue::Array(vec![text("valid"), object(vec![("boolean", object(vec![("value", JsonValue::Bool(true))]))])]),
                JsonValue::Array(vec![text("hyp"), sequence(&[4, 9])]),
                JsonValue::Array(vec![text("level"), sequence(&[1, 2])]),
                JsonValue::Array(vec![text("carrier"), sequence(&[0, 3])]),
            ]),
        )]),
    )]);
    let document = object(vec![(
        "cases",
        JsonValue::Array(vec![
            dep_case("check", "check_proof_code", integer(1)),
            dep_case("set", "assumption_set", set),
            dep_case("eval", "probe_eval_code", integer(2)),
        ]),
    )]);
    let cases = dep_corpus_cases(&document).expect("corpus");
    assert_eq!(cases.len(), 3);
    assert_eq!(cases[0].entry, DepEntry::Check);
    assert_eq!(cases[0].cells[0].tag, DepTag::Lam);
    assert_eq!((cases[0].count, cases[0].first, cases[0].second, cases[0].expected), (2, 1, 0, 1));
    let expected_set = cases[1].expected_set.as_ref().expect("set");
    assert_eq!(expected_set.uses.len(), 1);
    assert_eq!((expected_set.uses[0].hyp, expected_set.uses[0].level, expected_set.uses[0].carrier), (4, 1, 0));
    assert!(expected_set.valid);
    assert_eq!(cases[1].expected, 0);
    assert_eq!(cases[2].entry, DepEntry::Eval);
    assert_eq!(cases[2].second, 0);
}

#[test]
fn dep_corpus_names_unknown_entries() {
    let document = object(vec![("cases", JsonValue::Array(vec![dep_case("x", "mystery", integer(0))]))]);
    assert_eq!(dep_corpus_cases(&document).unwrap_err(), "x: unknown entry mystery");
    let no_request = object(vec![("cases", JsonValue::Array(vec![object(vec![("id", text("y"))])]))]);
    assert_eq!(dep_corpus_cases(&no_request).unwrap_err(), "y: no request");
}

fn cell_text(tag: &str) -> String {
    let mut fields = vec![format!(
        r#"["tag",{{"finite":{{"variant_identity":"mncs:0.2:finite-variant:Kernel::Tag::{tag}"}}}}]"#
    )];
    for slot in 0..4 {
        fields.push(format!(r#"["arg{slot}",{{"integer":{{"value":0}}}}]"#));
    }
    format!(r#"{{"record":{{"fields":[{}]}}}}"#, fields.join(","))
}

#[test]
fn corpora_are_read_from_their_json_text() {
    let cells: Vec<String> = (0..16).map(|_| cell_text("Nat")).collect();
    let text = format!(
        r#"{{"cases":[{{"case_id":"t","request":{{"arguments":[{{"sequence":{{"values":[{}]}}}},{{"byte":{{"value":1}}}},{{"byte":{{"value":0}}}},{{"byte":{{"value":0}}}}]}},"expected":[{{"integer":{{"value":7}}}}]}}]}}"#,
        cells.join(",")
    );
    let cases = parse_proof_corpus(&text).expect("corpus");
    assert_eq!(cases.len(), 1);
    assert_eq!(cases[0].id, "t");
    assert_eq!(cases[0].cells.len(), 16);
    assert_eq!(cases[0].cells[0].tag, ProofTag::Nat);
    assert!(parse_proof_corpus(r#"{"cases":[]}"#).unwrap().is_empty());
    assert_eq!(parse_proof_corpus("{}").unwrap_err(), "corpus has no cases array");
    assert!(parse_proof_corpus("not json").unwrap_err().starts_with("corpus JSON: "));
    assert!(parse_proof_dep_corpus("[1,").unwrap_err().starts_with("corpus JSON: "));
    assert_eq!(parse_proof_dep_corpus("{}").unwrap_err(), "corpus has no cases array");
    assert!(parse_proof_dep_corpus(r#"{"cases":[]}"#).unwrap().is_empty());
}
