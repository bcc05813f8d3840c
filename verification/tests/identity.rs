use mncs_model::{
    contract_id, decode_component, diff_identities, encode_component, finite_type_id, finite_variant_id, function_id,
    module_id, record_type_id, IdentityChange, IdentityKind, IdentityRecord, SemanticId,
    SemanticIdentities,
};

#[test]
fn record_type_identity_is_canonical_in_field_order() {
    let sorted = record_type_id("m", "R", &[("a", "i32"), ("b", "i32")]);
    let permuted = record_type_id("m", "R", &[("b", "i32"), ("a", "i32")]);
    assert_eq!(sorted, permuted);
    let different_field_type = record_type_id("m", "R", &[("a", "i64"), ("b", "i32")]);
    assert_ne!(sorted, different_field_type);
    let different_name = record_type_id("m", "S", &[("a", "i32"), ("b", "i32")]);
    assert_ne!(sorted, different_name);
}

#[test]
fn record_type_ids_use_the_record_kind_namespace() {
    let identity = record_type_id("m", "R", &[("a", "i32")]);
    assert!(identity.0.contains(":record-type:"));
    assert!(!identity.0.contains(":finite-type:"));
    let _ = IdentityKind::Program;
}

#[test]
fn record_type_identity_joins_sorted_fields() {
    let identity = record_type_id("m", "R", &[("b", "u8"), ("a", "i32")]);
    assert_eq!(identity.0, "mncs:0.2:record-type:m::R::a%3Ai32%3Bb%3Au8%3B");
}

#[test]
fn identities_are_namespaced_and_percent_encoded() {
    assert_eq!(module_id("billing").0, "mncs:0.2:module:billing");
    assert_eq!(module_id("a b/c").0, "mncs:0.2:module:a%20b%2Fc");
    assert_eq!(finite_type_id("m", "Color").0, "mncs:0.2:finite-type:m::Color");
    assert_eq!(finite_variant_id("m", "Color", "Red").0, "mncs:0.2:finite-variant:m::Color::Red");
    assert_eq!(function_id("m", "pay").0, "mncs:0.2:function:m::pay");
    assert_eq!(contract_id("m", "pay", "amount >= 0").0, "mncs:0.2:contract:m::pay::amount%20%3E%3D%200");
    assert_eq!(module_id("é").0, "mncs:0.2:module:%C3%A9");
}

#[test]
fn decoding_inverts_encoding() {
    for text in ["billing", "a b/c", "é", "x::y", "100%", ""] {
        let identity = module_id(text);
        let component = identity.0.strip_prefix("mncs:0.2:module:").unwrap();
        assert_eq!(decode_component(component), Some(text.to_owned()));
        assert_eq!(identity.module_name(), Some(text.to_owned()));
    }
}

#[test]
fn decoding_refuses_malformed_escapes() {
    assert_eq!(decode_component("%4"), None);
    assert_eq!(decode_component("%zz"), None);
    assert_eq!(decode_component("%FF"), None);
    assert_eq!(decode_component("plain"), Some("plain".to_owned()));
    assert_eq!(decode_component("%41b"), Some("Ab".to_owned()));
}

#[test]
fn module_name_is_only_for_module_identities() {
    assert_eq!(function_id("m", "f").module_name(), None);
    assert_eq!(SemanticId("mncs:0.2:module:%zz".to_owned()).module_name(), None);
}

fn record(identity: &str, kind: IdentityKind, fingerprint: &str) -> IdentityRecord {
    IdentityRecord {
        identity: SemanticId(identity.to_owned()),
        kind,
        fingerprint: fingerprint.to_owned(),
    }
}

fn identities(objects: Vec<IdentityRecord>) -> SemanticIdentities {
    SemanticIdentities { schema_version: "0.2".to_owned(), objects }
}

#[test]
fn identity_diff_reports_added_removed_and_changed_in_identity_order() {
    let before = identities(vec![
        record("mncs:0.2:function:m::f", IdentityKind::Function, "f1"),
        record("mncs:0.2:contract:m::f::c", IdentityKind::Contract, "c1"),
        record("mncs:0.2:module:m", IdentityKind::Module, "m1"),
    ]);
    let after = identities(vec![
        record("mncs:0.2:module:m", IdentityKind::Module, "m1"),
        record("mncs:0.2:function:m::g", IdentityKind::Function, "g1"),
        record("mncs:0.2:contract:m::f::c", IdentityKind::Contract, "c2"),
    ]);
    let diff = diff_identities(&before, &after);
    assert_eq!(diff.added, vec![record("mncs:0.2:function:m::g", IdentityKind::Function, "g1")]);
    assert_eq!(diff.removed, vec![record("mncs:0.2:function:m::f", IdentityKind::Function, "f1")]);
    assert_eq!(
        diff.changed,
        vec![IdentityChange {
            identity: SemanticId("mncs:0.2:contract:m::f::c".to_owned()),
            before: "c1".to_owned(),
            after: "c2".to_owned(),
        }]
    );
    let same = diff_identities(&before, &before);
    assert!(same.added.is_empty() && same.removed.is_empty() && same.changed.is_empty());
}

#[test]
fn identity_diff_lets_a_later_listing_override_an_earlier_one() {
    let before = identities(vec![record("b", IdentityKind::Value, "1"), record("a", IdentityKind::Value, "1")]);
    let after = identities(vec![
        record("b", IdentityKind::Value, "2"),
        record("b", IdentityKind::Value, "1"),
        record("c", IdentityKind::Value, "3"),
        record("a", IdentityKind::Value, "9"),
    ]);
    let diff = diff_identities(&before, &after);
    assert_eq!(diff.added, vec![record("c", IdentityKind::Value, "3")]);
    assert!(diff.removed.is_empty());
    assert_eq!(
        diff.changed,
        vec![IdentityChange { identity: SemanticId("a".to_owned()), before: "1".to_owned(), after: "9".to_owned() }]
    );
}

#[test]
fn components_round_trip_through_their_escaped_form() {
    for text in ["plain", "a:b", "spaces and % signs", "unicode é ∀", "", "::"] {
        assert_eq!(decode_component(&encode_component(text)), Some(text.to_owned()));
    }
    assert_eq!(encode_component("a:b"), "a%3Ab");
    assert_eq!(decode_component("a%3Ab"), Some("a:b".to_owned()));
    assert_eq!(decode_component("%4"), None);
    assert_eq!(decode_component("%zz"), None);
    assert_eq!(decode_component("%FF"), None);
}
