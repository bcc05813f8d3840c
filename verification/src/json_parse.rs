//! JSON text into plain values, and the corpora read from their text.

use vstd::prelude::*;
use vstd::string::*;

use crate::corpus::{dep_case_view, dep_corpus, dep_corpus_cases, proof_case_view, proof_corpus, proof_corpus_cases};
use crate::json::{JsonNumber, JsonValue};
use crate::proof_dep::artifact::DepCorpusCase;
use crate::proof_kernel::artifact::ProofCorpusCase;

verus! {

#[verifier::external_type_specification]
#[verifier::external_body]
pub struct ExSerdeJsonValue(serde_json::Value);

/// The document serde_json reads from `text`, as plain values; none when
/// the text is not JSON.
pub uninterp spec fn json_of_text(text: Seq<char>) -> Option<JsonValue>;

/// The plain form of a value serde_json parsed: each variant to its
/// counterpart, numbers by their signed and unsigned 64-bit readings,
/// object members in the order serde_json keeps them.
#[verifier::external_body]
fn plain_json(value: serde_json::Value) -> JsonValue {
    match value {
        serde_json::Value::Null => JsonValue::Null,
        serde_json::Value::Bool(flag) => JsonValue::Bool(flag),
        serde_json::Value::Number(n) => JsonValue::Number(JsonNumber { as_i64: n.as_i64(), as_u64: n.as_u64() }),
        serde_json::Value::String(text) => JsonValue::Text(text),
        serde_json::Value::Array(items) => JsonValue::Array(items.into_iter().map(plain_json).collect()),
        serde_json::Value::Object(members) => JsonValue::Object(members.into_iter().map(|(k, v)| (k, plain_json(v))).collect()),
    }
}

/// `serde_json::from_str` into a `serde_json::Value`, converted to plain
/// values: the document named by `json_of_text`, or serde_json's error
/// message when the text is not JSON. The message's wording is serde_json's
/// and is not stated.
#[verifier::external_body]
fn parse_json(text: &str) -> (r: Result<JsonValue, String>)
    ensures
        r is Ok <==> json_of_text(text@) is Some,
        r matches Ok(v) ==> json_of_text(text@) == Some(v),
{
    serde_json::from_str::<serde_json::Value>(text).map(plain_json).map_err(|error| error.to_string())
}

/// The proof-kernel corpus read from its JSON text: an error naming the
/// JSON failure when the text is not JSON, otherwise what
/// `proof_corpus_cases` reads from the document.
pub fn parse_proof_corpus(text: &str) -> (r: Result<Vec<ProofCorpusCase>, String>)
    ensures
        json_of_text(text@) is None ==> (r matches Err(e) && e@.subrange(0, 13) == "corpus JSON: "@),
        json_of_text(text@) matches Some(v) ==> match r {
            Ok(cases) => proof_corpus(v) is Ok && proof_corpus(v)->Ok_0 == cases@.map_values(
                |c: ProofCorpusCase| proof_case_view(c),
            ),
            Err(e) => proof_corpus(v) is Err && proof_corpus(v)->Err_0 == e@,
        },
{
    match parse_json(text) {
        Ok(document) => proof_corpus_cases(&document),
        Err(message) => {
            let out = String::from_str("corpus JSON: ").concat(message.as_str());
            proof {
                reveal_strlit("corpus JSON: ");
                assert(out@.subrange(0, 13) =~= "corpus JSON: "@);
            }
            Err(out)
        },
    }
}

/// The dependent-kernel corpus read from its JSON text: an error naming
/// the JSON failure when the text is not JSON, otherwise what
/// `dep_corpus_cases` reads from the document.
pub fn parse_proof_dep_corpus(text: &str) -> (r: Result<Vec<DepCorpusCase>, String>)
    ensures
        json_of_text(text@) is None ==> (r matches Err(e) && e@.subrange(0, 13) == "corpus JSON: "@),
        json_of_text(text@) matches Some(v) ==> match r {
            Ok(cases) => dep_corpus(v) is Ok && dep_corpus(v)->Ok_0 == cases@.map_values(
                |c: DepCorpusCase| dep_case_view(c),
            ),
            Err(e) => dep_corpus(v) is Err && dep_corpus(v)->Err_0 == e@,
        },
{
    match parse_json(text) {
        Ok(document) => dep_corpus_cases(&document),
        Err(message) => {
            let out = String::from_str("corpus JSON: ").concat(message.as_str());
            proof {
                reveal_strlit("corpus JSON: ");
                assert(out@.subrange(0, 13) =~= "corpus JSON: "@);
            }
            Err(out)
        },
    }
}

} // verus!
