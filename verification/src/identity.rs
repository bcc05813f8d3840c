//! Semantic identities: namespaced, percent-encoded names for every semantic
//! object, and the records that fingerprint them.

use vstd::prelude::*;
use vstd::string::*;
use vstd::utf8::{decode_utf8, encode_utf8, valid_utf8};

use crate::text::{
    lemma_seq_lt_asymmetric, lemma_seq_lt_total, lemma_seq_lt_transitive, push_char, seq_lt, str_lt,
    string_from_utf8, text_eq,
};

verus! {

/// A semantic identity: `mncs:0.2:<kind>:<component>::<component>...`.
#[derive(Debug, Clone, PartialEq, Eq, PartialOrd, Ord, Hash)]
pub struct SemanticId(pub String);

impl SemanticId {
    pub fn as_str(&self) -> (r: &str)
        ensures
            r@ == self.0@,
    {
        self.0.as_str()
    }

    /// Exact equality of two identities.
    pub fn same(&self, other: &SemanticId) -> (r: bool)
        ensures
            r == (self.0@ == other.0@),
    {
        self.0 == other.0
    }

    /// Strict order of two identities (the derived `Ord`).
    pub fn precedes(&self, other: &SemanticId) -> (r: bool)
        ensures
            r == seq_lt(self.0@, other.0@),
    {
        str_lt(self.0.as_str(), other.0.as_str())
    }

    /// A copy with the same text.
    pub fn duplicate(&self) -> (r: SemanticId)
        ensures
            r.0@ == self.0@,
    {
        SemanticId(self.0.clone())
    }
}

#[derive(Debug, Clone, Copy, PartialEq, Eq, PartialOrd, Ord, Structural)]
pub enum IdentityKind {
    Program,
    Module,
    FiniteType,
    FiniteVariant,
    RecordType,
    RecordField,
    Function,
    Contract,
    Assumption,
    Effect,
    Capability,
    Evidence,
    Body,
    Iteration,
    Block,
    Operation,
    Value,
    RuntimeCheck,
    MachineIntent,
    Fact,
    Requirement,
    Obligation,
    Realization,
    Transformation,
    TestCase,
}

pub open spec fn kind_prefix(kind: IdentityKind) -> Seq<char> {
    match kind {
        IdentityKind::Program => "program"@,
        IdentityKind::Module => "module"@,
        IdentityKind::FiniteType => "finite-type"@,
        IdentityKind::FiniteVariant => "finite-variant"@,
        IdentityKind::RecordType => "record-type"@,
        IdentityKind::RecordField => "record-field"@,
        IdentityKind::Function => "function"@,
        IdentityKind::Contract => "contract"@,
        IdentityKind::Assumption => "assumption"@,
        IdentityKind::Effect => "effect"@,
        IdentityKind::Capability => "capability"@,
        IdentityKind::Evidence => "evidence"@,
        IdentityKind::Body => "body"@,
        IdentityKind::Iteration => "iteration"@,
        IdentityKind::Block => "block"@,
        IdentityKind::Operation => "operation"@,
        IdentityKind::Value => "value"@,
        IdentityKind::RuntimeCheck => "runtime-check"@,
        IdentityKind::MachineIntent => "machine-intent"@,
        IdentityKind::Fact => "fact"@,
        IdentityKind::Requirement => "requirement"@,
        IdentityKind::Obligation => "obligation"@,
        IdentityKind::Realization => "realization"@,
        IdentityKind::Transformation => "transformation"@,
        IdentityKind::TestCase => "test-case"@,
    }
}

fn kind_prefix_str(kind: IdentityKind) -> (r: &'static str)
    ensures
        r@ == kind_prefix(kind),
{
    match kind {
        IdentityKind::Program => "program",
        IdentityKind::Module => "module",
        IdentityKind::FiniteType => "finite-type",
        IdentityKind::FiniteVariant => "finite-variant",
        IdentityKind::RecordType => "record-type",
        IdentityKind::RecordField => "record-field",
        IdentityKind::Function => "function",
        IdentityKind::Contract => "contract",
        IdentityKind::Assumption => "assumption",
        IdentityKind::Effect => "effect",
        IdentityKind::Capability => "capability",
        IdentityKind::Evidence => "evidence",
        IdentityKind::Body => "body",
        IdentityKind::Iteration => "iteration",
        IdentityKind::Block => "block",
        IdentityKind::Operation => "operation",
        IdentityKind::Value => "value",
        IdentityKind::RuntimeCheck => "runtime-check",
        IdentityKind::MachineIntent => "machine-intent",
        IdentityKind::Fact => "fact",
        IdentityKind::Requirement => "requirement",
        IdentityKind::Obligation => "obligation",
        IdentityKind::Realization => "realization",
        IdentityKind::Transformation => "transformation",
        IdentityKind::TestCase => "test-case",
    }
}

/// Bytes that stand for themselves in an encoded component.
pub open spec fn unreserved(b: u8) -> bool {
    (97 <= b <= 122) || (65 <= b <= 90) || (48 <= b <= 57) || b == 95 || b == 45 || b == 46
}

/// The uppercase hexadecimal digit of a nibble.
pub open spec fn hex_digit(n: u8) -> u8 {
    if n < 10 {
        (48 + n) as u8
    } else {
        (55 + n) as u8
    }
}

/// Percent-encoding of a byte string: unreserved bytes stand for
/// themselves, every other byte becomes `%` and two uppercase hex digits.
pub open spec fn encode_bytes(bytes: Seq<u8>) -> Seq<u8>
    decreases bytes.len(),
{
    if bytes.len() == 0 {
        seq![]
    } else {
        let b = bytes[0];
        (if unreserved(b) {
            seq![b]
        } else {
            seq![37u8, hex_digit(b / 16), hex_digit(b % 16)]
        }) + encode_bytes(bytes.drop_first())
    }
}

/// ASCII bytes read as characters.
pub open spec fn ascii_chars(bytes: Seq<u8>) -> Seq<char> {
    bytes.map_values(|b: u8| b as char)
}

/// The encoded form of one component's text.
pub open spec fn encoded(text: Seq<char>) -> Seq<char> {
    ascii_chars(encode_bytes(encode_utf8(text)))
}

/// Encoded components joined by `::`.
pub open spec fn join_encoded(components: Seq<Seq<char>>) -> Seq<char>
    decreases components.len(),
{
    if components.len() == 0 {
        seq![]
    } else if components.len() == 1 {
        encoded(components[0])
    } else {
        join_encoded(components.drop_last()) + "::"@ + encoded(components.last())
    }
}

/// The identity text of a kind and its components.
pub open spec fn id_text(kind: IdentityKind, components: Seq<Seq<char>>) -> Seq<char> {
    "mncs:0.2:"@ + kind_prefix(kind) + ":"@ + join_encoded(components)
}

fn hex_char(n: u8) -> (r: char)
    requires
        n < 16,
    ensures
        r == (hex_digit(n) as char),
{
    if n < 10 {
        (48 + n) as char
    } else {
        (55 + n) as char
    }
}

/// Append the encoding of `value` to `out`.
fn encode_into(out: &mut String, value: &str)
    ensures
        final(out)@ == old(out)@ + encoded(value@),
{
    let bytes = value.as_bytes();
    let ghost start = out@;
    let ghost all = encode_utf8(value@);
    let mut i: usize = 0;
    assert(bytes@.skip(0) =~= bytes@);
    while i < bytes.len()
        invariant
            bytes@ == all,
            i <= bytes@.len(),
            start + ascii_chars(encode_bytes(all)) == out@ + ascii_chars(encode_bytes(all.skip(i as int))),
        decreases bytes@.len() - i,
    {
        let b = bytes[i];
        let ghost before = out@;
        proof {
            assert(all.skip(i as int)[0] == b);
            assert(all.skip(i as int).drop_first() =~= all.skip(i as int + 1));
        }
        if (97 <= b && b <= 122) || (65 <= b && b <= 90) || (48 <= b && b <= 57) || b == 95 || b == 45 || b == 46 {
            push_char(out, b as char);
            assert(ascii_chars(encode_bytes(all.skip(i as int))) =~= seq![b as char] + ascii_chars(encode_bytes(all.skip(i as int + 1))));
        } else {
            push_char(out, '%');
            push_char(out, hex_char(b / 16));
            push_char(out, hex_char(b % 16));
            assert(ascii_chars(encode_bytes(all.skip(i as int))) =~= seq!['%', hex_digit(b / 16) as char, hex_digit(b % 16) as char]
                + ascii_chars(encode_bytes(all.skip(i as int + 1))));
        }
        assert(before + ascii_chars(encode_bytes(all.skip(i as int))) =~= out@ + ascii_chars(encode_bytes(all.skip(i as int + 1))));
        i = i + 1;
    }
    assert(all.skip(i as int).len() == 0);
    assert(out@ + ascii_chars(encode_bytes(all.skip(i as int))) =~= out@);
}

/// The identity of a kind and its components.
fn make_id(kind: IdentityKind, components: &[&str]) -> (r: SemanticId)
    ensures
        r.0@ == id_text(kind, components@.map_values(|c: &str| c@)),
{
    let ghost comps = components@.map_values(|c: &str| c@);
    let mut text = String::from_str("mncs:0.2:");
    text.append(kind_prefix_str(kind));
    text.append(":");
    let ghost head = text@;
    let mut i: usize = 0;
    while i < components.len()
        invariant
            i <= components@.len(),
            comps == components@.map_values(|c: &str| c@),
            head == "mncs:0.2:"@ + kind_prefix(kind) + ":"@,
            text@ == head + join_encoded(comps.subrange(0, i as int)),
        decreases components@.len() - i,
    {
        let ghost prefix = comps.subrange(0, i as int + 1);
        assert(prefix.drop_last() =~= comps.subrange(0, i as int));
        if i > 0 {
            text.append("::");
        }
        encode_into(&mut text, components[i]);
        proof {
            if i == 0 {
                assert(comps.subrange(0, 0) =~= Seq::<Seq<char>>::empty());
                assert(prefix.len() == 1);
            }
            assert(text@ =~= head + join_encoded(prefix));
        }
        i = i + 1;
    }
    assert(comps.subrange(0, i as int) =~= comps);
    SemanticId(text)
}

/// A module namespace identity: names the namespace itself so programs can
/// declare which modules they bind against.
pub fn module_id(name: &str) -> (r: SemanticId)
    ensures
        r.0@ == id_text(IdentityKind::Module, seq![name@]),
{
    let components = [name];
    let r = make_id(IdentityKind::Module, components.as_slice());
    assert(components@.map_values(|c: &str| c@) =~= seq![name@]);
    r
}

pub fn finite_type_id(module: &str, name: &str) -> (r: SemanticId)
    ensures
        r.0@ == id_text(IdentityKind::FiniteType, seq![module@, name@]),
{
    let components = [module, name];
    let r = make_id(IdentityKind::FiniteType, components.as_slice());
    assert(components@.map_values(|c: &str| c@) =~= seq![module@, name@]);
    r
}

pub fn finite_variant_id(module: &str, family: &str, variant: &str) -> (r: SemanticId)
    ensures
        r.0@ == id_text(IdentityKind::FiniteVariant, seq![module@, family@, variant@]),
{
    let components = [module, family, variant];
    let r = make_id(IdentityKind::FiniteVariant, components.as_slice());
    assert(components@.map_values(|c: &str| c@) =~= seq![module@, family@, variant@]);
    r
}

pub fn function_id(module: &str, function: &str) -> (r: SemanticId)
    ensures
        r.0@ == id_text(IdentityKind::Function, seq![module@, function@]),
{
    let components = [module, function];
    let r = make_id(IdentityKind::Function, components.as_slice());
    assert(components@.map_values(|c: &str| c@) =~= seq![module@, function@]);
    r
}

/// An assumption identity `mncs:0.2:assumption:<module>::<assumption>`.
pub fn assumption_id(module: &str, assumption: &str) -> (r: SemanticId)
    ensures
        r.0@ == id_text(IdentityKind::Assumption, seq![module@, assumption@]),
{
    let components = [module, assumption];
    let r = make_id(IdentityKind::Assumption, components.as_slice());
    assert(components@.map_values(|c: &str| c@) =~= seq![module@, assumption@]);
    r
}

/// A capability identity, scoped to the function that declares it.
pub fn capability_id(module: &str, function: &str, capability: &str) -> (r: SemanticId)
    ensures
        r.0@ == id_text(IdentityKind::Capability, seq![module@, function@, capability@]),
{
    let components = [module, function, capability];
    let r = make_id(IdentityKind::Capability, components.as_slice());
    assert(components@.map_values(|c: &str| c@) =~= seq![module@, function@, capability@]);
    r
}

/// A bounded iteration identity within a function body.
pub fn iteration_id(module: &str, function: &str, iteration: &str) -> (r: SemanticId)
    ensures
        r.0@ == id_text(IdentityKind::Iteration, seq![module@, function@, iteration@]),
{
    let components = [module, function, iteration];
    let r = make_id(IdentityKind::Iteration, components.as_slice());
    assert(components@.map_values(|c: &str| c@) =~= seq![module@, function@, iteration@]);
    r
}

/// A body operation identity within a block of a function body.
pub fn operation_id(module: &str, function: &str, block: &str, operation: &str) -> (r: SemanticId)
    ensures
        r.0@ == id_text(IdentityKind::Operation, seq![module@, function@, block@, operation@]),
{
    let components = [module, function, block, operation];
    let r = make_id(IdentityKind::Operation, components.as_slice());
    assert(components@.map_values(|c: &str| c@) =~= seq![module@, function@, block@, operation@]);
    r
}

/// A block identity within a function body.
pub fn block_id(module: &str, function: &str, block: &str) -> (r: SemanticId)
    ensures
        r.0@ == id_text(IdentityKind::Block, seq![module@, function@, block@]),
{
    let components = [module, function, block];
    let r = make_id(IdentityKind::Block, components.as_slice());
    assert(components@.map_values(|c: &str| c@) =~= seq![module@, function@, block@]);
    r
}

/// Public contract identity `mncs:0.2:contract:<module>::<function>::<id>`.
pub fn contract_id(module: &str, function: &str, contract: &str) -> (r: SemanticId)
    ensures
        r.0@ == id_text(IdentityKind::Contract, seq![module@, function@, contract@]),
{
    let components = [module, function, contract];
    let r = make_id(IdentityKind::Contract, components.as_slice());
    assert(components@.map_values(|c: &str| c@) =~= seq![module@, function@, contract@]);
    r
}


/// The value of one hexadecimal digit byte, in either case.
pub open spec fn hex_value(b: u8) -> Option<u8> {
    if 48 <= b <= 57 {
        Some((b - 48) as u8)
    } else if 65 <= b <= 70 {
        Some((b - 55) as u8)
    } else if 97 <= b <= 102 {
        Some((b - 87) as u8)
    } else {
        None
    }
}

/// The byte an escape's two characters name, as a radix-16 parse reads
/// them: two hex digits, or a `+` sign and one digit.
pub open spec fn hex_pair(b1: u8, b2: u8) -> Option<u8> {
    if b1 == 43 {
        hex_value(b2)
    } else {
        match (hex_value(b1), hex_value(b2)) {
            (Some(high), Some(low)) => Some((high * 16 + low) as u8),
            _ => None,
        }
    }
}

/// Undo percent-encoding; `None` on a malformed escape.
pub open spec fn decode_bytes(bytes: Seq<u8>) -> Option<Seq<u8>>
    decreases bytes.len(),
{
    if bytes.len() == 0 {
        Some(seq![])
    } else if bytes[0] == 37 {
        if bytes.len() < 3 {
            None
        } else {
            match hex_pair(bytes[1], bytes[2]) {
                None => None,
                Some(v) => match decode_bytes(bytes.skip(3)) {
                    None => None,
                    Some(rest) => Some(seq![v] + rest),
                },
            }
        }
    } else {
        match decode_bytes(bytes.drop_first()) {
            None => None,
            Some(rest) => Some(seq![bytes[0]] + rest),
        }
    }
}

/// Decoded text: the decoded bytes when they form valid UTF-8.
pub open spec fn decode_text(bytes: Seq<u8>) -> Option<Seq<char>> {
    match decode_bytes(bytes) {
        None => None,
        Some(b) => if valid_utf8(b) {
            Some(decode_utf8(b))
        } else {
            None
        },
    }
}

fn hex_of(b: u8) -> (r: Option<u8>)
    ensures
        r == hex_value(b),
{
    if 48 <= b && b <= 57 {
        Some(b - 48)
    } else if 65 <= b && b <= 70 {
        Some(b - 55)
    } else if 97 <= b && b <= 102 {
        Some(b - 87)
    } else {
        None
    }
}

fn parse_escape(b1: u8, b2: u8) -> (r: Option<u8>)
    ensures
        r == hex_pair(b1, b2),
{
    if b1 == 43 {
        return hex_of(b2);
    }
    match (hex_of(b1), hex_of(b2)) {
        (Some(high), Some(low)) => Some(high * 16 + low),
        _ => None,
    }
}

/// Inverse of the component encoding. Returns `None` when the text
/// contains a malformed escape or the decoded bytes are not UTF-8.
pub fn decode_component(value: &str) -> (r: Option<String>)
    ensures
        match r {
            Some(s) => decode_text(value.spec_bytes()) == Some(s@),
            None => decode_text(value.spec_bytes()) is None,
        },
{
    let bytes = value.as_bytes();
    let ghost all = bytes@;
    let mut out: Vec<u8> = Vec::new();
    let mut index: usize = 0;
    assert(all.skip(0) =~= all);
    while index < bytes.len()
        invariant
            bytes@ == all,
            all == value.spec_bytes(),
            index <= all.len(),
            decode_bytes(all) == match decode_bytes(all.skip(index as int)) {
                None => None,
                Some(rest) => Some(out@ + rest),
            },
        decreases all.len() - index,
    {
        let ghost tail = all.skip(index as int);
        assert(tail[0] == bytes@[index as int]);
        assert(tail.len() == all.len() - index);
        if bytes[index] == 37 {
            if bytes.len() - index < 3 {
                assert(decode_bytes(tail) is None);
                return None;
            }
            let v = match parse_escape(bytes[index + 1], bytes[index + 2]) {
                Some(v) => v,
                None => {
                    assert(tail[1] == bytes@[index + 1] && tail[2] == bytes@[index + 2]);
                    assert(decode_bytes(tail) is None);
                    return None;
                },
            };
            proof {
                assert(tail[1] == bytes@[index + 1] && tail[2] == bytes@[index + 2]);
                assert(tail.skip(3) =~= all.skip(index as int + 3));
                match decode_bytes(all.skip(index as int + 3)) {
                    None => {},
                    Some(rest) => {
                        assert(out@.push(v) + rest =~= out@ + (seq![v] + rest));
                    },
                }
            }
            out.push(v);
            index = index + 3;
        } else {
            let b = bytes[index];
            proof {
                assert(tail.drop_first() =~= all.skip(index as int + 1));
                match decode_bytes(all.skip(index as int + 1)) {
                    None => {},
                    Some(rest) => {
                        assert(out@.push(b) + rest =~= out@ + (seq![b] + rest));
                    },
                }
            }
            out.push(b);
            index = index + 1;
        }
    }
    assert(all.skip(index as int) =~= Seq::<u8>::empty());
    assert(out@ + Seq::<u8>::empty() =~= out@);
    string_from_utf8(out)
}

/// Decoding undoes encoding, byte for byte.
pub proof fn lemma_decode_encode_bytes(bytes: Seq<u8>)
    ensures
        decode_bytes(encode_bytes(bytes)) == Some(bytes),
    decreases bytes.len(),
{
    if bytes.len() > 0 {
        let b = bytes[0];
        let rest = bytes.drop_first();
        lemma_decode_encode_bytes(rest);
        let e = encode_bytes(rest);
        if unreserved(b) {
            assert((seq![b] + e).drop_first() =~= e);
            assert(seq![b] + rest =~= bytes);
        } else {
            let chunk = seq![37u8, hex_digit(b / 16), hex_digit(b % 16)];
            assert((chunk + e).skip(3) =~= e);
            assert(hex_pair(hex_digit(b / 16), hex_digit(b % 16)) == Some(b));
            assert(seq![b] + rest =~= bytes);
        }
    }
}

/// Decoding the encoding of any text gives the text back.
pub proof fn lemma_decode_encode_text(text: Seq<char>)
    ensures
        decode_text(encode_bytes(encode_utf8(text))) == Some(text),
{
    lemma_decode_encode_bytes(encode_utf8(text));
    vstd::utf8::encode_utf8_valid_utf8(text);
    vstd::utf8::encode_utf8_decode_utf8(text);
}

/// Decoding an encoded component gives the component back: the decoded
/// text of the encoding's UTF-8 bytes is the text encoded.
pub proof fn lemma_decode_encoded_component(text: Seq<char>)
    ensures
        decode_text(encode_utf8(encoded(text))) == Some(text),
{
    lemma_encode_ascii(encode_utf8(text));
    lemma_encoded_bytes(encode_bytes(encode_utf8(text)));
    lemma_decode_encode_text(text);
}

/// The escaped form of a component: unreserved bytes as they are, every
/// other byte as `%` and two uppercase hexadecimal digits.
pub fn encode_component(value: &str) -> (r: String)
    ensures
        r@ == encoded(value@),
{
    let mut out = String::new();
    encode_into(&mut out, value);
    assert(out@ =~= encoded(value@));
    out
}

/// The UTF-8 bytes of an encoded component are the encoding's bytes.
proof fn lemma_encoded_bytes(bytes: Seq<u8>)
    requires
        forall|i: int| 0 <= i < bytes.len() ==> #[trigger] bytes[i] < 128,
    ensures
        encode_utf8(ascii_chars(bytes)) == bytes,
{
    let chars = ascii_chars(bytes);
    assert forall|i: int| 0 <= i < chars.len() implies '\0' <= #[trigger] chars[i] <= '\u{7f}' by {
        assert(chars[i] == bytes[i] as char);
    }
    vstd::utf8::is_ascii_chars_encode_utf8(chars);
    assert forall|i: int| 0 <= i < bytes.len() implies encode_utf8(chars)[i] == bytes[i] by {
        assert(chars[i] as u8 == encode_utf8(chars)[i]);
        assert(chars[i] == bytes[i] as char);
    }
    assert(encode_utf8(chars) =~= bytes);
}

/// Every byte of an encoding is ASCII.
proof fn lemma_encode_ascii(bytes: Seq<u8>)
    ensures
        forall|i: int| 0 <= i < encode_bytes(bytes).len() ==> #[trigger] encode_bytes(bytes)[i] < 128,
    decreases bytes.len(),
{
    if bytes.len() > 0 {
        lemma_encode_ascii(bytes.drop_first());
        let b = bytes[0];
        let chunk = if unreserved(b) { seq![b] } else { seq![37u8, hex_digit(b / 16), hex_digit(b % 16)] };
        let e = encode_bytes(bytes.drop_first());
        assert forall|i: int| 0 <= i < (chunk + e).len() implies #[trigger] (chunk + e)[i] < 128 by {
            if i >= chunk.len() {
                assert((chunk + e)[i] == e[i - chunk.len()]);
            }
        }
    }
}

const MODULE_ID_PREFIX: &'static str = "mncs:0.2:module:";

/// The module namespace a module identity names, or `None` for any other
/// identity.
pub open spec fn module_name_of(id: Seq<char>) -> Option<Seq<char>> {
    if id.len() >= 16 && id.subrange(0, 16) == "mncs:0.2:module:"@ {
        decode_text(encode_utf8(id.skip(16)))
    } else {
        None
    }
}

impl SemanticId {
    /// The module namespace named by a module identity, or `None` for any
    /// other identity kind.
    pub fn module_name(&self) -> (r: Option<String>)
        ensures
            match r {
                Some(s) => module_name_of(self.0@) == Some(s@),
                None => module_name_of(self.0@) is None,
            },
    {
        proof {
            reveal_strlit("mncs:0.2:module:");
        }
        let text = self.0.as_str();
        if !crate::text::has_prefix(text, MODULE_ID_PREFIX) {
            return None;
        }
        let n = text.unicode_len();
        let rest = text.substring_char(16, n);
        assert(rest@ =~= self.0@.skip(16));
        decode_component(rest)
    }
}

/// A module identity names its module back.
pub proof fn lemma_module_name_of_module_id(name: Seq<char>)
    ensures
        module_name_of(id_text(IdentityKind::Module, seq![name])) == Some(name),
{
    reveal_strlit("mncs:0.2:");
    reveal_strlit("module");
    reveal_strlit(":");
    reveal_strlit("mncs:0.2:module:");
    let id = id_text(IdentityKind::Module, seq![name]);
    let enc = encode_bytes(encode_utf8(name));
    assert(join_encoded(seq![name]) == encoded(name));
    assert(id.subrange(0, 16) =~= "mncs:0.2:module:"@);
    assert(id.skip(16) =~= ascii_chars(enc));
    lemma_encode_ascii(encode_utf8(name));
    lemma_encoded_bytes(enc);
    lemma_decode_encode_text(name);
}


/// A record field as its (name, type) texts.
pub open spec fn field_views(fields: Seq<(&str, &str)>) -> Seq<(Seq<char>, Seq<char>)> {
    fields.map_values(|f: (&str, &str)| (f.0@, f.1@))
}

/// Fields order by name, then by type.
pub open spec fn field_lt(a: (Seq<char>, Seq<char>), b: (Seq<char>, Seq<char>)) -> bool {
    seq_lt(a.0, b.0) || (a.0 == b.0 && seq_lt(a.1, b.1))
}

/// No field is strictly below an earlier one.
pub open spec fn fields_sorted(s: Seq<(Seq<char>, Seq<char>)>) -> bool {
    forall|i: int, k: int| 0 <= i < k < s.len() ==> !field_lt(#[trigger] s[k], #[trigger] s[i])
}

/// The canonical field list text: `name:type;` for each field in order.
pub open spec fn joined_fields(s: Seq<(Seq<char>, Seq<char>)>) -> Seq<char>
    decreases s.len(),
{
    if s.len() == 0 {
        seq![]
    } else {
        joined_fields(s.drop_last()) + s.last().0 + ":"@ + s.last().1 + ";"@
    }
}

proof fn lemma_field_lt_asymmetric(a: (Seq<char>, Seq<char>), b: (Seq<char>, Seq<char>))
    ensures
        !(field_lt(a, b) && field_lt(b, a)),
{
    lemma_seq_lt_asymmetric(a.0, b.0);
    lemma_seq_lt_asymmetric(a.1, b.1);
    if a.0 == b.0 {
        lemma_seq_lt_asymmetric(a.0, a.0);
    }
}

proof fn lemma_field_lt_transitive(a: (Seq<char>, Seq<char>), b: (Seq<char>, Seq<char>), c: (Seq<char>, Seq<char>))
    requires
        field_lt(a, b),
        field_lt(b, c),
    ensures
        field_lt(a, c),
{
    if seq_lt(a.0, b.0) && seq_lt(b.0, c.0) {
        lemma_seq_lt_transitive(a.0, b.0, c.0);
    } else if a.0 == b.0 && b.0 == c.0 {
        lemma_seq_lt_transitive(a.1, b.1, c.1);
    }
}

proof fn lemma_field_lt_total(a: (Seq<char>, Seq<char>), b: (Seq<char>, Seq<char>))
    requires
        a != b,
    ensures
        field_lt(a, b) || field_lt(b, a),
{
    if a.0 != b.0 {
        lemma_seq_lt_total(a.0, b.0);
    } else {
        lemma_seq_lt_total(a.1, b.1);
    }
}

fn field_less(a: (&str, &str), b: (&str, &str)) -> (r: bool)
    ensures
        r == field_lt((a.0@, a.1@), (b.0@, b.1@)),
{
    str_lt(a.0, b.0) || (text_eq(a.0, b.0) && str_lt(a.1, b.1))
}

/// The fields in canonical (sorted) order.
fn canonical_fields<'a>(fields: &[(&'a str, &'a str)]) -> (r: Vec<(&'a str, &'a str)>)
    ensures
        fields_sorted(field_views(r@)),
        field_views(r@).to_multiset() == field_views(fields@).to_multiset(),
{
    let mut out: Vec<(&'a str, &'a str)> = Vec::new();
    let mut i: usize = 0;
    assert(field_views(out@) =~= field_views(fields@.subrange(0, 0)));
    while i < fields.len()
        invariant
            i <= fields@.len(),
            fields_sorted(field_views(out@)),
            field_views(out@).to_multiset() == field_views(fields@.subrange(0, i as int)).to_multiset(),
        decreases fields@.len() - i,
    {
        let x = fields[i];
        let ghost xv = (x.0@, x.1@);
        let mut j: usize = 0;
        while j < out.len() && !field_less(x, out[j])
            invariant
                j <= out@.len(),
                xv == (x.0@, x.1@),
                forall|k: int| 0 <= k < j ==> !field_lt(xv, #[trigger] field_views(out@)[k]),
            decreases out@.len() - j,
        {
            j = j + 1;
        }
        let ghost old_out = out@;
        let ghost ov = field_views(old_out);
        out.insert(j, x);
        proof {
            let nv = field_views(out@);
            assert(nv =~= ov.insert(j as int, xv));
            assert forall|a: int, b: int| 0 <= a < b < nv.len() implies !field_lt(#[trigger] nv[b], #[trigger] nv[a]) by {
                if a < j && b < j {
                } else if a < j && b == j {
                } else if a < j && b > j {
                    assert(nv[b] == ov[b - 1]);
                } else if a == j {
                    let y = ov[b - 1];
                    assert(nv[b] == y);
                    assert(field_lt(xv, ov[j as int]));
                    if b - 1 == j {
                        lemma_field_lt_asymmetric(xv, y);
                    } else {
                        assert(!field_lt(ov[b - 1], ov[j as int]));
                        if y != ov[j as int] {
                            lemma_field_lt_total(y, ov[j as int]);
                            lemma_field_lt_transitive(xv, ov[j as int], y);
                        }
                        lemma_field_lt_asymmetric(xv, y);
                    }
                } else {
                    assert(nv[a] == ov[a - 1]);
                    assert(nv[b] == ov[b - 1]);
                }
            }
            vstd::seq_lib::to_multiset_insert(ov, j as int, xv);
            let prefix = fields@.subrange(0, i as int + 1);
            assert(field_views(prefix) =~= field_views(fields@.subrange(0, i as int)).push(xv));
            vstd::seq_lib::to_multiset_build(field_views(fields@.subrange(0, i as int)), xv);
        }
        i = i + 1;
    }
    assert(fields@.subrange(0, i as int) =~= fields@);
    out
}

/// Logical record-type identity: field names and types participate in
/// canonical (sorted) order, so declaration order cannot change the type; no
/// physical layout information participates.
pub fn record_type_id(module: &str, name: &str, fields: &[(&str, &str)]) -> (r: SemanticId)
    ensures
        exists|canonical: Seq<(Seq<char>, Seq<char>)>|
            fields_sorted(canonical) && canonical.to_multiset() == field_views(fields@).to_multiset() && r.0@ == id_text(
                IdentityKind::RecordType,
                seq![module@, name@, joined_fields(canonical)],
            ),
{
    let canonical = canonical_fields(fields);
    let ghost cv = field_views(canonical@);
    let mut joined = String::new();
    let mut i: usize = 0;
    while i < canonical.len()
        invariant
            i <= canonical@.len(),
            cv == field_views(canonical@),
            joined@ == joined_fields(cv.subrange(0, i as int)),
        decreases canonical@.len() - i,
    {
        let (field_name, field_type) = canonical[i];
        joined.append(field_name);
        joined.append(":");
        joined.append(field_type);
        joined.append(";");
        assert(cv.subrange(0, i as int + 1).drop_last() =~= cv.subrange(0, i as int));
        i = i + 1;
    }
    assert(cv.subrange(0, i as int) =~= cv);
    let components = [module, name, joined.as_str()];
    let r = make_id(IdentityKind::RecordType, components.as_slice());
    assert(components@.map_values(|c: &str| c@) =~= seq![module@, name@, joined_fields(cv)]);
    r
}

/// Two canonical field lists of the same fields are the same list: record
/// identities do not depend on declaration order.
pub proof fn lemma_canonical_fields_unique(s: Seq<(Seq<char>, Seq<char>)>, t: Seq<(Seq<char>, Seq<char>)>)
    requires
        fields_sorted(s),
        fields_sorted(t),
        s.to_multiset() == t.to_multiset(),
    ensures
        s == t,
    decreases s.len(),
{
    broadcast use vstd::seq_lib::to_multiset_contains, vstd::seq_lib::to_multiset_len;

    assert(s.len() == s.to_multiset().len());
    assert(t.len() == t.to_multiset().len());
    if s.len() == 0 {
        assert(s =~= t);
    } else {
        let x = s[0];
        let y = t[0];
        assert(s.to_multiset().count(x) > 0);
        assert(t.contains(x));
        let kt = choose|k: int| 0 <= k < t.len() && t[k] == x;
        assert(t.to_multiset().count(y) > 0);
        assert(s.contains(y));
        let ks = choose|k: int| 0 <= k < s.len() && s[k] == y;
        if x != y {
            if kt > 0 {
                assert(!field_lt(t[kt], t[0]));
            }
            if ks > 0 {
                assert(!field_lt(s[ks], s[0]));
            }
            lemma_field_lt_total(x, y);
        }
        vstd::seq_lib::to_multiset_remove(s, 0);
        vstd::seq_lib::to_multiset_remove(t, 0);
        assert(s.remove(0) =~= s.drop_first());
        assert(t.remove(0) =~= t.drop_first());
        assert forall|i: int, k: int| 0 <= i < k < s.drop_first().len() implies !field_lt(#[trigger] s.drop_first()[k], #[trigger] s.drop_first()[i]) by {
            assert(s.drop_first()[k] == s[k + 1] && s.drop_first()[i] == s[i + 1]);
        }
        assert forall|i: int, k: int| 0 <= i < k < t.drop_first().len() implies !field_lt(#[trigger] t.drop_first()[k], #[trigger] t.drop_first()[i]) by {
            assert(t.drop_first()[k] == t[k + 1] && t.drop_first()[i] == t[i + 1]);
        }
        lemma_canonical_fields_unique(s.drop_first(), t.drop_first());
        assert(s =~= seq![x] + s.drop_first());
        assert(t =~= seq![y] + t.drop_first());
    }
}


/// Record identities of different field orders agree whenever the fields
/// are the same.
pub proof fn lemma_record_type_id_order_free(
    module: Seq<char>,
    name: Seq<char>,
    first: Seq<(Seq<char>, Seq<char>)>,
    second: Seq<(Seq<char>, Seq<char>)>,
    first_id: Seq<char>,
    second_id: Seq<char>,
)
    requires
        first.to_multiset() == second.to_multiset(),
        exists|c: Seq<(Seq<char>, Seq<char>)>|
            fields_sorted(c) && c.to_multiset() == first.to_multiset() && first_id == id_text(
                IdentityKind::RecordType,
                seq![module, name, joined_fields(c)],
            ),
        exists|c: Seq<(Seq<char>, Seq<char>)>|
            fields_sorted(c) && c.to_multiset() == second.to_multiset() && second_id == id_text(
                IdentityKind::RecordType,
                seq![module, name, joined_fields(c)],
            ),
    ensures
        first_id == second_id,
{
    let c1 = choose|c: Seq<(Seq<char>, Seq<char>)>|
        fields_sorted(c) && c.to_multiset() == first.to_multiset() && first_id == id_text(
            IdentityKind::RecordType,
            seq![module, name, joined_fields(c)],
        );
    let c2 = choose|c: Seq<(Seq<char>, Seq<char>)>|
        fields_sorted(c) && c.to_multiset() == second.to_multiset() && second_id == id_text(
            IdentityKind::RecordType,
            seq![module, name, joined_fields(c)],
        );
    lemma_canonical_fields_unique(c1, c2);
}

#[derive(Debug, Clone, PartialEq, Eq)]
pub struct IdentityRecord {
    pub identity: SemanticId,
    pub kind: IdentityKind,
    pub fingerprint: String,
}

#[derive(Debug, Clone, PartialEq, Eq)]
pub struct SemanticIdentities {
    pub schema_version: String,
    pub objects: Vec<IdentityRecord>,
}

#[derive(Debug, Clone, PartialEq, Eq)]
pub struct IdentityChange {
    pub identity: SemanticId,
    pub before: String,
    pub after: String,
}

#[derive(Debug, Clone, PartialEq, Eq)]
pub struct SemanticDiff {
    pub added: Vec<IdentityRecord>,
    pub removed: Vec<IdentityRecord>,
    pub changed: Vec<IdentityChange>,
}

impl SemanticIdentities {
    /// The first record with the given identity.
    pub fn record(&self, identity: &SemanticId) -> (r: Option<&IdentityRecord>)
        ensures
            match r {
                Some(record) => exists|i: int|
                    0 <= i < self.objects@.len() && self.objects@[i] == *record && record.identity.0@ == identity.0@
                        && forall|j: int| 0 <= j < i ==> (#[trigger] self.objects@[j]).identity.0@ != identity.0@,
                None => forall|i: int| 0 <= i < self.objects@.len() ==> (#[trigger] self.objects@[i]).identity.0@ != identity.0@,
            },
    {
        let mut i: usize = 0;
        while i < self.objects.len()
            invariant
                i <= self.objects@.len(),
                forall|j: int| 0 <= j < i ==> (#[trigger] self.objects@[j]).identity.0@ != identity.0@,
            decreases self.objects@.len() - i,
        {
            if self.objects[i].identity.same(identity) {
                return Some(&self.objects[i]);
            }
            i = i + 1;
        }
        None
    }

    /// The fingerprint of the first record with the given identity.
    pub fn fingerprint(&self, identity: &SemanticId) -> (r: Option<&str>)
        ensures
            match r {
                Some(text) => exists|i: int|
                    0 <= i < self.objects@.len() && self.objects@[i].fingerprint@ == text@ && self.objects@[i].identity.0@
                        == identity.0@ && forall|j: int|
                        0 <= j < i ==> (#[trigger] self.objects@[j]).identity.0@ != identity.0@,
                None => forall|i: int| 0 <= i < self.objects@.len() ==> (#[trigger] self.objects@[i]).identity.0@ != identity.0@,
            },
    {
        match self.record(identity) {
            Some(record) => Some(record.fingerprint.as_str()),
            None => None,
        }
    }
}


/// A record as plain values: its identity text, kind and fingerprint.
pub open spec fn record_view(r: IdentityRecord) -> (Seq<char>, IdentityKind, Seq<char>) {
    (r.identity.0@, r.kind, r.fingerprint@)
}

/// A list of records as plain values.
pub open spec fn record_views(rs: Seq<IdentityRecord>) -> Seq<(Seq<char>, IdentityKind, Seq<char>)> {
    rs.map_values(|r: IdentityRecord| record_view(r))
}

/// Lists of records with the same plain values name the same last record
/// for every identity.
proof fn lemma_last_record_views(a: Seq<IdentityRecord>, b: Seq<IdentityRecord>, t: Seq<char>)
    requires
        record_views(a) == record_views(b),
    ensures
        last_record(a, t) is Some <==> last_record(b, t) is Some,
        last_record(a, t) is None <==> last_record(b, t) is None,
        last_record(a, t) is Some ==> last_record(a, t)->0.fingerprint@ == last_record(b, t)->0.fingerprint@,
    decreases a.len(),
{
    assert(record_views(a).len() == a.len());
    assert(record_views(b).len() == b.len());
    if a.len() > 0 {
        assert(record_views(a)[a.len() - 1] == record_view(a.last()));
        assert(record_views(b)[b.len() - 1] == record_view(b.last()));
        assert(record_views(a.drop_last()) =~= record_views(b.drop_last())) by {
            assert forall|k: int| 0 <= k < a.len() - 1 implies record_views(a.drop_last())[k] == record_views(b.drop_last())[k] by {
                assert(record_views(a)[k] == record_views(b)[k]);
                assert(record_views(a.drop_last())[k] == record_views(a)[k]);
                assert(record_views(b.drop_last())[k] == record_views(b)[k]);
            }
        }
        lemma_last_record_views(a.drop_last(), b.drop_last(), t);
    }
}

/// The identity texts of a list of records.
pub open spec fn record_ids(rs: Seq<IdentityRecord>) -> Seq<Seq<char>> {
    rs.map_values(|r: IdentityRecord| r.identity.0@)
}

/// The identity texts of a list of changes.
pub open spec fn change_ids(cs: Seq<IdentityChange>) -> Seq<Seq<char>> {
    cs.map_values(|c: IdentityChange| c.identity.0@)
}

/// The last record listed for `t`: a later listing of an identity overrides
/// an earlier one.
pub open spec fn last_record(objects: Seq<IdentityRecord>, t: Seq<char>) -> Option<IdentityRecord>
    decreases objects.len(),
{
    if objects.len() == 0 {
        None
    } else if objects.last().identity.0@ == t {
        Some(objects.last())
    } else {
        last_record(objects.drop_last(), t)
    }
}

/// `rec` is the last record `objects` lists for its identity (as plain values).
pub open spec fn listed_as(objects: Seq<IdentityRecord>, rec: IdentityRecord) -> bool {
    last_record(objects, rec.identity.0@) matches Some(x) && record_view(x) == record_view(rec)
}

/// `t` is among the first `k` entries of `s`.
spec fn within_first(s: Seq<Seq<char>>, k: int, t: Seq<char>) -> bool {
    exists|p: int| 0 <= p < k && s[p] == t
}

/// `t` is new in `after`.
pub open spec fn diff_added(before: Seq<IdentityRecord>, after: Seq<IdentityRecord>, t: Seq<char>) -> bool {
    last_record(before, t) is None && last_record(after, t) is Some
}

/// `t` is gone from `after`.
pub open spec fn diff_removed(before: Seq<IdentityRecord>, after: Seq<IdentityRecord>, t: Seq<char>) -> bool {
    last_record(before, t) is Some && last_record(after, t) is None
}

/// `t` is in both, with another fingerprint.
pub open spec fn diff_changed(before: Seq<IdentityRecord>, after: Seq<IdentityRecord>, t: Seq<char>) -> bool {
    &&& last_record(before, t) is Some
    &&& last_record(after, t) is Some
    &&& last_record(before, t)->0.fingerprint@ != last_record(after, t)->0.fingerprint@
}

proof fn lemma_last_record_is_listed(objects: Seq<IdentityRecord>, t: Seq<char>)
    ensures
        last_record(objects, t) is Some <==> record_ids(objects).contains(t),
        last_record(objects, t) matches Some(r) ==> r.identity.0@ == t,
    decreases objects.len(),
{
    if objects.len() > 0 {
        lemma_last_record_is_listed(objects.drop_last(), t);
        let ids = record_ids(objects);
        assert(record_ids(objects.drop_last()) =~= ids.drop_last());
        if ids.contains(t) && objects.last().identity.0@ != t {
            let k = choose|k: int| 0 <= k < ids.len() && ids[k] == t;
            assert(k < ids.len() - 1);
            assert(ids.drop_last()[k] == t);
        }
        if record_ids(objects.drop_last()).contains(t) {
            let k = choose|k: int| 0 <= k < ids.len() - 1 && ids.drop_last()[k] == t;
            assert(ids[k] == t);
        }
        assert(ids[ids.len() - 1] == objects.last().identity.0@);
    }
}

/// The position of the last record listed for `identity`.
fn last_record_at(objects: &Vec<IdentityRecord>, identity: &SemanticId) -> (r: Option<usize>)
    ensures
        match r {
            Some(i) => i < objects@.len() && last_record(objects@, identity.0@) == Some(objects@[i as int]),
            None => last_record(objects@, identity.0@) is None,
        },
{
    let mut k: usize = objects.len();
    assert(objects@.subrange(0, k as int) =~= objects@);
    while k > 0
        invariant
            k <= objects@.len(),
            last_record(objects@, identity.0@) == last_record(objects@.subrange(0, k as int), identity.0@),
        decreases k,
    {
        let ghost prefix = objects@.subrange(0, k as int);
        if objects[k - 1].identity.same(identity) {
            assert(prefix.last() == objects@[k - 1]);
            return Some(k - 1);
        }
        assert(prefix.drop_last() =~= objects@.subrange(0, k - 1));
        k = k - 1;
    }
    None
}

fn copy_record(record: &IdentityRecord) -> (r: IdentityRecord)
    ensures
        record_view(r) == record_view(*record),
{
    IdentityRecord { identity: record.identity.duplicate(), kind: record.kind, fingerprint: record.fingerprint.clone() }
}

/// The identity differences from `before` to `after`, each list in ascending
/// identity order: the records only `after` lists, the records only `before`
/// lists, and the identities both list with different fingerprints (a later
/// listing of an identity overrides an earlier one).
pub fn diff_identities(before: &SemanticIdentities, after: &SemanticIdentities) -> (r: SemanticDiff)
    ensures
        record_views(before.objects@) == record_views(after.objects@) ==> r.added@.len() == 0 && r.removed@.len() == 0
            && r.changed@.len() == 0,
        strictly_sorted(record_ids(r.added@)),
        forall|t: Seq<char>| record_ids(r.added@).contains(t) <==> diff_added(before.objects@, after.objects@, t),
        forall|i: int|
            0 <= i < r.added@.len() ==> listed_as(after.objects@, #[trigger] r.added@[i]),
        strictly_sorted(record_ids(r.removed@)),
        forall|t: Seq<char>| record_ids(r.removed@).contains(t) <==> diff_removed(before.objects@, after.objects@, t),
        forall|i: int|
            0 <= i < r.removed@.len() ==> listed_as(before.objects@, #[trigger] r.removed@[i]),
        strictly_sorted(change_ids(r.changed@)),
        forall|t: Seq<char>|
            change_ids(r.changed@).contains(t) <==> diff_changed(
                before.objects@,
                after.objects@,
                t,
            ),
        forall|i: int|
            0 <= i < r.changed@.len() ==> {
                let c = #[trigger] r.changed@[i];
                &&& c.before@ == last_record(before.objects@, c.identity.0@)->0.fingerprint@
                &&& c.after@ == last_record(after.objects@, c.identity.0@)->0.fingerprint@
            },
{
    let mut listed: Vec<SemanticId> = Vec::new();
    let mut i: usize = 0;
    while i < before.objects.len()
        invariant
            i <= before.objects@.len(),
            id_views(listed@) == record_ids(before.objects@.subrange(0, i as int)),
        decreases before.objects@.len() - i,
    {
        listed.push(before.objects[i].identity.duplicate());
        assert(record_ids(before.objects@.subrange(0, i + 1)) =~= record_ids(before.objects@.subrange(0, i as int)).push(
            before.objects@[i as int].identity.0@,
        ));
        assert(id_views(listed@) =~= id_views(listed@.drop_last()).push(listed@.last().0@));
        i = i + 1;
    }
    proof {
        assert(before.objects@.subrange(0, before.objects@.len() as int) =~= before.objects@);
        assert(record_ids(after.objects@.subrange(0, 0)) =~= Seq::<Seq<char>>::empty());
        assert(record_ids(before.objects@) + Seq::<Seq<char>>::empty() =~= record_ids(before.objects@));
    }
    let mut j: usize = 0;
    while j < after.objects.len()
        invariant
            j <= after.objects@.len(),
            id_views(listed@) == record_ids(before.objects@) + record_ids(after.objects@.subrange(0, j as int)),
        decreases after.objects@.len() - j,
    {
        let ghost prior = id_views(listed@);
        listed.push(after.objects[j].identity.duplicate());
        proof {
            let x = after.objects@[j as int].identity.0@;
            let rb = record_ids(before.objects@);
            let ra = record_ids(after.objects@.subrange(0, j as int));
            assert(record_ids(after.objects@.subrange(0, j + 1)) =~= ra.push(x));
            assert(id_views(listed@) =~= prior.push(x));
            assert((rb + ra).push(x) =~= rb + ra.push(x));
        }
        j = j + 1;
    }
    proof {
        assert(before.objects@.subrange(0, before.objects@.len() as int) =~= before.objects@);
        assert(after.objects@.subrange(0, after.objects@.len() as int) =~= after.objects@);
    }
    let all = sorted_unique_ids(&listed);
    proof {
        let rb = record_ids(before.objects@);
        let ra = record_ids(after.objects@);
        assert forall|t: Seq<char>| #[trigger] (rb + ra).contains(t) <==> rb.contains(t) || ra.contains(t) by {
            if (rb + ra).contains(t) {
                let q = choose|q: int| 0 <= q < (rb + ra).len() && (rb + ra)[q] == t;
                if q < rb.len() {
                    assert(rb[q] == t);
                } else {
                    assert(ra[q - rb.len()] == t);
                }
            }
            if rb.contains(t) {
                let q = choose|q: int| 0 <= q < rb.len() && rb[q] == t;
                assert((rb + ra)[q] == t);
            }
            if ra.contains(t) {
                let q = choose|q: int| 0 <= q < ra.len() && ra[q] == t;
                assert((rb + ra)[rb.len() + q] == t);
            }
        }
    }
    let ghost bv = before.objects@;
    let ghost av = after.objects@;
    let ghost allv = id_views(all@);
    let mut added: Vec<IdentityRecord> = Vec::new();
    let mut removed: Vec<IdentityRecord> = Vec::new();
    let mut changed: Vec<IdentityChange> = Vec::new();
    let mut k: usize = 0;
    while k < all.len()
        invariant
            k <= all@.len(),
            allv == id_views(all@),
            strictly_sorted(allv),
            bv == before.objects@,
            av == after.objects@,
            forall|t: Seq<char>| allv.contains(t) <==> record_ids(bv).contains(t) || record_ids(av).contains(t),
            forall|q: int| 0 <= q < added@.len() ==> #[trigger] within_first(allv, k as int, record_ids(added@)[q]),
            forall|q: int| 0 <= q < removed@.len() ==> #[trigger] within_first(allv, k as int, record_ids(removed@)[q]),
            forall|q: int| 0 <= q < changed@.len() ==> #[trigger] within_first(allv, k as int, change_ids(changed@)[q]),
            strictly_sorted(record_ids(added@)),
            strictly_sorted(record_ids(removed@)),
            strictly_sorted(change_ids(changed@)),
            forall|t: Seq<char>|
                record_ids(added@).contains(t) <==> within_first(allv, k as int, t) && diff_added(bv, av, t),
            forall|t: Seq<char>|
                record_ids(removed@).contains(t) <==> within_first(allv, k as int, t) && diff_removed(bv, av, t),
            forall|t: Seq<char>|
                change_ids(changed@).contains(t) <==> within_first(allv, k as int, t) && diff_changed(bv, av, t),
            forall|q: int|
                0 <= q < added@.len() ==> listed_as(av, #[trigger] added@[q]),
            forall|q: int|
                0 <= q < removed@.len() ==> listed_as(bv, #[trigger] removed@[q]),
            forall|q: int|
                0 <= q < changed@.len() ==> {
                    let c = #[trigger] changed@[q];
                    &&& c.before@ == last_record(bv, c.identity.0@)->0.fingerprint@
                    &&& c.after@ == last_record(av, c.identity.0@)->0.fingerprint@
                },
        decreases all@.len() - k,
    {
        let identity = &all[k];
        let ghost t = allv[k as int];
        assert(identity.0@ == t);
        let in_before = last_record_at(&before.objects, identity);
        let in_after = last_record_at(&after.objects, identity);
        proof {
            lemma_last_record_is_listed(bv, t);
            lemma_last_record_is_listed(av, t);
            assert(allv.contains(t));
        }
        match (in_before, in_after) {
            (None, Some(a)) => {
                let ghost old_added = added@;
                added.push(copy_record(&after.objects[a]));
                proof {
                    assert(record_ids(added@) =~= record_ids(old_added).push(t));
                    lemma_sorted_push(record_ids(old_added), allv, k as int);
                    assert forall|t2: Seq<char>| #[trigger] record_ids(added@).contains(t2) <==> (record_ids(old_added).contains(t2) || t2 == t) by {
                        lemma_push_contains(record_ids(old_added), t, t2);
                    }
                }
            },
            (Some(b), None) => {
                let ghost old_removed = removed@;
                removed.push(copy_record(&before.objects[b]));
                proof {
                    assert(record_ids(removed@) =~= record_ids(old_removed).push(t));
                    lemma_sorted_push(record_ids(old_removed), allv, k as int);
                    assert forall|t2: Seq<char>| #[trigger] record_ids(removed@).contains(t2) <==> (record_ids(old_removed).contains(t2) || t2 == t) by {
                        lemma_push_contains(record_ids(old_removed), t, t2);
                    }
                }
            },
            (Some(b), Some(a)) => {
                if !crate::text::text_eq(before.objects[b].fingerprint.as_str(), after.objects[a].fingerprint.as_str()) {
                    let ghost old_changed = changed@;
                    changed.push(
                        IdentityChange {
                            identity: identity.duplicate(),
                            before: before.objects[b].fingerprint.clone(),
                            after: after.objects[a].fingerprint.clone(),
                        },
                    );
                    proof {
                        assert(change_ids(changed@) =~= change_ids(old_changed).push(t));
                        lemma_sorted_push(change_ids(old_changed), allv, k as int);
                        assert forall|t2: Seq<char>| #[trigger] change_ids(changed@).contains(t2) <==> (change_ids(old_changed).contains(t2) || t2 == t) by {
                            lemma_push_contains(change_ids(old_changed), t, t2);
                        }
                    }
                } else {
                    assert(!diff_changed(bv, av, t));
                }
            },
            (None, None) => {},
        }
        proof {
            assert forall|t2: Seq<char>|
                #[trigger] within_first(allv, k + 1, t2) <==> (within_first(allv, k as int, t2) || t2 == t) by {
                if within_first(allv, k + 1, t2) {
                    let p = choose|p: int| 0 <= p < k + 1 && allv[p] == t2;
                    if p < k {
                        assert(allv[p] == t2);
                    }
                }
                if t2 == t {
                    assert(allv[k as int] == t2);
                }
            }
        }
        k = k + 1;
    }
    proof {
        assert forall|t: Seq<char>| diff_added(bv, av, t) || diff_removed(bv, av, t) || diff_changed(bv, av, t) implies #[trigger] within_first(
            allv,
            all@.len() as int,
            t,
        ) by {
            lemma_last_record_is_listed(bv, t);
            lemma_last_record_is_listed(av, t);
            assert(allv.contains(t));
        }
    }
    proof {
        if record_views(bv) == record_views(av) {
            if added@.len() > 0 {
                let x = record_ids(added@)[0];
                assert(record_ids(added@).contains(x));
                assert(diff_added(bv, av, x));
                assert(last_record(bv, x) is None);
                lemma_last_record_views(bv, av, x);
                assert(last_record(av, x) is None);
                assert(false);
            }
            if removed@.len() > 0 {
                let x = record_ids(removed@)[0];
                assert(record_ids(removed@).contains(x));
                assert(diff_removed(bv, av, x));
                assert(last_record(av, x) is None);
                lemma_last_record_views(bv, av, x);
                assert(last_record(bv, x) is None);
                assert(false);
            }
            if changed@.len() > 0 {
                let x = change_ids(changed@)[0];
                assert(change_ids(changed@).contains(x));
                assert(diff_changed(bv, av, x));
                lemma_last_record_views(bv, av, x);
                assert(last_record(bv, x)->0.fingerprint@ == last_record(av, x)->0.fingerprint@);
                assert(false);
            }
        }
    }
    SemanticDiff { added, removed, changed }
}

/// Appending the `k`-th entry of a strictly sorted sequence to a list of its
/// earlier entries keeps the list strictly sorted.
proof fn lemma_sorted_push(s: Seq<Seq<char>>, all: Seq<Seq<char>>, k: int)
    requires
        strictly_sorted(s),
        strictly_sorted(all),
        0 <= k < all.len(),
        forall|q: int| 0 <= q < s.len() ==> #[trigger] within_first(all, k, s[q]),
    ensures
        strictly_sorted(s.push(all[k])),
        forall|q: int| 0 <= q < s.push(all[k]).len() ==> #[trigger] within_first(all, k + 1, s.push(all[k])[q]),
{
    let w = s.push(all[k]);
    assert forall|i: int, j: int| 0 <= i < j < w.len() implies seq_lt(#[trigger] w[i], #[trigger] w[j]) by {
        if j == s.len() {
            assert(within_first(all, k, s[i]));
            let p = choose|p: int| 0 <= p < k && all[p] == s[i];
            assert(seq_lt(all[p], all[k]));
        } else {
            assert(seq_lt(s[i], s[j]));
        }
    }
    assert forall|q: int| 0 <= q < w.len() implies #[trigger] within_first(all, k + 1, w[q]) by {
        if q == s.len() {
            assert(w[q] == all[k]);
        } else {
            assert(within_first(all, k, s[q]));
            let p = choose|p: int| 0 <= p < k && all[p] == s[q];
            assert(w[q] == all[p]);
        }
    }
}


/// The identity texts of a list of identities.
pub open spec fn id_views(ids: Seq<SemanticId>) -> Seq<Seq<char>> {
    ids.map_values(|id: SemanticId| id.0@)
}

/// Strictly increasing identity texts (sorted, one of each).
pub open spec fn strictly_sorted(s: Seq<Seq<char>>) -> bool {
    forall|i: int, j: int| 0 <= i < j < s.len() ==> seq_lt(#[trigger] s[i], #[trigger] s[j])
}

proof fn lemma_push_contains(s: Seq<Seq<char>>, x: Seq<char>, t: Seq<char>)
    ensures
        s.push(x).contains(t) <==> (s.contains(t) || t == x),
{
    if s.push(x).contains(t) {
        let k = choose|k: int| 0 <= k < s.push(x).len() && s.push(x)[k] == t;
        if k < s.len() {
            assert(s[k] == t);
        }
    }
    if s.contains(t) {
        let k = choose|k: int| 0 <= k < s.len() && s[k] == t;
        assert(s.push(x)[k] == t);
    }
    if t == x {
        assert(s.push(x)[s.len() as int] == t);
    }
}

/// The identities sorted with duplicates removed (the canonical set order).
pub fn sorted_unique_ids(ids: &Vec<SemanticId>) -> (r: Vec<SemanticId>)
    ensures
        strictly_sorted(id_views(r@)),
        forall|t: Seq<char>| id_views(r@).contains(t) <==> id_views(ids@).contains(t),
{
    let mut out: Vec<SemanticId> = Vec::new();
    let mut i: usize = 0;
    while i < ids.len()
        invariant
            i <= ids@.len(),
            strictly_sorted(id_views(out@)),
            forall|t: Seq<char>| id_views(out@).contains(t) <==> id_views(ids@.subrange(0, i as int)).contains(t),
        decreases ids@.len() - i,
    {
        let x = &ids[i];
        let ghost xv = x.0@;
        let ghost ov = id_views(out@);
        let mut j: usize = 0;
        while j < out.len() && out[j].precedes(x)
            invariant
                j <= out@.len(),
                xv == x.0@,
                ov == id_views(out@),
                forall|k: int| 0 <= k < j ==> seq_lt(#[trigger] ov[k], xv),
            decreases out@.len() - j,
        {
            j = j + 1;
        }
        let ghost prefix_next = ids@.subrange(0, i as int + 1);
        assert(id_views(prefix_next) =~= id_views(ids@.subrange(0, i as int)).push(xv));
        if j < out.len() && out[j].same(x) {
            assert forall|t: Seq<char>| id_views(out@).contains(t) <==> id_views(prefix_next).contains(t) by {
                lemma_push_contains(id_views(ids@.subrange(0, i as int)), xv, t);
                if t == xv {
                    assert(id_views(out@)[j as int] == xv);
                }
            }
        } else {
            out.insert(j, x.duplicate());
            proof {
                let nv = id_views(out@);
                assert(nv =~= ov.insert(j as int, xv));
                if j < ov.len() {
                    assert(!seq_lt(ov[j as int], xv));
                    assert(ov[j as int] != xv);
                    lemma_seq_lt_total(ov[j as int], xv);
                }
                assert forall|a: int, b: int| 0 <= a < b < nv.len() implies seq_lt(#[trigger] nv[a], #[trigger] nv[b]) by {
                    if a < j && b == j {
                    } else if a < j && b > j {
                        assert(nv[b] == ov[b - 1]);
                        if b - 1 == j {
                        } else {
                            assert(seq_lt(ov[j as int], ov[b - 1]));
                            lemma_seq_lt_transitive(xv, ov[j as int], ov[b - 1]);
                        }
                        lemma_seq_lt_transitive(nv[a], xv, nv[b]);
                    } else if a == j {
                        assert(nv[b] == ov[b - 1]);
                        if b - 1 > j {
                            assert(seq_lt(ov[j as int], ov[b - 1]));
                            lemma_seq_lt_transitive(xv, ov[j as int], ov[b - 1]);
                        }
                    } else if a > j {
                        assert(nv[a] == ov[a - 1] && nv[b] == ov[b - 1]);
                    }
                }
                assert forall|t: Seq<char>| nv.contains(t) <==> id_views(prefix_next).contains(t) by {
                    lemma_push_contains(id_views(ids@.subrange(0, i as int)), xv, t);
                    if nv.contains(t) {
                        let k = choose|k: int| 0 <= k < nv.len() && nv[k] == t;
                        if k < j {
                            assert(ov[k] == t);
                        } else if k > j {
                            assert(ov[k - 1] == t);
                        }
                    }
                    if ov.contains(t) {
                        let k = choose|k: int| 0 <= k < ov.len() && ov[k] == t;
                        if k < j {
                            assert(nv[k] == t);
                        } else {
                            assert(nv[k + 1] == t);
                        }
                    }
                    if t == xv {
                        assert(nv[j as int] == xv);
                    }
                }
            }
        }
        i = i + 1;
    }
    assert(ids@.subrange(0, i as int) =~= ids@);
    out
}


/// Two strictly sorted lists of the same members are the same list.
pub proof fn lemma_sorted_sets_unique(c: Seq<Seq<char>>, d: Seq<Seq<char>>)
    requires
        strictly_sorted(c),
        strictly_sorted(d),
        forall|t: Seq<char>| c.contains(t) <==> d.contains(t),
    ensures
        c == d,
    decreases c.len(),
{
    if c.len() == 0 {
        if d.len() > 0 {
            assert(d.contains(d[0]));
        }
        assert(c =~= d);
    } else if d.len() == 0 {
        assert(c.contains(c[0]));
    } else {
        let x = c[0];
        let y = d[0];
        assert(c.contains(x));
        assert(d.contains(y));
        if x != y {
            let k = choose|k: int| 0 <= k < d.len() && d[k] == x;
            let j = choose|j: int| 0 <= j < c.len() && c[j] == y;
            assert(k != 0 && j != 0);
            assert(seq_lt(d[0], d[k]));
            assert(seq_lt(c[0], c[j]));
            lemma_seq_lt_asymmetric(x, y);
        }
        let c1 = c.drop_first();
        let d1 = d.drop_first();
        assert forall|t: Seq<char>| c1.contains(t) <==> d1.contains(t) by {
            if c1.contains(t) {
                let j = choose|j: int| 0 <= j < c1.len() && c1[j] == t;
                assert(c[j + 1] == t);
                assert(seq_lt(c[0], c[j + 1]));
                lemma_seq_lt_asymmetric(x, x);
                assert(c.contains(t));
                let k = choose|k: int| 0 <= k < d.len() && d[k] == t;
                assert(k != 0);
                assert(d1[k - 1] == t);
            }
            if d1.contains(t) {
                let j = choose|j: int| 0 <= j < d1.len() && d1[j] == t;
                assert(d[j + 1] == t);
                assert(seq_lt(d[0], d[j + 1]));
                lemma_seq_lt_asymmetric(y, y);
                assert(d.contains(t));
                let k = choose|k: int| 0 <= k < c.len() && c[k] == t;
                assert(k != 0);
                assert(c1[k - 1] == t);
            }
        }
        assert forall|a: int, b: int| 0 <= a < b < c1.len() implies seq_lt(#[trigger] c1[a], #[trigger] c1[b]) by {
            assert(c1[a] == c[a + 1] && c1[b] == c[b + 1]);
        }
        assert forall|a: int, b: int| 0 <= a < b < d1.len() implies seq_lt(#[trigger] d1[a], #[trigger] d1[b]) by {
            assert(d1[a] == d[a + 1] && d1[b] == d[b + 1]);
        }
        lemma_sorted_sets_unique(c1, d1);
        assert(c =~= seq![x] + c1);
        assert(d =~= seq![y] + d1);
    }
}

}
