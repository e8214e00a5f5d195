//! The two validation stages: JSON syntax, then conformance to a JSON Schema.
//! Both read text as bytes.
use vstd::prelude::*;

use base64::Engine;

verus! {

/// Whether the bytes are exactly one JSON value.
pub uninterp spec fn json_parses(text: Seq<u8>) -> bool;

/// Whether the JSON text `instance` conforms to the JSON Schema text `schema`.
pub uninterp spec fn schema_accepts(schema: Seq<u8>, instance: Seq<u8>) -> bool;

/// The bytes that a text in the standard base64 alphabet (with padding)
/// stands for, if it is such a text.
pub uninterp spec fn base64_decoding(text: Seq<u8>) -> Option<Seq<u8>>;

/// The contents of the JSON text, as UTF-8 bytes, when it is one JSON string.
pub uninterp spec fn json_string_of(text: Seq<u8>) -> Option<Seq<u8>>;

/// Whether the bytes are well-formed UTF-8.
pub uninterp spec fn is_utf8(text: Seq<u8>) -> bool;

/// Relies on std::str::from_utf8: it succeeds exactly when the bytes are
/// well-formed UTF-8.
#[verifier::external_body]
pub(crate) fn utf8_valid(text: &[u8]) -> (r: bool)
    ensures
        r == is_utf8(text@),
{
    std::str::from_utf8(text).is_ok()
}

/// Relies on serde_json::from_slice: it succeeds exactly when the bytes hold
/// one JSON value, whatever the bytes are.
#[verifier::external_body]
pub(crate) fn parses_as_json(text: &[u8]) -> (r: bool)
    ensures
        r == json_parses(text@),
{
    serde_json::from_slice::<serde_json::Value>(text).is_ok()
}

/// Relies on serde_json::from_slice to read both documents, and on
/// jsonschema::validator_for with Validator::is_valid for the verdict. A text
/// that does not parse, or a schema that does not compile, gives `false`.
#[verifier::external_body]
fn check_conformance(schema: &[u8], instance: &[u8]) -> (r: bool)
    ensures
        r == schema_accepts(schema@, instance@),
{
    let schema: serde_json::Value = match serde_json::from_slice(schema) {
        Ok(v) => v,
        Err(_) => return false,
    };
    let instance: serde_json::Value = match serde_json::from_slice(instance) {
        Ok(v) => v,
        Err(_) => return false,
    };
    match jsonschema::validator_for(&schema) {
        Ok(validator) => validator.is_valid(&instance),
        Err(_) => false,
    }
}

/// Relies on serde_json::from_slice into a Value, and on telling its
/// `String` variant apart: the string's contents, or `None` for any other
/// value or text that does not parse.
#[verifier::external_body]
fn json_string_contents(text: &[u8]) -> (r: Option<Vec<u8>>)
    ensures
        match r {
            Some(s) => json_string_of(text@) == Some(s@),
            None => json_string_of(text@) is None,
        },
{
    match serde_json::from_slice::<serde_json::Value>(text) {
        Ok(serde_json::Value::String(s)) => Some(s.into_bytes()),
        _ => None,
    }
}

/// Relies on base64's STANDARD engine `decode`: strict alphabet, padding
/// required; `None` on any malformed input.
#[verifier::external_body]
fn decode_base64(text: &[u8]) -> (r: Option<Vec<u8>>)
    ensures
        match r {
            Some(b) => base64_decoding(text@) == Some(b@),
            None => base64_decoding(text@) is None,
        },
{
    base64::engine::general_purpose::STANDARD.decode(text).ok()
}

/// The syntax stage: whether `content` parses as JSON.
pub fn is_syntactically_valid(content: &[u8]) -> (r: bool)
    ensures
        r == json_parses(content@),
{
    parses_as_json(content)
}

/// The schema stage: whether the JSON text `value` conforms to `schema`.
/// It fails closed: text that is not JSON never conforms.
pub fn conforms(value: &[u8], schema: &[u8]) -> (r: bool)
    ensures
        r == (json_parses(value@) && schema_accepts(schema@, value@)),
{
    if !parses_as_json(value) {
        return false;
    }
    check_conformance(schema, value)
}

/// The conformance verdict is a function of the value and the schema alone:
/// equal inputs always give equal verdicts.
pub proof fn lemma_conformance_deterministic(
    value1: Seq<u8>,
    schema1: Seq<u8>,
    value2: Seq<u8>,
    schema2: Seq<u8>,
)
    requires
        value1 == value2,
        schema1 == schema2,
    ensures
        schema_accepts(schema1, value1) == schema_accepts(schema2, value2),
{
}

/// The full verdict on a payload: it is JSON, a schema was resolved, and the
/// payload conforms to it.
pub open spec fn is_valid_payload(payload: Seq<u8>, schema: Option<Seq<u8>>) -> bool {
    &&& json_parses(payload)
    &&& schema matches Some(s)
    &&& schema_accepts(s, payload)
}

pub open spec fn schema_view(schema: Option<&Vec<u8>>) -> Option<Seq<u8>> {
    match schema {
        Some(s) => Some(s@),
        None => None,
    }
}

/// Runs both stages in order. The schema is consulted only for text that
/// parsed; a missing schema makes the payload invalid.
pub fn verdict(payload: &[u8], schema: Option<&Vec<u8>>) -> (r: bool)
    ensures
        r == is_valid_payload(payload@, schema_view(schema)),
{
    if !is_syntactically_valid(payload) {
        return false;
    }
    match schema {
        Some(s) => conforms(payload, s.as_slice()),
        None => false,
    }
}

/// How the envelope's content carries the payload.
#[derive(Debug, Clone, Copy, PartialEq, Eq, Structural)]
pub enum ContentForm {
    /// The content is the payload itself.
    Text,
    /// The content is the base64 text of the payload.
    Base64,
}

pub open spec fn payload_of(content: Seq<u8>, form: ContentForm) -> Option<Seq<u8>> {
    match form {
        ContentForm::Text => Some(content),
        ContentForm::Base64 => base64_decoding(content),
    }
}

/// The payload under validation, taken out of the envelope's content.
pub fn extract_payload(content: &Vec<u8>, form: ContentForm) -> (r: Option<Vec<u8>>)
    ensures
        match r {
            Some(p) => payload_of(content@, form) == Some(p@),
            None => payload_of(content@, form) is None,
        },
{
    match form {
        ContentForm::Text => Some(content.clone()),
        ContentForm::Base64 => decode_base64(content.as_slice()),
    }
}

pub open spec fn is_json_space(b: u8) -> bool {
    b == 32 || b == 9 || b == 10 || b == 13
}

/// The first byte of the text that is not JSON whitespace.
pub open spec fn first_significant(text: Seq<u8>) -> Option<u8>
    decreases text.len(),
{
    if text.len() == 0 {
        None
    } else if is_json_space(text[0]) {
        first_significant(text.drop_first())
    } else {
        Some(text[0])
    }
}

fn first_significant_byte(text: &[u8]) -> (r: Option<u8>)
    ensures
        r == first_significant(text@),
{
    let mut i: usize = 0;
    assert(text@.skip(0) =~= text@);
    while i < text.len()
        invariant
            i <= text@.len(),
            first_significant(text@) == first_significant(text@.skip(i as int)),
        decreases text.len() - i,
    {
        let b = text[i];
        if !(b == 32 || b == 9 || b == 10 || b == 13) {
            return Some(b);
        }
        assert(text@.skip(i as int).drop_first() =~= text@.skip(i + 1));
        i = i + 1;
    }
    assert(text@.skip(i as int).len() == 0);
    None
}

/// The three shapes a derived output value can take.
#[derive(Debug, Clone, PartialEq, Eq)]
pub enum OutputShape {
    /// A JSON string; what it holds is JSON text still to be checked.
    Text(Vec<u8>),
    /// A JSON object, checked as it stands.
    Object,
    /// Anything else, or no JSON at all.
    Other,
}

/// Whether a derived output value passes: a string must hold JSON text that
/// conforms; an object must conform itself; any other value fails.
pub open spec fn is_valid_output(output: Seq<u8>, schema: Option<Seq<u8>>) -> bool {
    match json_string_of(output) {
        Some(inner) => is_valid_payload(inner, schema),
        None => {
            &&& json_parses(output)
            &&& first_significant(output) == Some(123u8)
            &&& schema matches Some(s)
            &&& schema_accepts(s, output)
        },
    }
}

/// Sorts the JSON text of an output value into its shape.
pub fn output_shape(output: &[u8]) -> (r: OutputShape)
    ensures
        match r {
            OutputShape::Text(inner) => json_string_of(output@) == Some(inner@),
            OutputShape::Object => json_string_of(output@) is None && json_parses(output@)
                && first_significant(output@) == Some(123u8),
            OutputShape::Other => json_string_of(output@) is None && !(json_parses(output@)
                && first_significant(output@) == Some(123u8)),
        },
{
    match json_string_contents(output) {
        Some(inner) => OutputShape::Text(inner),
        None => {
            let opens_object = match first_significant_byte(output) {
                Some(b) => b == 123,
                None => false,
            };
            if is_syntactically_valid(output) && opens_object {
                OutputShape::Object
            } else {
                OutputShape::Other
            }
        },
    }
}

/// Judges a derived output value by its shape.
pub fn output_verdict(output: &[u8], schema: Option<&Vec<u8>>) -> (r: bool)
    ensures
        r == is_valid_output(output@, schema_view(schema)),
{
    match output_shape(output) {
        OutputShape::Text(inner) => verdict(inner.as_slice(), schema),
        OutputShape::Object => match schema {
            Some(s) => conforms(output, s.as_slice()),
            None => false,
        },
        OutputShape::Other => false,
    }
}

} // verus!
