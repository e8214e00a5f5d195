//! The retry router: from the validation verdict and the envelope's attempt
//! count to one destination and the record written there.
use vstd::prelude::*;

use crate::codec::{
    bytes_view, decode_envelope, encode_envelope, envelope_text, lemma_round_trip,
    parse_envelope, Envelope,
};
use crate::framing::{frame, framed, unframe, MAGIC};
use crate::validate::{
    extract_payload, first_significant, is_utf8, utf8_valid, is_syntactically_valid, is_valid_output, is_valid_payload,
    json_parses, json_string_of, output_shape, output_verdict, payload_of, schema_view, verdict,
    ContentForm, OutputShape,
};
use crate::DecodeError;

verus! {

/// Failed validation cycles after which a record is dead-lettered.
pub const MAX_ATTEMPTS: u32 = 3;

/// The schema id that frames records written to the verified channel.
pub const VERIFIED_SCHEMA_ID: i32 = 1;

/// The closed set of output channels.
#[derive(Debug, Clone, Copy, PartialEq, Eq, Structural)]
pub enum Destination {
    /// Content valid; written schema-framed.
    Success,
    /// A derived value valid; the record is written as it came.
    Structured,
    /// Content invalid, attempts remain; written with an incremented envelope.
    Retry,
    /// Attempts exhausted; the record is written as it came.
    DeadLetter,
}

impl Destination {
    pub open spec fn topic_spec(self) -> Seq<char> {
        match self {
            Destination::Success => "verified"@,
            Destination::Structured => "structured"@,
            Destination::Retry => "unprocessed"@,
            Destination::DeadLetter => "unprocessable"@,
        }
    }

    /// The name of the topic behind this channel.
    pub fn topic(&self) -> (r: &'static str)
        ensures
            r@ == self.topic_spec(),
    {
        match self {
            Destination::Success => "verified",
            Destination::Structured => "structured",
            Destination::Retry => "unprocessed",
            Destination::DeadLetter => "unprocessable",
        }
    }
}

/// Which success channel a pipeline writes valid records to.
#[derive(Debug, Clone, Copy, PartialEq, Eq, Structural)]
pub enum Variant {
    /// Valid records go to `Success`, framed with the verified schema id.
    Verified,
    /// Valid records go to `Structured`, unchanged.
    Structured,
}

/// A transport record: an opaque key and a value, either of which may be absent.
#[derive(Debug, Clone)]
pub struct Record {
    pub key: Option<Vec<u8>>,
    pub value: Option<Vec<u8>>,
}

/// The outcome of one invocation: the single destination chosen, the record
/// written there, and whether a soft error is surfaced to the host (a retry
/// was scheduled).
#[derive(Debug, Clone)]
pub struct Decision {
    pub destination: Destination,
    pub record: Record,
    pub soft_error: bool,
}

/// Where a record goes, given its attempt count and verdict.
pub open spec fn destination_of(attempts: nat, valid: bool, variant: Variant) -> Destination {
    if valid {
        match variant {
            Variant::Verified => Destination::Success,
            Variant::Structured => Destination::Structured,
        }
    } else if attempts + 1 > MAX_ATTEMPTS {
        Destination::DeadLetter
    } else {
        Destination::Retry
    }
}

/// The value written, given the input value and the decoded envelope.
pub open spec fn routed_value(
    input: Option<Seq<u8>>,
    attempts: nat,
    content: Seq<u8>,
    output: Option<Seq<u8>>,
    valid: bool,
    variant: Variant,
) -> Option<Seq<u8>> {
    match destination_of(attempts, valid, variant) {
        Destination::Success => Some(
            framed(VERIFIED_SCHEMA_ID, envelope_text(attempts, content, output)),
        ),
        Destination::Retry => Some(envelope_text(attempts + 1, content, output)),
        _ => input,
    }
}

/// Routes one record whose envelope has been decoded and whose payload has
/// been judged. The key is carried over untouched.
pub fn decide(input: Record, envelope: &Envelope, valid: bool, variant: Variant) -> (r: Decision)
    ensures
        r.record.key == input.key,
        r.destination == destination_of(envelope.attempts as nat, valid, variant),
        bytes_view(r.record.value) == routed_value(
            bytes_view(input.value),
            envelope.attempts as nat,
            envelope.content@,
            bytes_view(envelope.output),
            valid,
            variant,
        ),
        r.soft_error == (r.destination == Destination::Retry),
{
    let Record { key, value } = input;
    if valid {
        match variant {
            Variant::Verified => {
                let text = encode_envelope(envelope);
                let framed_text = frame(VERIFIED_SCHEMA_ID, text.as_slice());
                Decision {
                    destination: Destination::Success,
                    record: Record { key, value: Some(framed_text) },
                    soft_error: false,
                }
            },
            Variant::Structured => Decision {
                destination: Destination::Structured,
                record: Record { key, value },
                soft_error: false,
            },
        }
    } else if envelope.attempts >= MAX_ATTEMPTS {
        Decision {
            destination: Destination::DeadLetter,
            record: Record { key, value },
            soft_error: false,
        }
    } else {
        let output = match &envelope.output {
            Some(v) => Some(v.clone()),
            None => None,
        };
        let next = Envelope {
            attempts: envelope.attempts + 1,
            content: envelope.content.clone(),
            output,
        };
        let text = encode_envelope(&next);
        Decision {
            destination: Destination::Retry,
            record: Record { key, value: Some(text) },
            soft_error: true,
        }
    }
}

/// Whether the subject of validation passes: the derived output where the
/// envelope has one, else the payload taken out of the content; `None`
/// where the content's encoding is broken.
pub open spec fn subject_valid(
    content: Seq<u8>,
    output: Option<Seq<u8>>,
    form: ContentForm,
    schema: Option<Seq<u8>>,
) -> Option<bool> {
    match output {
        Some(v) => Some(is_valid_output(v, schema)),
        None => match payload_of(content, form) {
            Some(payload) => Some(is_valid_payload(payload, schema)),
            None => None,
        },
    }
}

/// The whole decision for one record, given the schema that was resolved
/// for it (`None` when resolution failed or was not needed).
///
/// The value must be an envelope's wire text, bare or schema-framed. Its derived output is judged
/// where it has one; else the payload is taken out of its content as `form`
/// says and judged. Then the record is routed.
pub fn process(input: Record, form: ContentForm, variant: Variant, schema: Option<&Vec<u8>>) -> (r:
    Result<Decision, DecodeError>)
    ensures
        match bytes_view(input.value) {
            None => r == Err::<Decision, DecodeError>(DecodeError::MalformedEnvelope),
            Some(raw) => match read_value(raw) {
                Err(e) => r == Err::<Decision, DecodeError>(e),
                Ok((attempts, content, output)) => match subject_valid(
                    content,
                    output,
                    form,
                    schema_view(schema),
                ) {
                    None => r == Err::<Decision, DecodeError>(DecodeError::InvalidEncoding),
                    Some(valid) => {
                        &&& r matches Ok(d)
                        &&& d.record.key == input.key
                        &&& d.destination == destination_of(attempts, valid, variant)
                        &&& bytes_view(d.record.value) == routed_value(
                            Some(raw),
                            attempts,
                            content,
                            output,
                            valid,
                            variant,
                        )
                        &&& d.soft_error == (d.destination == Destination::Retry)
                    },
                },
            },
        },
{
    let envelope = match &input.value {
        None => {
            return Err(DecodeError::MalformedEnvelope);
        },
        Some(raw) => match envelope_of(raw.as_slice()) {
            Ok(e) => e,
            Err(e) => {
                return Err(e);
            },
        },
    };
    route_envelope(input, &envelope, form, variant, schema)
}

/// The decision for a record whose envelope has already been read, by this
/// library's reader or by any other JSON reader: its subject is judged
/// against the schema and the record routed.
pub fn route_envelope(
    input: Record,
    envelope: &Envelope,
    form: ContentForm,
    variant: Variant,
    schema: Option<&Vec<u8>>,
) -> (r: Result<Decision, DecodeError>)
    ensures
        match subject_valid(
            envelope.content@,
            bytes_view(envelope.output),
            form,
            schema_view(schema),
        ) {
            None => r == Err::<Decision, DecodeError>(DecodeError::InvalidEncoding),
            Some(valid) => {
                &&& r matches Ok(d)
                &&& d.record.key == input.key
                &&& d.destination == destination_of(envelope.attempts as nat, valid, variant)
                &&& bytes_view(d.record.value) == routed_value(
                    bytes_view(input.value),
                    envelope.attempts as nat,
                    envelope.content@,
                    bytes_view(envelope.output),
                    valid,
                    variant,
                )
                &&& d.soft_error == (d.destination == Destination::Retry)
            },
        },
{
    let valid = match &envelope.output {
        Some(v) => output_verdict(v.as_slice(), schema),
        None => match extract_payload(&envelope.content, form) {
            Some(payload) => verdict(payload.as_slice(), schema),
            None => {
                return Err(DecodeError::InvalidEncoding);
            },
        },
    };
    Ok(decide(input, envelope, valid, variant))
}

/// The envelope that a record value holds: the value is its wire text, or,
/// where it starts with the framing's magic byte, frames that text.
pub open spec fn read_value(raw: Seq<u8>) -> Result<(nat, Seq<u8>, Option<Seq<u8>>), DecodeError> {
    let text = if raw.len() > 0 && raw[0] == MAGIC {
        if raw.len() >= 5 {
            Some(raw.skip(5))
        } else {
            None
        }
    } else {
        Some(raw)
    };
    match text {
        None => Err(DecodeError::BadFraming),
        Some(t) => match parse_envelope(t) {
            Some(e) => Ok(e),
            None => Err(DecodeError::MalformedEnvelope),
        },
    }
}

/// Decodes the envelope that a record value holds, unframing it first where
/// it is framed.
pub fn envelope_of(raw: &[u8]) -> (r: Result<Envelope, DecodeError>)
    ensures
        match read_value(raw@) {
            Err(e) => r == Err::<Envelope, DecodeError>(e),
            Ok((attempts, content, output)) => r matches Ok(env) && env.attempts == attempts
                && env.content@ == content && bytes_view(env.output) == output,
        },
{
    if raw.len() > 0 && raw[0] == MAGIC {
        match unframe(raw) {
            Ok(f) => {
                assert(framed(f.schema_id, f.payload@).skip(5) =~= f.payload@);
                decode_envelope(f.payload.as_slice())
            },
            Err(e) => Err(e),
        }
    } else {
        decode_envelope(raw)
    }
}

/// Whether judging a subject can depend on the schema at all: the subject
/// (output or payload) must be JSON first.
pub open spec fn subject_wants_schema(
    content: Seq<u8>,
    output: Option<Seq<u8>>,
    form: ContentForm,
) -> bool {
    match output {
        Some(v) => match json_string_of(v) {
            Some(inner) => json_parses(inner),
            None => json_parses(v) && first_significant(v) == Some(123u8),
        },
        None => match payload_of(content, form) {
            Some(payload) => json_parses(payload),
            None => false,
        },
    }
}

/// Whether judging the record can depend on the schema at all. Where it
/// cannot, the schema is not fetched.
pub open spec fn wants_schema(raw: Seq<u8>, form: ContentForm) -> bool {
    match read_value(raw) {
        Ok((_, content, output)) => subject_wants_schema(content, output, form),
        Err(_) => false,
    }
}

/// The syntax check that runs before any schema lookup, for an envelope
/// already read: whether a schema is worth resolving.
pub fn schema_needed_for(envelope: &Envelope, form: ContentForm) -> (r: bool)
    ensures
        r == subject_wants_schema(envelope.content@, bytes_view(envelope.output), form),
{
    match &envelope.output {
        Some(v) => match output_shape(v.as_slice()) {
            OutputShape::Text(inner) => is_syntactically_valid(inner.as_slice()),
            OutputShape::Object => true,
            OutputShape::Other => false,
        },
        None => match extract_payload(&envelope.content, form) {
            Some(payload) => is_syntactically_valid(payload.as_slice()),
            None => false,
        },
    }
}

/// The syntax check that runs before any schema lookup: whether a schema
/// is worth resolving for this record value.
pub fn schema_needed(value: &[u8], form: ContentForm) -> (r: bool)
    ensures
        r == wants_schema(value@, form),
{
    match envelope_of(value) {
        Ok(e) => schema_needed_for(&e, form),
        Err(_) => false,
    }
}

/// Where the syntax check fails, the verdict is the same whatever schema
/// was resolved, or none: skipping the lookup changes no outcome.
pub proof fn lemma_schema_unneeded(
    raw: Seq<u8>,
    form: ContentForm,
    schema1: Option<Seq<u8>>,
    schema2: Option<Seq<u8>>,
)
    requires
        !wants_schema(raw, form),
    ensures
        read_value(raw) matches Ok((_, content, output)) ==> subject_valid(
            content,
            output,
            form,
            schema1,
        ) == subject_valid(content, output, form, schema2),
{
}

/// The record that a retry writes, for the wire text `raw` that failed
/// validation; `None` once the record is dead-lettered instead (or `raw` is
/// no envelope).
pub open spec fn retried(raw: Seq<u8>) -> Option<Seq<u8>> {
    match parse_envelope(raw) {
        Some((attempts, content, output)) => if destination_of(attempts, false, Variant::Verified)
            == Destination::Retry {
            routed_value(Some(raw), attempts, content, output, false, Variant::Verified)
        } else {
            None
        },
        None => None,
    }
}

/// The wire text after `k` consecutive failed cycles, starting from `raw`.
pub open spec fn after_failures(raw: Seq<u8>, k: nat) -> Option<Seq<u8>>
    decreases k,
{
    if k == 0 {
        Some(raw)
    } else {
        match after_failures(raw, (k - 1) as nat) {
            Some(prev) => retried(prev),
            None => None,
        }
    }
}

/// Across consecutive validation failures of one record the attempt count
/// climbs by exactly one per cycle and the content stays as it was, for as
/// long as the record is retried.
pub proof fn lemma_attempts_climb(
    attempts: nat,
    content: Seq<u8>,
    output: Option<Seq<u8>>,
    k: nat,
)
    requires
        is_utf8(content),
        output matches Some(v) ==> json_parses(v),
        attempts + k <= MAX_ATTEMPTS,
    ensures
        after_failures(envelope_text(attempts, content, output), k) == Some(
            envelope_text(attempts + k, content, output),
        ),
        parse_envelope(envelope_text(attempts + k, content, output)) == Some(
            (attempts + k, content, output),
        ),
    decreases k,
{
    lemma_round_trip((attempts + k) as nat, content, output);
    if k > 0 {
        lemma_attempts_climb(attempts, content, output, (k - 1) as nat);
        let prev = envelope_text((attempts + k - 1) as nat, content, output);
        assert(parse_envelope(prev) == Some(((attempts + k - 1) as nat, content, output)));
        assert(retried(prev) == Some(envelope_text(attempts + k, content, output)));
    }
}

/// A failure while attempts remain never dead-letters, and a failure once
/// they are exhausted never retries: the retry and dead-letter channels
/// split the invalid records between them, the success channel of the
/// pipeline takes the valid ones, and no input has two destinations.
pub proof fn lemma_one_destination(attempts: nat, valid: bool, variant: Variant)
    ensures
        (destination_of(attempts, valid, variant) == Destination::Retry) == (!valid && attempts
            < MAX_ATTEMPTS),
        (destination_of(attempts, valid, variant) == Destination::DeadLetter) == (!valid
            && attempts >= MAX_ATTEMPTS),
        (destination_of(attempts, valid, variant) == Destination::Success) == (valid && variant
            == Variant::Verified),
        (destination_of(attempts, valid, variant) == Destination::Structured) == (valid && variant
            == Variant::Structured),
{
}

/// The value that the intake stage writes for a fresh record: an envelope
/// with no failed attempts around the record's value, framed with the
/// verified schema id.
pub open spec fn intake_value(value: Option<Seq<u8>>) -> Seq<u8> {
    let content = match value {
        Some(v) => v,
        None => Seq::<u8>::empty(),
    };
    framed(VERIFIED_SCHEMA_ID, envelope_text(0, content, None))
}

/// Wraps a record from the outside source in a fresh envelope; a missing
/// value becomes empty content. The value's bytes are carried as the
/// content string whatever text they hold, JSON included, and read back
/// unchanged by `envelope_of`. A value that is not UTF-8 text is refused
/// with `InvalidEncoding`. The key is kept.
pub fn intake(input: Record) -> (r: Result<Record, DecodeError>)
    ensures
        match bytes_view(input.value) {
            Some(v) if !is_utf8(v) => r == Err::<Record, DecodeError>(
                DecodeError::InvalidEncoding,
            ),
            _ => r matches Ok(out) && out.key == input.key && bytes_view(out.value) == Some(
                intake_value(bytes_view(input.value)),
            ),
        },
{
    let Record { key, value } = input;
    let content = match value {
        Some(v) => {
            if !utf8_valid(v.as_slice()) {
                return Err(DecodeError::InvalidEncoding);
            }
            v
        },
        None => Vec::new(),
    };
    assert(content@ == match bytes_view(value) {
        Some(v) => v,
        None => Seq::<u8>::empty(),
    });
    let text = encode_envelope(&Envelope { attempts: 0, content, output: None });
    Ok(Record { key, value: Some(frame(VERIFIED_SCHEMA_ID, text.as_slice())) })
}

} // verus!
