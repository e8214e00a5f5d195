use record_router::codec::{decode_envelope, encode_envelope, Envelope};
use record_router::framing::{frame, unframe};
use record_router::resolver::SchemaCache;
use record_router::router::{
    decide, envelope_of, intake, process, route_envelope, schema_needed, schema_needed_for, Destination, Record, Variant, MAX_ATTEMPTS,
};
use record_router::validate::{
    conforms, extract_payload, is_syntactically_valid, output_shape, output_verdict, verdict,
    ContentForm, OutputShape,
};
use record_router::DecodeError;

const SCHEMA: &str =
    r#"{"type":"object","properties":{"a":{"type":"integer"}},"required":["a"]}"#;

fn envelope_text(attempts: u32, content: &str) -> Vec<u8> {
    format!("{{\"attempts\":{},\"content\":\"{}\"}}", attempts, content).into_bytes()
}

fn record(key: &[u8], value: Vec<u8>) -> Record {
    Record { key: Some(key.to_vec()), value: Some(value) }
}

fn schema() -> Vec<u8> {
    SCHEMA.as_bytes().to_vec()
}

#[test]
fn unparsable_content_is_retried_with_one_attempt() {
    let s = schema();
    let d = process(record(b"k1", envelope_text(0, "not json")), ContentForm::Text, Variant::Verified, Some(&s))
        .unwrap();
    assert_eq!(d.destination, Destination::Retry);
    assert_eq!(d.record.key, Some(b"k1".to_vec()));
    assert_eq!(d.record.value, Some(br#"{"attempts":1,"content":"not json"}"#.to_vec()));
    assert!(d.soft_error);
}

#[test]
fn conforming_base64_content_goes_to_success_framed() {
    let s = schema();
    let input = envelope_text(0, "eyJhIjoxfQ==");
    let d = process(record(b"k2", input.clone()), ContentForm::Base64, Variant::Verified, Some(&s))
        .unwrap();
    assert_eq!(d.destination, Destination::Success);
    assert_eq!(d.record.key, Some(b"k2".to_vec()));
    let mut expected = vec![0u8, 0, 0, 0, 1];
    expected.extend_from_slice(&input);
    assert_eq!(d.record.value, Some(expected));
    assert!(!d.soft_error);
}

#[test]
fn mismatching_content_at_the_limit_is_dead_lettered_unmodified() {
    let s = schema();
    let input = envelope_text(3, "eyJhIjoieCJ9");
    let d = process(record(b"k3", input.clone()), ContentForm::Base64, Variant::Verified, Some(&s))
        .unwrap();
    assert_eq!(d.destination, Destination::DeadLetter);
    assert_eq!(d.record.key, Some(b"k3".to_vec()));
    assert_eq!(d.record.value, Some(input));
    assert!(!d.soft_error);
}

#[test]
fn bad_base64_is_a_decode_error() {
    let s = schema();
    let r = process(record(b"k4", envelope_text(0, "!!not base64!!")), ContentForm::Base64, Variant::Verified, Some(&s));
    assert_eq!(r.err(), Some(DecodeError::InvalidEncoding));
}

#[test]
fn boundary_two_attempts_retry_three_dead_letter() {
    let s = schema();
    let d = process(record(b"k", envelope_text(2, "eyJhIjoieCJ9")), ContentForm::Base64, Variant::Verified, Some(&s))
        .unwrap();
    assert_eq!(d.destination, Destination::Retry);
    assert_eq!(d.record.value, Some(envelope_text(3, "eyJhIjoieCJ9")));
    let input = envelope_text(3, "eyJhIjoieCJ9");
    let d = process(record(b"k", input.clone()), ContentForm::Base64, Variant::Verified, Some(&s))
        .unwrap();
    assert_eq!(d.destination, Destination::DeadLetter);
    assert_eq!(d.record.value, Some(input));
    assert_eq!(MAX_ATTEMPTS, 3);
}

#[test]
fn consecutive_failures_climb_by_one_until_dead_letter() {
    let s = schema();
    let mut value = envelope_text(0, "nope");
    let mut seen = Vec::new();
    loop {
        let d = process(record(b"same", value.clone()), ContentForm::Text, Variant::Verified, Some(&s))
            .unwrap();
        if d.destination == Destination::DeadLetter {
            assert_eq!(d.record.value, Some(value.clone()));
            break;
        }
        assert_eq!(d.destination, Destination::Retry);
        value = d.record.value.unwrap();
        seen.push(decode_envelope(&value).unwrap().attempts);
    }
    assert_eq!(seen, vec![1, 2, 3]);
}

#[test]
fn every_destination_keeps_the_key() {
    let s = schema();
    let key = b"\x00\xffkey".to_vec();
    let cases = [
        (envelope_text(0, r#"{\"a\":1}"#), Variant::Verified, Destination::Success),
        (envelope_text(0, r#"{\"a\":1}"#), Variant::Structured, Destination::Structured),
        (envelope_text(1, r#"{\"a\":true}"#), Variant::Verified, Destination::Retry),
        (envelope_text(5, r#"{\"a\":true}"#), Variant::Structured, Destination::DeadLetter),
    ];
    for (value, variant, dest) in cases {
        let input = Record { key: Some(key.clone()), value: Some(value) };
        let d = process(input, ContentForm::Text, variant, Some(&s)).unwrap();
        assert_eq!(d.destination, dest);
        assert_eq!(d.record.key, Some(key.clone()));
    }
    let d = process(Record { key: None, value: Some(envelope_text(0, "x")) }, ContentForm::Text, Variant::Verified, Some(&s))
        .unwrap();
    assert_eq!(d.record.key, None);
}

#[test]
fn structured_variant_writes_the_record_unchanged() {
    let s = schema();
    let input = envelope_text(2, r#"{\"a\":7}"#);
    let d = process(record(b"k", input.clone()), ContentForm::Text, Variant::Structured, Some(&s)).unwrap();
    assert_eq!(d.destination, Destination::Structured);
    assert_eq!(d.record.value, Some(input));
}

#[test]
fn missing_schema_counts_as_a_failed_attempt() {
    let d = process(record(b"k", envelope_text(0, r#"{\"a\":1}"#)), ContentForm::Text, Variant::Verified, None)
        .unwrap();
    assert_eq!(d.destination, Destination::Retry);
    assert_eq!(d.record.value, Some(envelope_text(1, r#"{\"a\":1}"#)));
}

#[test]
fn malformed_envelopes_are_rejected() {
    let s = schema();
    let bad: Vec<&[u8]> = vec![
        b"",
        b"not an envelope",
        br#"{"attempts":01,"content":"x"}"#,
        br#"{"attempts":-1,"content":"x"}"#,
        br#"{"attempts":4294967296,"content":"x"}"#,
        br#"{"attempts":1,"content":"x"} "#,
        br#"{"attempts":1,"content":"a"b"}"#,
        br#"{"attempts":1,"content":"a\qb"}"#,
        br#"{"attempts":,"content":"x"}"#,
    ];
    for raw in bad {
        let r = process(record(b"k", raw.to_vec()), ContentForm::Text, Variant::Verified, Some(&s));
        assert_eq!(r.err(), Some(DecodeError::MalformedEnvelope), "{:?}", String::from_utf8_lossy(raw));
    }
    let r = process(Record { key: None, value: None }, ContentForm::Text, Variant::Verified, Some(&s));
    assert_eq!(r.err(), Some(DecodeError::MalformedEnvelope));
}

#[test]
fn both_counter_spellings_decode() {
    let e = decode_envelope(br#"{"attempt":7,"content":"hi"}"#).unwrap();
    assert_eq!(e.attempts, 7);
    assert_eq!(e.content, b"hi".to_vec());
    let e = decode_envelope(br#"{"attempts":4294967295,"content":""}"#).unwrap();
    assert_eq!(e.attempts, u32::MAX);
    assert!(e.content.is_empty());
}

#[test]
fn envelope_round_trips_with_escapes() {
    let content = b"say \"hi\"\\ back\n\tnow\r".to_vec();
    let e = Envelope { attempts: 12, content: content.clone(), output: None };
    let text = encode_envelope(&e);
    assert_eq!(text, br#"{"attempts":12,"content":"say \"hi\"\\ back\n\tnow\r"}"#.to_vec());
    let back = decode_envelope(&text).unwrap();
    assert_eq!(back.attempts, 12);
    assert_eq!(back.content, content);
}

#[test]
fn encoding_writes_canonical_numbers() {
    let e = Envelope { attempts: 0, content: b"x".to_vec(), output: None };
    assert_eq!(encode_envelope(&e), br#"{"attempts":0,"content":"x"}"#.to_vec());
    let e = Envelope { attempts: 1090, content: Vec::new(), output: None };
    assert_eq!(encode_envelope(&e), br#"{"attempts":1090,"content":""}"#.to_vec());
}

#[test]
fn framing_is_magic_then_big_endian_id() {
    assert_eq!(frame(258, b"xy"), vec![0u8, 0, 0, 1, 2, b'x', b'y']);
    assert_eq!(frame(-1, b""), vec![0u8, 0xff, 0xff, 0xff, 0xff]);
    let f = unframe(&[0u8, 0x12, 0x34, 0x56, 0x78, 9]).unwrap();
    assert_eq!(f.schema_id, 0x12345678);
    assert_eq!(f.payload, vec![9u8]);
    assert_eq!(unframe(&[0u8, 1, 2, 3]).err(), Some(DecodeError::BadFraming));
    assert_eq!(unframe(&[1u8, 1, 2, 3, 4]).err(), Some(DecodeError::BadFraming));
}

#[test]
fn syntax_stage_accepts_only_json() {
    assert!(!is_syntactically_valid(b"not json"));
    assert!(is_syntactically_valid(br#"{"a":1}"#));
    assert!(is_syntactically_valid(b"\"a string\""));
    assert!(!is_syntactically_valid(b""));
}

#[test]
fn conformance_is_repeatable_and_fails_closed() {
    let s = schema();
    assert!(conforms(br#"{"a":1}"#, &s));
    assert!(conforms(br#"{"a":1}"#, &s));
    assert!(!conforms(br#"{"a":"x"}"#, &s));
    assert!(!conforms(br#"{"a":"x"}"#, &s));
    assert!(!conforms(b"not json", &s));
    assert!(!conforms(br#""{\"a\":1}""#, &s));
    assert!(!conforms(br#"{"a":1}"#, br#"{"type":"nonsense"}"#));
    assert!(verdict(br#"{"a":1}"#, Some(&s)));
    assert!(!verdict(br#"{"a":1}"#, None));
}

#[test]
fn base64_payload_is_decoded() {
    assert_eq!(extract_payload(&b"eyJhIjoxfQ==".to_vec(), ContentForm::Base64), Some(br#"{"a":1}"#.to_vec()));
    assert_eq!(extract_payload(&b"eyJhIjoxfQ".to_vec(), ContentForm::Base64), None);
    assert_eq!(extract_payload(&b"abc".to_vec(), ContentForm::Text), Some(b"abc".to_vec()));
}

#[test]
fn decide_uses_the_attempt_count() {
    let e = Envelope { attempts: 2, content: b"c".to_vec(), output: None };
    let d = decide(record(b"k", b"orig".to_vec()), &e, false, Variant::Verified);
    assert_eq!(d.destination, Destination::Retry);
    assert_eq!(d.record.value, Some(envelope_text(3, "c")));
    let e = Envelope { attempts: u32::MAX, content: b"c".to_vec(), output: None };
    let d = decide(record(b"k", b"orig".to_vec()), &e, false, Variant::Verified);
    assert_eq!(d.destination, Destination::DeadLetter);
    assert_eq!(d.record.value, Some(b"orig".to_vec()));
}

#[test]
fn intake_frames_a_fresh_envelope() {
    let r = intake(record(b"k", br#"{"a":1}"#.to_vec())).unwrap();
    assert_eq!(r.key, Some(b"k".to_vec()));
    let mut expected = vec![0u8, 0, 0, 0, 1];
    expected.extend_from_slice(br#"{"attempts":0,"content":"{\"a\":1}"}"#);
    assert_eq!(r.value, Some(expected));
    let r = intake(Record { key: None, value: None }).unwrap();
    let mut expected = vec![0u8, 0, 0, 0, 1];
    expected.extend_from_slice(br#"{"attempts":0,"content":""}"#);
    assert_eq!(r.value, Some(expected));
}

#[test]
fn topics_have_their_names() {
    assert_eq!(Destination::Success.topic(), "verified");
    assert_eq!(Destination::Structured.topic(), "structured");
    assert_eq!(Destination::Retry.topic(), "unprocessed");
    assert_eq!(Destination::DeadLetter.topic(), "unprocessable");
}

#[test]
fn cache_reads_through_and_keeps_first_entry() {
    let mut c = SchemaCache::new();
    assert!(c.get(2).is_none());
    c.insert(2, b"first".to_vec());
    c.insert(3, b"other".to_vec());
    c.insert(2, b"second".to_vec());
    assert_eq!(c.get(2), Some(&b"first".to_vec()));
    assert_eq!(c.get(3), Some(&b"other".to_vec()));
    assert!(c.get(4).is_none());
}

fn with_output(attempt: u32, content: &str, output: &str) -> Vec<u8> {
    format!("{{\"attempt\":{},\"content\":\"{}\",\"output\":{}}}", attempt, content, output)
        .into_bytes()
}

#[test]
fn output_string_holding_conforming_json_is_structured() {
    let s = schema();
    let input = with_output(0, "an email", r#""{\"a\":1}""#);
    let d = process(record(b"m", input.clone()), ContentForm::Text, Variant::Structured, Some(&s)).unwrap();
    assert_eq!(d.destination, Destination::Structured);
    assert_eq!(d.record.value, Some(input));
    assert_eq!(d.record.key, Some(b"m".to_vec()));
}

#[test]
fn output_object_is_checked_as_it_stands() {
    let s = schema();
    let d = process(record(b"m", with_output(1, "e", r#"{"a":2}"#)), ContentForm::Text, Variant::Structured, Some(&s))
        .unwrap();
    assert_eq!(d.destination, Destination::Structured);
    let d = process(record(b"m", with_output(1, "e", r#"{"a":"no"}"#)), ContentForm::Text, Variant::Structured, Some(&s))
        .unwrap();
    assert_eq!(d.destination, Destination::Retry);
    assert_eq!(
        d.record.value,
        Some(br#"{"attempts":2,"content":"e","output":{"a":"no"}}"#.to_vec())
    );
}

#[test]
fn other_output_values_fail() {
    let s = schema();
    let d = process(record(b"m", with_output(0, "e", "5")), ContentForm::Text, Variant::Structured, Some(&s))
        .unwrap();
    assert_eq!(d.destination, Destination::Retry);
    assert_eq!(d.record.value, Some(br#"{"attempts":1,"content":"e","output":5}"#.to_vec()));
    let input = with_output(3, "e", r#""not json""#);
    let d = process(record(b"m", input.clone()), ContentForm::Text, Variant::Structured, Some(&s)).unwrap();
    assert_eq!(d.destination, Destination::DeadLetter);
    assert_eq!(d.record.value, Some(input));
}

#[test]
fn output_round_trips_through_the_envelope() {
    let e = Envelope { attempts: 4, content: b"c".to_vec(), output: Some(br#"[1, "}"]"#.to_vec()) };
    let text = encode_envelope(&e);
    assert_eq!(text, br#"{"attempts":4,"content":"c","output":[1, "}"]}"#.to_vec());
    let back = decode_envelope(&text).unwrap();
    assert_eq!(back.attempts, 4);
    assert_eq!(back.content, b"c".to_vec());
    assert_eq!(back.output, Some(br#"[1, "}"]"#.to_vec()));
}

#[test]
fn output_shapes_are_told_apart() {
    assert_eq!(output_shape(br#""{\"a\":1}""#), OutputShape::Text(br#"{"a":1}"#.to_vec()));
    assert_eq!(output_shape(br#" {"a":1}"#), OutputShape::Object);
    assert_eq!(output_shape(b"[1]"), OutputShape::Other);
    assert_eq!(output_shape(b"{oops"), OutputShape::Other);
    let s = schema();
    assert!(output_verdict(br#""{\"a\":1}""#, Some(&s)));
    assert!(!output_verdict(br#""{\"a\":1}""#, None));
    assert!(!output_verdict(b"null", Some(&s)));
}

#[test]
fn schema_is_needed_only_for_json_subjects() {
    assert!(!schema_needed(&envelope_text(0, "not json"), ContentForm::Text));
    assert!(schema_needed(&envelope_text(0, r#"{\"a\":1}"#), ContentForm::Text));
    assert!(schema_needed(&envelope_text(0, "eyJhIjoxfQ=="), ContentForm::Base64));
    assert!(!schema_needed(&envelope_text(0, "!!"), ContentForm::Base64));
    assert!(!schema_needed(b"garbage", ContentForm::Text));
    assert!(schema_needed(&with_output(0, "x", r#"{"b":1}"#), ContentForm::Text));
    assert!(!schema_needed(&with_output(0, "x", "7"), ContentForm::Text));
}

#[test]
fn control_bytes_are_escaped_and_read_back() {
    let content = vec![0x01u8, b'a', 0x1f, 0x00];
    let e = Envelope { attempts: 0, content: content.clone(), output: None };
    let text = encode_envelope(&e);
    assert_eq!(text, br#"{"attempts":0,"content":"\u0001a\u001f\u0000"}"#.to_vec());
    assert_eq!(decode_envelope(&text).unwrap().content, content);
    assert_eq!(decode_envelope(br#"{"attempts":0,"content":"\u0041"}"#).err(), Some(DecodeError::MalformedEnvelope));
    assert_eq!(decode_envelope(br#"{"attempts":0,"content":"\u001F"}"#).err(), Some(DecodeError::MalformedEnvelope));
    assert_eq!(decode_envelope(br#"{"attempts":0,"content":"\u000a"}"#).err(), Some(DecodeError::MalformedEnvelope));
}

#[test]
fn intake_output_decodes_to_the_fresh_envelope() {
    let r = intake(record(b"k", vec![0x01u8])).unwrap();
    let e = envelope_of(&r.value.clone().unwrap()).unwrap();
    assert_eq!(e.attempts, 0);
    assert_eq!(e.content, vec![0x01u8]);
    assert!(e.output.is_none());
    let s = schema();
    let d = process(r, ContentForm::Text, Variant::Verified, Some(&s)).unwrap();
    assert_eq!(d.destination, Destination::Retry);
    assert_eq!(d.record.value, Some(br#"{"attempts":1,"content":"\u0001"}"#.to_vec()));
}

#[test]
fn framed_input_is_unframed_before_decoding() {
    let s = schema();
    let framed = intake(record(b"k", br#"{"a":5}"#.to_vec())).unwrap();
    let d = process(framed, ContentForm::Text, Variant::Structured, Some(&s)).unwrap();
    assert_eq!(d.destination, Destination::Structured);
    let r = process(record(b"k", vec![0u8, 1]), ContentForm::Text, Variant::Verified, Some(&s));
    assert_eq!(r.err(), Some(DecodeError::BadFraming));
}

#[test]
fn output_must_be_one_json_value() {
    let s = schema();
    for raw in [
        br#"{"attempts":0,"content":"x","output":}"#.to_vec(),
        br#"{"attempts":0,"content":"x","output":{"a":1}"#.to_vec(),
        br#"{"attempts":0,"content":"x","output":1 2}"#.to_vec(),
    ] {
        assert_eq!(decode_envelope(&raw).err(), Some(DecodeError::MalformedEnvelope));
        let r = process(record(b"k", raw), ContentForm::Text, Variant::Structured, Some(&s));
        assert_eq!(r.err(), Some(DecodeError::MalformedEnvelope));
    }
}

#[test]
fn canonical_reader_refuses_other_layouts() {
    assert_eq!(
        decode_envelope(br#"{"attempts":0,"content":{"a":1}}"#).err(),
        Some(DecodeError::MalformedEnvelope)
    );
    assert_eq!(
        decode_envelope(br#"{"attempts": 0, "content": "x"}"#).err(),
        Some(DecodeError::MalformedEnvelope)
    );
}

#[test]
fn text_that_is_not_utf8_is_refused() {
    assert_eq!(intake(record(b"k", vec![b'a', 0xff])).err(), Some(DecodeError::InvalidEncoding));
    let mut raw = br#"{"attempts":0,"content":"a"#.to_vec();
    raw.push(0xff);
    raw.extend_from_slice(br#""}"#);
    assert_eq!(decode_envelope(&raw).err(), Some(DecodeError::MalformedEnvelope));
    let raw = "{\"attempts\":0,\"content\":\"caf\u{e9}\"}".as_bytes().to_vec();
    assert_eq!(decode_envelope(&raw).unwrap().content, "caf\u{e9}".as_bytes().to_vec());
}

#[test]
fn an_envelope_read_elsewhere_is_routed_alike() {
    let s = schema();
    let e = Envelope { attempts: 1, content: br#"{"a":1}"#.to_vec(), output: None };
    assert!(schema_needed_for(&e, ContentForm::Text));
    let d = route_envelope(record(b"k", b"as received".to_vec()), &e, ContentForm::Text, Variant::Structured, Some(&s))
        .unwrap();
    assert_eq!(d.destination, Destination::Structured);
    assert_eq!(d.record.value, Some(b"as received".to_vec()));
    let e = Envelope { attempts: 1, content: br#"{"a":"x"}"#.to_vec(), output: None };
    let d = route_envelope(record(b"k", b"as received".to_vec()), &e, ContentForm::Text, Variant::Verified, Some(&s))
        .unwrap();
    assert_eq!(d.destination, Destination::Retry);
    assert_eq!(d.record.value, Some(br#"{"attempts":2,"content":"{\"a\":\"x\"}"}"#.to_vec()));
    let e = Envelope { attempts: 0, content: b"%%".to_vec(), output: None };
    assert!(!schema_needed_for(&e, ContentForm::Base64));
    let r = route_envelope(record(b"k", Vec::new()), &e, ContentForm::Base64, Variant::Verified, Some(&s));
    assert_eq!(r.err(), Some(DecodeError::InvalidEncoding));
}
