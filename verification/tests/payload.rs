use buffa::encoding::{Tag, WireType};
use buffa::types;
use bytes::BytesMut;
use obs_core::envelope::{FieldMeta, FieldRole};
use obs_core::registry::payload_decode::{
    decode_to_arrow_struct_default, decode_to_otlp_kv_default, project_metrics_default,
    render_json_default, ArrowCell, OtlpValue, PayloadJson, Reading,
};
use obs_core::registry::{scrub_payload, DecodeError, ScrubError};
use obs_core::{Cardinality, Classification, EventSchemaErased, Severity, Tier};

fn meta(name: &'static str, number: u32, role: FieldRole, c: Classification) -> FieldMeta {
    FieldMeta::new(name, number, role, Cardinality::Unspecified, c)
}

fn attribute(name: &'static str, number: u32, c: Classification) -> FieldMeta {
    meta(name, number, FieldRole::Attribute, c)
}

fn text_field(number: u32, value: &str, out: &mut BytesMut) {
    Tag::new(number, WireType::LengthDelimited).encode(out);
    types::encode_string(value, out);
}

fn number_field(number: u32, value: u64, out: &mut BytesMut) {
    Tag::new(number, WireType::Varint).encode(out);
    types::encode_uint64(value, out);
}

#[test]
fn test_render_json_should_project_string_field() {
    let mut p = BytesMut::new();
    text_field(1, "alice", &mut p);
    let fields = [attribute("user", 1, Classification::Internal)];
    let mut out = Vec::new();
    render_json_default(&p, &fields, &mut out).expect("render");
    assert_eq!(out.len(), 1);
    assert_eq!(out[0].0, "user");
    assert!(matches!(&out[0].1, PayloadJson::Text(s) if s == "alice"));
}

#[test]
fn test_render_json_should_redact_pii_field() {
    let mut p = BytesMut::new();
    text_field(1, "alice@example.com", &mut p);
    let fields = [attribute("email", 1, Classification::Pii)];
    let mut out = Vec::new();
    render_json_default(&p, &fields, &mut out).expect("render");
    assert_eq!(out.len(), 1);
    assert_eq!(out[0].0, "email");
    assert!(matches!(&out[0].1, PayloadJson::Text(s) if s == "<redacted>"));
}

#[test]
fn test_otlp_kv_should_promote_measurement_to_int() {
    let mut p = BytesMut::new();
    number_field(2, 1_500, &mut p);
    let fields = [meta("latency_ms", 2, FieldRole::Measurement, Classification::Internal)];
    let mut out = Vec::new();
    decode_to_otlp_kv_default(&p, &fields, &mut out).expect("decode");
    assert_eq!(out.len(), 1);
    assert_eq!(out[0].0, "latency_ms");
    assert!(matches!(out[0].1, OtlpValue::Int(1_500)));
}

fn cell(name: &str, out: &[(&'static str, ArrowCell)]) -> String {
    let (_, c) = out.iter().find(|(n, _)| *n == name).expect("a cell of that name");
    match c {
        ArrowCell::Str(s) => format!("str:{s}"),
        ArrowCell::U64(v) => format!("u64:{v}"),
        ArrowCell::I64(v) => format!("i64:{v}"),
        ArrowCell::Null => "null".to_string(),
        c => format!("{c:?}"),
    }
}

#[test]
fn test_decode_to_arrow_struct_default_should_dispatch_per_field() {
    let mut p = BytesMut::new();
    text_field(1, "alice", &mut p);
    number_field(2, 1_500, &mut p);
    let fields = [
        attribute("user", 1, Classification::Internal),
        meta("latency_ms", 2, FieldRole::Measurement, Classification::Internal),
        attribute("missing", 3, Classification::Internal),
    ];
    let mut out = Vec::new();
    decode_to_arrow_struct_default(&p, &fields, &mut out).expect("decode");
    assert_eq!(cell("user", &out), "str:alice");
    assert_eq!(cell("latency_ms", &out), "u64:1500");
    assert_eq!(cell("missing", &out), "null");
}

#[test]
fn test_decode_to_arrow_struct_default_should_redact_pii() {
    let mut p = BytesMut::new();
    text_field(1, "alice@example.com", &mut p);
    let fields = [attribute("email", 1, Classification::Pii)];
    let mut out = Vec::new();
    decode_to_arrow_struct_default(&p, &fields, &mut out).expect("decode");
    assert_eq!(cell("email", &out), "str:<redacted>");
}

#[test]
fn test_should_skip_unknown_field_numbers() {
    let mut p = BytesMut::new();
    text_field(99, "future", &mut p);
    let mut out = Vec::new();
    render_json_default(&p, &[], &mut out).expect("render");
    assert!(out.is_empty());
}

#[test]
fn test_should_redact_pii_string_with_marker() {
    let mut payload = BytesMut::new();
    text_field(1, "alice@example.com", &mut payload);
    let fields = [attribute("email", 1, Classification::Pii)];
    let mut scratch = BytesMut::new();
    let scrubbed = scrub_payload(&payload, &fields, &mut scratch).expect("scrub");
    let s = String::from_utf8(scrubbed.to_vec()).expect("utf8");
    assert!(!s.contains("alice@example.com"));
    assert!(s.contains("<redacted-email>"));
}

#[test]
fn test_should_drop_secret_varint() {
    let mut payload = BytesMut::new();
    number_field(2, 123_456, &mut payload);
    let fields = [attribute("key_id", 2, Classification::Secret)];
    let mut scratch = BytesMut::new();
    let out = scrub_payload(&payload, &fields, &mut scratch).expect("scrub");
    assert!(out.is_empty());
}

#[test]
fn test_should_passthrough_internal_fields() {
    let mut payload = BytesMut::new();
    text_field(1, "public", &mut payload);
    number_field(2, 42, &mut payload);
    let fields = vec![
        attribute("route", 1, Classification::Internal),
        attribute("count", 2, Classification::Internal),
    ];
    let mut scratch = BytesMut::new();
    let out = scrub_payload(&payload, &fields, &mut scratch).expect("scrub");
    assert_eq!(out, &payload[..]);
}

#[test]
fn test_should_passthrough_unknown_field_numbers() {
    let mut payload = BytesMut::new();
    text_field(99, "future", &mut payload);
    let mut scratch = BytesMut::new();
    let out = scrub_payload(&payload, &[], &mut scratch).expect("scrub");
    assert_eq!(out, &payload[..]);
}

#[test]
fn test_should_redact_only_classified_in_mixed_payload() {
    let mut payload = BytesMut::new();
    text_field(1, "public", &mut payload);
    text_field(2, "topsecret", &mut payload);
    let fields = vec![
        attribute("route", 1, Classification::Internal),
        attribute("password", 2, Classification::Secret),
    ];
    let mut scratch = BytesMut::new();
    let out = scrub_payload(&payload, &fields, &mut scratch).expect("scrub");
    let s = String::from_utf8(out.to_vec()).expect("utf8");
    assert!(s.contains("public"));
    assert!(!s.contains("topsecret"));
    assert!(s.contains("<redacted-password>"));
}

#[test]
fn a_broken_payload_is_refused() {
    let mut scratch = BytesMut::new();
    // A length of nine and one byte.
    let short = [0x0A, 9, b'x'];
    let err = scrub_payload(&short, &[], &mut scratch).unwrap_err();
    let ScrubError::ReencodeFailed(name) = err;
    assert_eq!(name, "ld_payload");
    let mut out = Vec::new();
    let fields = [attribute("user", 1, Classification::Internal)];
    let ScrubError::ReencodeFailed(name) =
        scrub_payload(&short, &fields, &mut scratch).unwrap_err();
    assert_eq!(name, "user");
    let err = render_json_default(&short, &fields, &mut out).unwrap_err();
    assert!(matches!(err, DecodeError::Truncated(_)), "{err:?}");
}

#[test]
fn scrubbing_twice_changes_nothing_more() {
    let mut payload = BytesMut::new();
    text_field(1, "alice@example.com", &mut payload);
    number_field(2, 7, &mut payload);
    Tag::new(3, WireType::Fixed64).encode(&mut payload);
    types::encode_fixed64(11, &mut payload);
    let fields = [
        attribute("email", 1, Classification::Pii),
        attribute("key", 2, Classification::Secret),
        attribute("plain", 3, Classification::Unspecified),
    ];
    let mut scratch = BytesMut::new();
    let once = scrub_payload(&payload, &fields, &mut scratch).unwrap().to_vec();
    let twice = scrub_payload(&once, &fields, &mut scratch).unwrap().to_vec();
    assert_eq!(once, twice);
}

#[test]
fn measurements_become_metric_points() {
    let mut p = BytesMut::new();
    number_field(1, 3, &mut p);
    Tag::new(2, WireType::Fixed64).encode(&mut p);
    types::encode_double(2.5, &mut p);
    number_field(3, 9, &mut p);
    let fields = [
        meta("count", 1, FieldRole::Measurement, Classification::Internal),
        meta("ratio", 2, FieldRole::Measurement, Classification::Internal),
        attribute("other", 3, Classification::Internal),
    ];
    let mut out = Vec::new();
    project_metrics_default(&p, &fields, &mut out).unwrap();
    assert_eq!(out.len(), 2);
    assert_eq!(out[0].instrument, "count");
    assert_eq!(out[0].reading, Reading::Counter(3));
    assert_eq!(out[0].unit, "1");
    assert_eq!(out[1].reading, Reading::GaugeDouble(2.5f64.to_bits()));
    assert_eq!(out[1].unit, "1");
}

#[test]
fn a_schema_decodes_with_its_own_fields() {
    let schema = EventSchemaErased::new(
        "a.v1.A",
        1,
        Tier::Metric,
        Severity::Info,
        vec![
            attribute("user", 1, Classification::Internal),
            meta("count", 2, FieldRole::Measurement, Classification::Internal),
        ],
    );
    let mut p = BytesMut::new();
    text_field(1, "alice", &mut p);
    number_field(2, 3, &mut p);
    let mut otlp = Vec::new();
    schema.decode_to_otlp_kv(&p, &mut otlp).unwrap();
    assert!(matches!(&otlp[0].1, OtlpValue::String(s) if s == "alice"));
    let mut points = Vec::new();
    schema.project_metrics(&p, &mut points).unwrap();
    assert_eq!(points[0].reading, Reading::Counter(3));
    let mut cells = Vec::new();
    schema.decode_to_arrow_struct(&p, &mut cells).unwrap();
    assert_eq!(cell("user", &cells), "str:alice");
    assert_eq!(schema.tier(), Tier::Metric);
    assert_eq!(schema.default_sev(), Severity::Info);
    assert_eq!(schema.fields().len(), 2);
    let mut scratch = BytesMut::new();
    assert_eq!(schema.scrub_for_log(&p, &mut scratch).unwrap(), &p[..]);
}

#[test]
fn bytes_that_are_no_text_become_base64() {
    let fields = [attribute("blob", 1, Classification::Internal)];
    for (bytes, text) in [
        (vec![0xFFu8], "/w=="),
        (vec![0xFB, 0xF0], "+/A="),
        (vec![0xFF, 0x00, 0x10], "/wAQ"),
        (vec![0xFF, 0xFE, 0xFD, 0x61], "//79YQ=="),
    ] {
        let mut p = vec![0x0A, bytes.len() as u8];
        p.extend_from_slice(&bytes);
        let mut out = Vec::new();
        render_json_default(&p, &fields, &mut out).unwrap();
        assert!(matches!(&out[0].1, PayloadJson::Text(s) if s == text), "{out:?}");
    }
    assert_eq!(obs_core::base64::base64_text(b"foobar"), "Zm9vYmFy");
}

#[test]
fn what_is_classified_does_not_show_however_numbers_are_spelled() {
    let fields =
        [attribute("pin", 1, Classification::Secret), attribute("n", 2, Classification::Internal)];
    // The tag of the second field and both numbers are longer than they need be.
    let short = [0x0A, 1, b'x', 0x10, 0x05];
    let long = [0x0A, 0x82, 0x00, b'y', b'z', 0x90, 0x00, 0x85, 0x80, 0x00];
    let mut scratch = BytesMut::new();
    let a = scrub_payload(&short, &fields, &mut scratch).unwrap().to_vec();
    let b = scrub_payload(&long, &fields, &mut scratch).unwrap().to_vec();
    assert_eq!(a, b);
    assert_eq!(a, b"\x0A\x0E<redacted-pin>\x10\x05");
}
