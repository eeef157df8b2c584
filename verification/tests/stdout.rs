use obs_core::sink::calendar::civil_from_days;
use obs_core::sink::ndjson::{payload_fields, render_json_value};
use obs_core::sink::stdout::{
    compact_labels, iso8601_utc, needs_quoting, render_compact, render_full, render_json,
    render_pretty, tracing_style_fields,
};
use obs_core::{
    EnumValue, FormatterStyle, ObsEnvelope, SchemaRegistry, ScrubbedEnvelope, Severity, StdoutSink,
    Tier,
};

fn env(full_name: &str, sev: Severity, ts_ns: u64) -> ObsEnvelope {
    ObsEnvelope {
        full_name: full_name.to_string(),
        sev: EnumValue::Known(sev),
        ts_ns,
        ..Default::default()
    }
}

// 2026-05-07T15:31:00 UTC = 1778167860 seconds since epoch, and 123_456 µs.
const REF_TS_NS: u64 = 1_778_167_860_000_000_000 + 123_456_000;

#[test]
fn test_iso8601_utc_matches_tracing_fmt_shape() {
    let s = iso8601_utc(REF_TS_NS);
    assert_eq!(s, "2026-05-07T15:31:00.123456Z");
}

#[test]
fn test_render_compact_mirrors_tracing_fmt_compact() {
    let mut e = env("my_crate.process_order", Severity::Info, REF_TS_NS);
    e.labels.insert("id".to_string(), "42".to_string());
    e.labels.insert("item".to_string(), "Rust Book".to_string());
    let line = render_compact(&e);
    assert_eq!(
        line,
        "2026-05-07T15:31:00.123456Z  INFO process_order{id=42 item=\"Rust Book\"}: \
         my_crate.process_order\n"
    );
}

#[test]
fn test_render_compact_appends_trace_context_when_present() {
    let mut e = env("x.y", Severity::Info, REF_TS_NS);
    e.trace_id = "0123456789abcdef0123456789abcdef".to_string();
    e.span_id = "0123456789abcdef".to_string();
    let line = render_compact(&e);
    assert_eq!(
        line,
        "2026-05-07T15:31:00.123456Z  INFO x.y: trace_id=0123456789abcdef0123456789abcdef \
         span_id=0123456789abcdef\n"
    );
}

#[test]
fn test_render_compact_drops_scope_block_when_no_labels() {
    let e = env("x.y.Z", Severity::Info, REF_TS_NS);
    let line = render_compact(&e);
    assert_eq!(line, "2026-05-07T15:31:00.123456Z  INFO x.y.Z\n");
}

#[test]
fn test_render_compact_pads_severity_to_five() {
    let e = env("x.y", Severity::Warn, 0);
    let line = render_compact(&e);
    assert!(line.contains(" WARN "), "line: {line}");
}

#[test]
fn test_tracing_style_fields_quotes_when_needed() {
    let mut e = env("x.y", Severity::Info, 0);
    e.labels.insert("a".to_string(), "simple".to_string());
    e.labels.insert("b".to_string(), "with space".to_string());
    e.labels.insert("c".to_string(), "with \"quote\"".to_string());
    let s = tracing_style_fields(&e);
    assert!(s.contains("a=simple"));
    assert!(s.contains("b=\"with space\""));
    assert!(s.contains(r#"c="with \"quote\"""#));
}

#[test]
fn test_civil_from_days_round_trip_recent_dates() {
    assert_eq!(civil_from_days(0), (1970, 1, 1));
    assert_eq!(civil_from_days(20_580), (2026, 5, 7));
    assert_eq!(civil_from_days(19_782), (2024, 2, 29));
}

#[test]
fn centuries_are_no_leap_years_unless_they_divide_by_four() {
    // 2000-02-29, 2000-03-01, 2100-02-28 and 2100-03-01.
    assert_eq!(civil_from_days(11_016), (2000, 2, 29));
    assert_eq!(civil_from_days(11_017), (2000, 3, 1));
    assert_eq!(civil_from_days(47_540), (2100, 2, 28));
    assert_eq!(civil_from_days(47_541), (2100, 3, 1));
    assert_eq!(civil_from_days(-1), (1969, 12, 31));
}

fn rich() -> ObsEnvelope {
    let mut e = env("a.v1.A", Severity::Error, 1_000_000_002);
    e.tier = EnumValue::Known(Tier::Log);
    e.service = "svc".to_string();
    e.version = "1.0".to_string();
    e.trace_id = "t".to_string();
    e.labels.insert("k".to_string(), "v".to_string());
    e
}

#[test]
fn the_full_style_is_one_line_with_names() {
    assert_eq!(
        render_full(&rich(), 7),
        "[         1.000000002 error] log    a.v1.A \
         service=svc instance=- version=1.0 reason=unspecified \
         trace_id=t span_id=- parent=- \
         label.k=v \
         payload_bytes=7\n"
    );
}

#[test]
fn the_pretty_style_is_for_people() {
    assert_eq!(
        render_pretty(&rich(), 7),
        "─── a.v1.A @ 1.000000002 error log ───\n    \
         service: svc (1.0) instance: \n    \
         trace:   t/ parent=\n    \
         labels:\n        \
         k = v\n    \
         payload: 7 bytes\n"
    );
}

#[test]
fn the_json_style_is_one_object() {
    let text = render_json(&rich());
    let v: serde_json::Value = serde_json::from_str(&text).unwrap();
    assert_eq!(v["full_name"], "a.v1.A");
    assert_eq!(v["sev"], "error");
    assert_eq!(v["ts_ns"], 1_000_000_002u64);
    assert_eq!(v["labels"]["k"], "v");
    assert!(v.get("instance").is_none());
}

#[test]
fn a_line_of_a_file_carries_the_payload() {
    assert!(payload_fields(&[], None).is_empty());
    let mut payload = serde_json::Map::new();
    payload.insert("n".to_string(), serde_json::Value::from(3));
    let v: serde_json::Value = serde_json::from_str(&render_json_value(&rich(), payload)).unwrap();
    assert_eq!(v["payload"]["n"], 3);
    assert_eq!(v["labels"]["k"], "v");
    let bare: serde_json::Value =
        serde_json::from_str(&render_json_value(&rich(), serde_json::Map::new())).unwrap();
    assert!(bare.get("payload").is_none());
}

#[test]
fn values_are_quoted_where_they_could_be_misread() {
    let quoted = |s: &str| needs_quoting(&s.chars().collect::<Vec<_>>());
    assert!(!quoted("abc"));
    assert!(!quoted(""));
    assert!(!quoted("{a}"));
    assert!(quoted("a b"));
    assert!(quoted("a=b"));
    assert!(quoted("a\"b"));
    assert_eq!(compact_labels(&rich()), "{k=v}");
    assert_eq!(compact_labels(&env("x", Severity::Info, 0)), "{}");
}

#[test]
fn a_sink_drops_what_is_under_its_floor() {
    let registry = SchemaRegistry::empty();
    let sink = StdoutSink::new(FormatterStyle::Compact).severity_floor(Severity::Warn);
    let low = env("x.y", Severity::Info, 0);
    assert!(sink.deliver(ScrubbedEnvelope::pass_through(&low, &registry)).is_none());
    let high = env("x.y", Severity::Warn, 0);
    let (sev, text) = sink.deliver(ScrubbedEnvelope::pass_through(&high, &registry)).unwrap();
    assert_eq!(sev, Severity::Warn);
    assert_eq!(text, render_compact(&high));
    assert_eq!(StdoutSink::default().style, FormatterStyle::Compact);
}
