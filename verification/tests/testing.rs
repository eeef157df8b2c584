use obs_core::callsite::EnabledOutcome;
use bytes::BytesMut;
use obs_core::envelope::builder::{build_envelope, build_envelope_at};
use obs_core::limits::cap_external_string;
use obs_core::panic_hook::{panic_location, panic_message, panicked_event};
use obs_core::registry::payload_decode::PayloadJson;
use obs_core::resource::{build_resource_from_env, Environment};
use obs_core::self_event::{now_ns, saturated_ns, self_event, self_event_at, truncated_ns};
use obs_core::self_events::{
    label_oversized,
    callsite_hash_collision, label_cardinality_high, registry_initialized, truncate,
};
use obs_core::sink::in_memory::Waiting;
use obs_core::test::{matches_emitted, miss_message, render_emitted, render_envelope_payload_json};
use obs_core::text_map::TextMap;
use obs_core::{
    Cardinality, Classification, EnumValue, EventSchema, EventSchemaErased, FieldMeta, FieldRole, InMemoryObserver,
    InMemorySink, ObsCallsite, ObsEnvelope, SamplingReason, SchemaRegistry, ScrubbedEnvelope, Severity,
    Tier,
};

fn synthesize_envelope(full_name: &'static str, labels: &[(&str, &str)]) -> ObsEnvelope {
    let mut env = ObsEnvelope { full_name: full_name.to_string(), ..Default::default() };
    for (k, v) in labels {
        env.labels.insert((*k).to_string(), (*v).to_string());
    }
    env
}

fn any_matches(observer: &mut InMemoryObserver, event_type: &str, asked: &[(&str, &str)]) -> bool {
    let asked = asked.to_vec();
    observer.handle().snapshot().iter().any(|e| matches_emitted(e, event_type, &asked, &None))
}

#[test]
fn test_assert_emitted_should_match_partial() {
    let mut observer = InMemoryObserver::new();
    observer.emit_envelope(synthesize_envelope(
        "myapp.v1.ObsRequestCompleted",
        &[("route", "list_users"), ("status", "ok")],
    ));
    assert!(any_matches(&mut observer, "ObsRequestCompleted", &[("route", "list_users")]));
}

#[test]
#[should_panic(expected = "no envelope matched")]
fn test_assert_emitted_should_panic_on_miss() {
    let mut observer = InMemoryObserver::new();
    observer.emit_envelope(synthesize_envelope(
        "myapp.v1.ObsRequestCompleted",
        &[("route", "list_users")],
    ));
    let asked = [("route", "different_route")];
    if !any_matches(&mut observer, "ObsRequestCompleted", &asked) {
        let emitted = observer.handle().snapshot();
        panic!("{}", miss_message("ObsRequestCompleted", true, &emitted));
    }
}

#[test]
fn test_assert_emitted_empty_body_should_match_by_type_only() {
    let mut observer = InMemoryObserver::new();
    observer.emit_envelope(synthesize_envelope("myapp.v1.ObsHelloEmitted", &[]));
    assert!(any_matches(&mut observer, "ObsHelloEmitted", &[]));
}

#[test]
fn test_take_emitted_should_drain_thread_handle() {
    let mut observer = InMemoryObserver::new();
    observer.emit_envelope(synthesize_envelope("a.v1.ObsX", &[("k", "v")]));
    let drained = observer.handle().drain();
    assert_eq!(drained.len(), 1);
    assert!(observer.handle().drain().is_empty());
}

#[test]
fn test_callsite_helpers_compile_for_test_module() {
    let mut cs = ObsCallsite::new("a.v1.ObsX", Severity::Info, "m", "f", 1);
    let _: EnabledOutcome = cs.enabled(0);
}

#[test]
fn payload_fields_are_matched_too() {
    let env = synthesize_envelope("myapp.v1.ObsX", &[]);
    let mut payload = TextMap::new();
    payload.insert("user".to_string(), "alice".to_string());
    let asked = vec![("user", "alice")];
    assert!(!matches_emitted(&env, "ObsX", &asked, &None));
    assert!(matches_emitted(&env, "ObsX", &asked, &Some(payload)));
    assert!(!matches_emitted(&env, "ObsY", &Vec::new(), &None));
    let lines = render_emitted(&vec![env, synthesize_envelope("b.v1.B", &[])], 1);
    assert!(lines.contains("myapp.v1.ObsX"));
    assert!(!lines.contains("b.v1.B"));
}

#[test]
fn a_payload_is_shown_by_its_schema() {
    let registry = SchemaRegistry::from_schemas(vec![EventSchemaErased::new(
        "a.v1.A",
        1,
        Tier::Log,
        Severity::Info,
        vec![FieldMeta::new(
            "user",
            1,
            FieldRole::Attribute,
            Cardinality::Unspecified,
            Classification::Internal,
        )],
    )]);
    let mut env = synthesize_envelope("a.v1.A", &[]);
    assert!(render_envelope_payload_json(&synthesize_envelope("b", &[]), &registry).is_none());
    env.payload = vec![0x0A, 2, b'h', b'i'];
    let fields = render_envelope_payload_json(&env, &registry).unwrap();
    assert_eq!(fields[0].0, "user");
    assert!(matches!(&fields[0].1, PayloadJson::Text(s) if s == "hi"));
}

#[test]
fn a_ring_holds_the_latest() {
    let registry = SchemaRegistry::empty();
    let mut sink = InMemorySink::with_capacity(2);
    for name in ["a", "b", "c"] {
        let env = synthesize_envelope(name, &[]);
        sink.deliver(ScrubbedEnvelope::pass_through(&env, &registry));
    }
    let handle = sink.handle();
    assert_eq!(handle.count(), 2);
    let names: Vec<String> = handle.snapshot().into_iter().map(|e| e.full_name).collect();
    assert_eq!(names, vec!["b", "c"]);
    assert!(matches!(handle.poll_for(3, false), Waiting::Again));
    assert!(matches!(handle.poll_for(3, true), Waiting::TimedOut));
    match handle.poll_for(2, false) {
        Waiting::Ready(all) => assert_eq!(all.len(), 2),
        w => panic!("unexpected: {w:?}"),
    }
}

#[test]
fn test_should_populate_full_name_tier_sev() {
    let env = self_event("obs.runtime.v1.ObsTest", Tier::Log, Severity::Info);
    assert_eq!(env.full_name, "obs.runtime.v1.ObsTest");
    assert!(matches!(env.tier, EnumValue::Known(Tier::Log)));
    assert!(matches!(env.sev, EnumValue::Known(Severity::Info)));
}

#[test]
fn test_should_set_sampling_reason_runtime() {
    let env = self_event("obs.runtime.v1.ObsTest", Tier::Metric, Severity::Warn);
    assert!(matches!(env.sampling_reason, EnumValue::Known(SamplingReason::Runtime)));
}

#[test]
fn test_should_populate_ts_ns() {
    let before = now_ns();
    let env = self_event("obs.runtime.v1.ObsTest", Tier::Log, Severity::Info);
    let after = now_ns();
    assert!(env.ts_ns >= before);
    assert!(env.ts_ns <= after);
}

#[test]
fn times_fit_sixty_four_bits() {
    assert!(now_ns() > 1_600_000_000_000_000_000);
    assert_eq!(saturated_ns(None), 0);
    assert_eq!(saturated_ns(Some(u128::MAX)), u64::MAX);
    assert_eq!(truncated_ns(Some((1u128 << 64) + 5)), 5);
    assert_eq!(self_event_at("x", Tier::Log, Severity::Info, 9).ts_ns, 9);
}

#[test]
fn runtime_events_say_what_happened() {
    let e = registry_initialized(3, 17);
    assert_eq!(e.label("schema_count"), Some("3"));
    let e = callsite_hash_collision(255, "a", "b");
    assert_eq!(e.label("schema_hash"), Some("00000000000000ff"));
    let e = label_cardinality_high("a.v1.A", "user", 1001);
    assert_eq!(e.label("label_key"), Some("user"));
    assert_eq!(truncate("abcdef", 3), "abc…");
    assert_eq!(truncate("abc", 3), "abc");
}

#[test]
fn texts_from_outside_are_cut_at_a_character() {
    let (s, none) = cap_external_string("ua", "short".to_string(), 16);
    assert_eq!(s, "short");
    assert!(none.is_none());
    let (s, cut) = cap_external_string("ua", "aéb".repeat(10), 6);
    assert_eq!(s, "aéba…<truncated:40>");
    let cut = cut.unwrap();
    assert_eq!(cut.field, "ua");
    assert_eq!(cut.original_size, 40);
    assert_eq!(cut.capped_size, s.len() as u64);
    let e = label_oversized(cut.field, cut.original_size, cut.capped_size);
    assert_eq!(e.full_name, "obs.runtime.v1.ObsLabelOversized");
    assert_eq!(e.label("field"), Some("ua"));
    assert_eq!(e.label("original_size"), Some("40"));
    assert_eq!(e.label("capped_size"), Some(cut.capped_size.to_string().as_str()));
}

#[test]
fn a_miss_names_the_type_and_what_was_captured() {
    let emitted = vec![synthesize_envelope("a.v1.ObsX", &[("k", "v")])];
    assert_eq!(
        miss_message("ObsY", false, &emitted),
        "assert_emitted!: no envelope matched `ObsY`.\nCaptured envelopes:\n  \
         [0] a.v1.ObsX labels={k=v}\n"
    );
}

struct Greeting {
    who: &'static str,
}

impl EventSchema for Greeting {
    const FULL_NAME: &'static str = "demo.v1.ObsGreeting";
    const TIER: Tier = Tier::Log;
    const DEFAULT_SEV: Severity = Severity::Info;
    const FIELDS: &'static [FieldMeta] = &[];
    const SCHEMA_HASH: u64 = 7;

    fn encode_payload(&self, buf: &mut BytesMut) {
        buf.extend_from_slice(self.who.as_bytes());
    }

    fn project(&self, env: &mut ObsEnvelope) {
        env.set_label("who".to_string(), self.who.to_string());
    }
}

#[test]
fn an_event_is_encoded_into_its_envelope() {
    let site = ObsCallsite::new(Greeting::FULL_NAME, Greeting::DEFAULT_SEV, "m", "f", 1);
    let before = obs_core::now_ns();
    let env = build_envelope(&site, &Greeting { who: "world" });
    assert_eq!(env.payload, b"world");
    assert_eq!(env.full_name, "demo.v1.ObsGreeting");
    assert_eq!(env.schema_hash, 7);
    assert_eq!(env.sev, EnumValue::Known(Severity::Info));
    assert!(before <= env.ts_ns && env.ts_ns <= obs_core::now_ns());
    let env = build_envelope_at(&site, &Greeting { who: "" }, Severity::Error);
    assert!(env.payload.is_empty());
    assert_eq!(env.sev, EnumValue::Known(Severity::Error));
}

#[test]
fn a_panic_becomes_an_event() {
    assert_eq!(panic_location("a.rs", 3, 7), "a.rs:3:7");
    assert_eq!(panic_message(Some("boom")), "boom");
    let long = "x".repeat(3000);
    let e = panicked_event(&long, "a.rs:3:7", 5);
    assert_eq!(e.ts_ns, 5);
    assert_eq!(e.label("location"), Some("a.rs:3:7"));
}

#[test]
fn resources_come_from_the_environment() {
    let environment = Environment {
        service_name: Some("from-env".to_string()),
        resource_attributes: Some("deployment.environment=prod,team=core".to_string()),
        hostname: Some("box".to_string()),
        arch: "x86_64".to_string(),
    };
    let attrs = build_resource_from_env("svc", "1.0", "i-1", &environment);
    assert_eq!(attrs.deployment_environment, "prod");
    assert_eq!(attrs.host_name, "box");
    assert_eq!(attrs.extra.get("team"), Some(&"core".to_string()));
    let map = attrs.to_semconv_map();
    assert_eq!(map.get("deployment.environment"), Some(&"prod".to_string()));
    assert_eq!(map.get("host.arch"), Some(&"amd64".to_string()));
}
