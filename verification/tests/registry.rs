use bytes::BytesMut;
use obs_core::envelope::{FieldMeta, FieldRole};
use obs_core::registry::arrow::{infer_leaf_type, ArrowLeafType, ArrowSchemaModel, ENVELOPE_COLUMNS};
use obs_core::registry::{EventSchemaErased, SchemaRegistry, ScrubbedEnvelope};
use obs_core::{Cardinality, Classification, ObsEnvelope, Severity, Tier};

fn schema(name: &'static str, hash: u64, fields: Vec<FieldMeta>) -> EventSchemaErased {
    EventSchemaErased::new(name, hash, Tier::Log, Severity::Info, fields)
}

fn field(name: &'static str, number: u32, role: FieldRole, card: Cardinality) -> FieldMeta {
    FieldMeta::new(name, number, role, card, Classification::Internal)
}

#[test]
fn test_should_build_empty_when_no_schemas_registered() {
    let r = SchemaRegistry::empty();
    assert!(r.is_empty());
}

#[test]
fn schemas_are_found_by_hash_and_then_by_name() {
    let r = SchemaRegistry::from_schemas(vec![
        schema("a.v1.A", 1, Vec::new()),
        schema("a.v1.B", 2, Vec::new()),
    ]);
    assert_eq!(r.len(), 2);
    assert_eq!(r.iter().len(), 2);
    let env = |name: &str, hash| ObsEnvelope {
        full_name: name.to_string(),
        schema_hash: hash,
        ..Default::default()
    };
    assert_eq!(r.lookup(&env("a.v1.A", 1)).unwrap().full_name(), "a.v1.A");
    assert_eq!(r.lookup(&env("a.v1.B", 7)).unwrap().schema_hash(), 2);
    assert!(r.lookup(&env("a.v1.C", 7)).is_none());
}

#[test]
fn schemas_of_one_hash_and_two_names_collide() {
    let r = SchemaRegistry::from_schemas(vec![
        schema("a.v1.A", 1, Vec::new()),
        schema("a.v1.B", 2, Vec::new()),
        schema("a.v1.C", 1, Vec::new()),
        schema("a.v1.B", 2, Vec::new()),
    ]);
    assert_eq!(r.hash_collisions(), vec![(1, "a.v1.A", "a.v1.C")]);
    assert!(SchemaRegistry::empty().hash_collisions().is_empty());
}

#[test]
fn test_should_emit_deterministic_json() {
    let model = ArrowSchemaModel::default();
    let s = model.to_json().expect("json renders");
    assert!(s.contains("obs_events"));
    assert!(s.contains("ts_ns"));
}

#[test]
fn test_envelope_columns_should_include_callsite_id() {
    assert!(ENVELOPE_COLUMNS.iter().any(|(n, _)| *n == "callsite_id"));
}

#[test]
fn events_are_listed_by_name_whatever_the_order() {
    let a = schema("a.v1.A", 1, vec![field("user", 1, FieldRole::Label, Cardinality::Low)]);
    let b = schema("b.v1.B", 0xbeef, Vec::new());
    let forward = ArrowSchemaModel::from_schemas(&vec![&a, &b]);
    let backward = ArrowSchemaModel::from_schemas(&vec![&b, &a]);
    assert_eq!(forward.to_json().unwrap(), backward.to_json().unwrap());
    assert_eq!(forward.len(), 2);
    assert!(!forward.is_empty());
    let found = forward.lookup("a.v1.A").unwrap();
    assert_eq!(found.payload_column, "payload_a_v1_a");
    assert_eq!(found.fields.len(), 1);
    assert!(forward.lookup("c").is_none());
    let parsed: serde_json::Value = serde_json::from_str(&forward.to_json().unwrap()).unwrap();
    assert!(parsed.is_object());
}

#[test]
fn leaf_types_follow_the_role() {
    let leaf = |role, card| infer_leaf_type(&field("f", 1, role, card));
    assert_eq!(leaf(FieldRole::Measurement, Cardinality::Unspecified), ArrowLeafType::Float64);
    assert_eq!(leaf(FieldRole::TimestampNs, Cardinality::Unspecified), ArrowLeafType::TimestampNs);
    assert_eq!(leaf(FieldRole::TraceId, Cardinality::Unspecified), ArrowLeafType::Utf8);
    assert_eq!(leaf(FieldRole::Label, Cardinality::Low), ArrowLeafType::DictUtf8);
}

#[test]
fn sinks_get_a_payload_without_what_is_classified() {
    let registry = SchemaRegistry::from_schemas(vec![schema(
        "a.v1.A",
        1,
        vec![FieldMeta::new(
            "email",
            1,
            FieldRole::Attribute,
            Cardinality::Unspecified,
            Classification::Pii,
        )],
    )]);
    let mut env = ObsEnvelope { full_name: "a.v1.A".to_string(), schema_hash: 1, ..Default::default() };
    env.payload = vec![0x0A, 3, b'b', b'o', b'b'];
    let mut scratch = BytesMut::new();
    let scrubbed = ScrubbedEnvelope::scrub(&env, &registry, &mut scratch).unwrap();
    assert_eq!(scrubbed.payload(), &b"\x0A\x10<redacted-email>"[..]);
    assert_eq!(scrubbed.envelope().full_name, "a.v1.A");
    assert_eq!(scrubbed.schema().unwrap().schema_hash(), 1);
    let plain = ScrubbedEnvelope::pass_through(&env, &registry);
    assert_eq!(plain.payload(), &env.payload[..]);
    let tested = ScrubbedEnvelope::for_test(&env, &registry);
    assert_eq!(tested.payload(), &env.payload[..]);
}

#[test]
fn copies_of_schemas_and_columns_are_found_alike() {
    let name = field("name", 3, FieldRole::Label, Cardinality::Low);
    let r = SchemaRegistry::from_schemas(vec![schema("a.v1.A", 1, vec![name])]).clone();
    let env = ObsEnvelope { schema_hash: 1, ..Default::default() };
    let found = r.lookup(&env).unwrap();
    assert_eq!(found.full_name(), "a.v1.A");
    assert_eq!(found.fields()[0].number, 3);
    let model = ArrowSchemaModel::from_schemas(&r.iter());
    assert_eq!(model.clone().to_json().unwrap(), model.to_json().unwrap());
}
