use obs_core::config::{
    apply_yaml_path, env_override_path, expand_env_vars, merged_with_env, override_value,
    read_or_text, AuditFailureMode, AuditFsyncMode, ConfigError, EventsConfig, SamplingConfig,
};
use obs_core::config_watcher::{counts, is_relevant, ChangeKind, ChangedPath};
use obs_core::sampling::Rate;
use obs_core::text_map::TextMap;
use obs_core::Severity;
use serde_yaml::Value;

fn rate(x: f64) -> Rate {
    Rate::new(x.to_bits(), x.to_string())
}

#[test]
fn test_should_validate_default() {
    EventsConfig::default().validate().unwrap();
}

#[test]
fn test_should_reject_bad_rate() {
    let mut cfg = EventsConfig::default();
    cfg.sampling.default_rate = rate(1.5);
    assert!(cfg.validate().is_err());
}

#[test]
fn test_should_reject_tiny_payload_cap() {
    let mut cfg = EventsConfig::default();
    cfg.limits.max_payload_bytes = 100;
    assert!(cfg.validate().is_err());
}

fn message(cfg: &EventsConfig) -> String {
    cfg.validate().unwrap_err().message()
}

#[test]
fn the_first_bad_value_is_named() {
    let mut cfg = EventsConfig::default();
    cfg.queues.trace = 63;
    assert_eq!(message(&cfg), "invalid range for `queues.{log,metric,trace}`: must be ≥ 64");
    cfg.limits.max_payload_bytes = 16_777_217;
    assert_eq!(message(&cfg), "invalid range for `limits.max_payload_bytes`: must be ≤ 16 MiB");
    cfg.limits.max_payload_bytes = 1023;
    assert_eq!(message(&cfg), "invalid range for `limits.max_payload_bytes`: must be ≥ 1 KiB");
    cfg.sampling.per_event.insert("b".to_string(), rate(-0.5));
    cfg.sampling.per_event.insert("a".to_string(), rate(2.0));
    assert_eq!(
        message(&cfg),
        "invalid range for `sampling.per_event[..]`: a = 2 is outside [0.0, 1.0]"
    );
    cfg.sampling.per_event.insert("a".to_string(), rate(0.25));
    assert_eq!(
        message(&cfg),
        "invalid range for `sampling.per_event[..]`: b = -0.5 is outside [0.0, 1.0]"
    );
    cfg.sampling.default_rate = rate(f64::NAN);
    assert_eq!(
        message(&cfg),
        "invalid range for `sampling.default_rate`: must be in [0.0, 1.0]"
    );
    assert_eq!(ConfigError::Io("gone".to_string()).message(), "io: gone");
    assert_eq!(ConfigError::Yaml("bad".to_string()).message(), "yaml: bad");
}

#[test]
fn rates_from_zero_to_one_are_in_range() {
    for x in [0.0, -0.0, f64::MIN_POSITIVE, 0.5, 1.0] {
        let mut cfg = EventsConfig::default();
        cfg.sampling.default_rate = rate(x);
        assert!(cfg.validate().is_ok(), "{x}");
    }
    for x in [-f64::MIN_POSITIVE, 1.0000000000000002, f64::INFINITY, f64::NEG_INFINITY] {
        let mut cfg = EventsConfig::default();
        cfg.sampling.default_rate = rate(x);
        assert!(cfg.validate().is_err(), "{x}");
    }
}

#[test]
fn the_defaults_are_as_documented() {
    let cfg = EventsConfig::builder().filter("info".to_string()).build();
    assert_eq!(cfg.filter.as_deref(), Some("info"));
    assert_eq!(cfg.limits.max_payload_bytes, 262_144);
    assert_eq!(cfg.limits.max_label_value_bytes, 1024);
    assert_eq!(cfg.audit.spool_dir, "./obs-audit-spool");
    assert_eq!(cfg.audit.on_failure, AuditFailureMode::Panic);
    assert_eq!(cfg.audit.fsync_mode, AuditFsyncMode::PerBatch);
    assert_eq!(cfg.queues.log, 8192);
    let s = SamplingConfig::default();
    assert_eq!(s.always_log_at_or_above, Severity::Warn);
    assert_eq!(s.tail_buffer_capacity, 64);
    assert!(s.honour_traceparent_sampled);
}

#[test]
fn test_expand_env_vars_should_keep_unmatched_reference_verbatim() {
    let out = expand_env_vars("${OBS_NEVER_SET_VAR_AAAA}", &TextMap::new());
    assert_eq!(out, "${OBS_NEVER_SET_VAR_AAAA}");
}

#[test]
fn test_expand_env_vars_should_drop_to_default_for_unset() {
    let out = expand_env_vars("${OBS_NEVER_SET_VAR_BBBB:-fallback}", &TextMap::new());
    assert_eq!(out, "fallback");
}

#[test]
fn set_variables_are_expanded() {
    let mut env = TextMap::new();
    env.insert("NAME".to_string(), "value".to_string());
    assert_eq!(expand_env_vars("a ${NAME} b", &env), "a value b");
    assert_eq!(expand_env_vars("${NAME:-x}${OTHER:-y}", &env), "valuey");
    assert_eq!(expand_env_vars("no $NAME ${", &env), "no $NAME ${");
    assert_eq!(expand_env_vars("filter: \u{e9} ${NAME}", &env), "filter: \u{e9} value");
}

#[test]
fn variables_name_paths() {
    assert_eq!(
        env_override_path("OBS_AUDIT__SPOOL_DIR", "obs"),
        Some(vec!["audit".to_string(), "spool_dir".to_string()])
    );
    assert_eq!(env_override_path("PATH", "obs"), None);
}

fn path(keys: &[&str]) -> Vec<String> {
    keys.iter().map(|k| k.to_string()).collect()
}

#[test]
fn test_apply_yaml_path_should_walk_nested_keys() {
    let mut root = Value::Mapping(Default::default());
    apply_yaml_path(&mut root, &path(&["sampling", "default_rate"]), "0.5");
    let found = root["sampling"]["default_rate"].as_f64().expect("a number");
    assert!((found - 0.5).abs() < f64::EPSILON);
}

#[test]
fn other_paths_stay() {
    let mut root = Value::Null;
    apply_yaml_path(&mut root, &path(&["a", "x"]), "1");
    apply_yaml_path(&mut root, &path(&["a", "y"]), "{z: 2}");
    apply_yaml_path(&mut root, &path(&["a", "y", "w"]), "true");
    apply_yaml_path(&mut root, &path(&["a", "x"]), "3");
    assert_eq!(root["a"]["x"], Value::from(3));
    assert_eq!(root["a"]["y"]["z"], Value::from(2));
    assert_eq!(root["a"]["y"]["w"], Value::from(true));
    let before = root.clone();
    apply_yaml_path(&mut root, &[], "4");
    assert_eq!(root, before);
    apply_yaml_path(&mut root, &path(&["a", "x", "deep"]), "5");
    assert_eq!(root["a"]["x"]["deep"], Value::from(5));
}

#[test]
fn a_text_that_is_no_yaml_stays_a_text() {
    assert_eq!(override_value("7"), Value::from(7));
    assert_eq!(override_value("plain"), Value::from("plain"));
    assert_eq!(override_value("[1"), Value::from("[1"));
    assert_eq!(read_or_text(None, "7"), Value::from("7"));
    assert_eq!(read_or_text(Some(Value::Null), "7"), Value::Null);
}

#[test]
fn the_last_variable_counts() {
    let vars: Vec<(String, String)> = [
        ("OBS_AUDIT__SPOOL_DIR", "/a"),
        ("HOME", "/root"),
        ("OBS_AUDIT__SPOOL_DIR", "/b"),
        ("OBS_FILTER", "warn"),
        ("OBS_DEV_MODE", "true"),
    ]
    .iter()
    .map(|(k, v)| (k.to_string(), v.to_string()))
    .collect();
    let mut root = Value::Mapping(Default::default());
    apply_yaml_path(&mut root, &path(&["filter"]), "info");
    let merged = merged_with_env(root, &vars, "obs");
    assert_eq!(merged["audit"]["spool_dir"], Value::from("/b"));
    assert_eq!(merged["filter"], Value::from("warn"));
    assert_eq!(merged["dev_mode"], Value::from(true));
    assert!(merged.get("home").is_none());
}

#[test]
fn changes_within_the_window_count_once() {
    assert!(counts(None));
    assert!(!counts(Some(199_999_999)));
    assert!(counts(Some(200_000_000)));
    let path = |same, same_name, parent: Option<&str>| ChangedPath {
        same,
        same_name,
        parent: parent.map(|p| p.as_bytes().to_vec()),
    };
    let home = Some(b"/private/tmp".to_vec());
    assert!(is_relevant(ChangeKind::Modified, &vec![path(true, true, None)], &None));
    assert!(is_relevant(ChangeKind::Created, &vec![path(false, true, Some("/private/tmp"))], &home));
    assert!(!is_relevant(ChangeKind::Removed, &vec![path(false, true, Some("/other"))], &home));
    assert!(!is_relevant(ChangeKind::Removed, &vec![path(false, false, Some("/private/tmp"))], &home));
    assert!(!is_relevant(ChangeKind::Other, &vec![path(true, true, None)], &home));
}

#[test]
fn a_copy_of_a_configuration_says_the_same() {
    let mut cfg = EventsConfig::builder().filter("warn".to_string()).build();
    cfg.sampling.per_event.insert("a".to_string(), rate(0.25));
    cfg.service.name = Some("shop".to_string());
    cfg.service.extra.insert("k".to_string(), "v".to_string());
    cfg.audit.spool_dir = "/spool".to_string();
    cfg.sinks.otlp = serde_json::Value::from("here");
    cfg.dev_mode = true;
    let copy = cfg.clone();
    assert_eq!(copy.filter.as_deref(), Some("warn"));
    assert_eq!(copy.sampling.per_event.get("a").unwrap().text, "0.25");
    assert_eq!(copy.sampling.default_rate.bits, cfg.sampling.default_rate.bits);
    assert_eq!(copy.service.name.as_deref(), Some("shop"));
    assert_eq!(copy.service.extra.get("k"), Some(&"v".to_string()));
    assert_eq!(copy.audit.spool_dir, "/spool");
    assert_eq!(copy.sinks.otlp, cfg.sinks.otlp);
    assert!(copy.sinks.stdout.is_null());
    assert!(copy.dev_mode);
}
