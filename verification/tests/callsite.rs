use obs_core::callsite::{EnabledOutcome, Interest, ObsCallsite};
use obs_core::registry::callsite_registry::{perturb_to_nonzero, id_from_hash};
use obs_core::{callsite_id, CallsiteRecord, CallsiteSource, ObsCallsiteRegistry, Severity};

fn probe() -> ObsCallsite {
    ObsCallsite::new("test.v1.Probe", Severity::Info, "callsite", "callsite.rs", 1)
}

#[test]
fn test_should_start_in_unknown() {
    let mut site = probe();
    site.reset_cache();
    assert_eq!(site.enabled(1), EnabledOutcome::ReProbe);
}

#[test]
fn test_should_short_circuit_on_never() {
    let mut site = probe();
    site.cache(Interest::Never, 7);
    assert_eq!(site.enabled(7), EnabledOutcome::Off);
}

#[test]
fn test_should_reprobe_on_generation_mismatch() {
    let mut site = probe();
    site.cache(Interest::Always, 7);
    assert_eq!(site.enabled(7), EnabledOutcome::AlwaysOn);
    assert_eq!(site.enabled(8), EnabledOutcome::ReProbe);
}

#[test]
fn a_generation_mismatch_forgets_the_interest() {
    let mut site = probe();
    site.cache(Interest::Always, 7);
    assert_eq!(site.enabled(8), EnabledOutcome::ReProbe);
    assert_eq!(site.enabled(7), EnabledOutcome::ReProbe);
}

#[test]
fn interests_come_back_from_their_numbers() {
    for i in [Interest::Unknown, Interest::Never, Interest::Sometimes, Interest::Always] {
        assert_eq!(Interest::from_u8(i.as_u8()), i);
    }
    let mut site = probe();
    site.cache(Interest::Sometimes, 3);
    assert_eq!(site.enabled(3), EnabledOutcome::SometimesOn);
    assert_eq!(site.full_name(), "test.v1.Probe");
    assert_eq!(site.default_sev(), Severity::Info);
    assert_eq!(site.line(), 1);
}

#[test]
fn test_callsite_id_should_be_deterministic() {
    let make = || {
        callsite_id(
            CallsiteSource::TracingEvent,
            "sqlx::query",
            "src/q.rs",
            Some(42),
            Severity::Info,
            &["rows", "elapsed"],
            "executed query",
        )
    };
    let a = make();
    let b = make();
    assert_eq!(a, b);
}

#[test]
fn test_callsite_id_should_never_be_zero_for_real_input() {
    let id = callsite_id(CallsiteSource::Forensic, "site", "", None, Severity::Info, &[], "");
    assert_ne!(id, 0);
}

#[test]
fn the_identifier_is_made_from_the_hash_of_all_parts() {
    let id = callsite_id(
        CallsiteSource::TracingSpan,
        "t",
        "f",
        Some(258),
        Severity::Warn,
        &["a", "b"],
        "x",
    );
    let mut input = vec![2u8];
    input.extend_from_slice(b"tf");
    input.extend_from_slice(&258u32.to_le_bytes());
    input.push(4);
    input.extend_from_slice(b"a\0b\0x");
    let hash = blake3::hash(&input);
    let mut head = [0u8; 8];
    head.copy_from_slice(&hash.as_bytes()[..8]);
    assert_eq!(id, u64::from_le_bytes(head));
}

#[test]
fn a_hash_that_begins_with_zeros_still_gives_an_identifier() {
    assert_eq!(perturb_to_nonzero(&[0; 32]), 1);
    assert_eq!(perturb_to_nonzero(&[7; 4]), 1);
    let mut hash = [0u8; 32];
    hash[8] = 4;
    hash[9] = 1;
    assert_eq!(perturb_to_nonzero(&hash), 0x105);
    assert_eq!(id_from_hash(&hash), 0x105);
    hash[0] = 9;
    assert_eq!(id_from_hash(&hash), 9);
}

fn record(id: u64, target: &str) -> CallsiteRecord {
    CallsiteRecord {
        id,
        source: CallsiteSource::Forensic,
        target: target.to_string(),
        name: "n".to_string(),
        module: String::new(),
        file: String::new(),
        line: None,
        sev: Severity::Info,
        field_names: Vec::new(),
        template: String::new(),
        registered_ns: 0,
        events_since_refresh: 0,
    }
}

#[test]
fn test_registry_should_dedup_inserts() {
    let mut reg = ObsCallsiteRegistry::new();
    let (_a, new1) = reg.insert_if_absent(record(1, "t"));
    assert!(new1);
    let (_b, new2) = reg.insert_if_absent(record(1, "t"));
    assert!(!new2);
    assert_eq!(reg.len(), 1);
}

#[test]
fn the_first_record_with_an_identifier_stays() {
    let mut reg = ObsCallsiteRegistry::new();
    assert!(reg.is_empty());
    reg.insert_if_absent(record(1, "first"));
    let (known, new) = reg.insert_if_absent(record(1, "second"));
    assert!(!new);
    assert_eq!(known.target, "first");
    reg.insert_if_absent(record(9, "other"));
    assert_eq!(reg.get(9).unwrap().target, "other");
    assert!(reg.get(2).is_none());
    assert_eq!(reg.len(), 2);
    assert_eq!(reg.snapshot().iter().map(|r| r.id).collect::<Vec<_>>(), vec![1, 9]);
    assert_eq!(reg.observe(9), Some(1));
    assert_eq!(reg.observe(9), Some(2));
    assert_eq!(reg.observe(2), None);
    assert_eq!(reg.get(9).unwrap().events_since_refresh, 2);
    assert_eq!(reg.get(1).unwrap().events_since_refresh, 0);
    reg.reset_count(9);
    assert_eq!(reg.get(9).unwrap().events_since_refresh, 0);
    let mut r = record(3, "t");
    assert_eq!(r.observe(), 1);
    assert_eq!(r.observe(), 2);
    r.reset_count();
    assert_eq!(r.events_since_refresh, 0);
    assert_eq!(CallsiteSource::Instrument.as_str(), "INSTRUMENT");
}
