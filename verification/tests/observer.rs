use bytes::BytesMut;
use obs_core::config::{
    AuditConfig, AuditFailureMode, EventsConfig, QueuesConfig, ServiceConfig,
};
use obs_core::observer::dispatch::{
    audit_next, dispatch, spooled, AuditEvent, AuditStep, Dispatch, SinkRouter, SpoolAttempt,
};
use obs_core::observer::pipeline::EmitOutcome;
use obs_core::observer::standard::{config_hash, is_dev, Surroundings};
use obs_core::observer::workers::{note_channel_full, note_delivered, tier_capacity};
use obs_core::observer::{resolve, EmitEntry, EmitGate, ThreadSlot};
use obs_core::resource::Environment;
use obs_core::sampling::Draws;
use obs_core::scope::{ScopeField, ScopeGuard, ScopeStack};
use obs_core::{
    default_forensic_quota, BuildError, EnumValue, InMemoryObserver, NoopSink, ObsCallsite,
    ObsEnvelope, ResourceAttrs, SamplingReason, SchemaRegistry, Severity, StandardObserver,
    StandardObserverBuilder, Tier, WorkerCounters,
};

fn around() -> Surroundings {
    Surroundings {
        dev: None,
        filter: None,
        environment: Environment {
            service_name: None,
            resource_attributes: None,
            hostname: None,
            arch: "x86_64".to_string(),
        },
        package_name: None,
        package_version: "0.1.0".to_string(),
        runtime: false,
    }
}

fn standard() -> StandardObserver<NoopSink> {
    StandardObserver::builder()
        .service("test", "1.0.0")
        .sink_fallback(NoopSink)
        .spawn_workers(false)
        .build(SchemaRegistry::empty(), &around())
        .expect("build")
}

#[test]
fn test_should_default_to_noop() {
    // Without a task, a thread or an installed observer the global one answers.
    let o = resolve(true, 0, None, None, "noop");
    assert_eq!(o, Some("noop"));
}

#[test]
fn test_with_test_observer_should_capture() {
    let mut slot: ThreadSlot<InMemoryObserver> = ThreadSlot::new();
    let guard = slot.install(InMemoryObserver::new());
    assert!(slot.thread.is_some());
    assert_eq!(slot.overrides, 1);
    slot.restore(guard);
    assert!(slot.thread.is_none());
    assert_eq!(slot.overrides, 0);
}

#[test]
fn the_nearest_observer_answers() {
    assert_eq!(resolve(true, 1, Some("task"), Some("thread"), "global"), Some("task"));
    assert_eq!(resolve(true, 1, None, Some("thread"), "global"), Some("thread"));
    assert_eq!(resolve(true, 0, None, None, "global"), Some("global"));
    let mut slot = ThreadSlot::new();
    let outer = slot.install("outer");
    let inner = slot.install("inner");
    assert_eq!(slot.thread, Some("inner"));
    slot.restore(inner);
    assert_eq!(slot.thread, Some("outer"));
    slot.restore(outer);
    assert_eq!(slot.thread, None);
}

#[test]
fn an_observer_is_not_entered_from_within() {
    let mut entrance = EmitGate::new();
    let env = info("a.v1.A");
    let first = entrance.enter_emit_envelope(&env);
    assert!(matches!(first, EmitEntry::Enter));
    let second = entrance.enter_emit_envelope(&env);
    match &second {
        EmitEntry::Reentry(event) => {
            assert_eq!(event.label("tier"), Some("log"));
            assert_eq!(event.label("reason"), Some("reentry"));
        }
        e => panic!("unexpected entry: {e:?}"),
    }
    entrance.leave(&second);
    assert!(!entrance.can_enter);
    entrance.leave(&first);
    assert!(entrance.can_enter);
}

fn info(name: &str) -> ObsEnvelope {
    ObsEnvelope {
        full_name: name.to_string(),
        tier: EnumValue::Known(Tier::Log),
        sev: EnumValue::Known(Severity::Info),
        sampling_reason: EnumValue::Known(SamplingReason::HeadRate),
        ..Default::default()
    }
}

#[test]
fn test_oversized_label_value_drops_envelope() {
    let observer = standard();
    let mut env = info("test.v1.ObsBig");
    env.labels.insert("ua".to_string(), "x".repeat(2048));
    let mut stack = ScopeStack::new();
    let kept = observer.run_emit_pipeline(&mut env, Severity::Info, &mut stack, &mut Draws::new(1));
    assert!(!kept.is_kept(), "envelope with oversize label value must be dropped");
    let event = kept.event("test.v1.ObsBig").expect("an event about the drop");
    assert_eq!(event.label("reason"), Some("label"));
    assert_eq!(event.label("size_bytes"), Some("2048"));
}

#[test]
fn test_set_resource_attrs_is_visible_to_observer_callers() {
    let mut observer = standard();
    let before = observer.resource_attrs();
    assert_eq!(before.service_name, "test");
    observer.set_resource_attrs(ResourceAttrs {
        service_name: "rotated".to_string(),
        deployment_environment: "prod".to_string(),
        ..Default::default()
    });
    let after = observer.resource_attrs();
    assert_eq!(after.service_name, "rotated");
    assert_eq!(after.deployment_environment, "prod");
}

#[test]
fn an_oversized_payload_is_dropped() {
    let observer = standard();
    let mut env = info("test.v1.ObsBig");
    env.payload = vec![0; 262_145];
    let mut stack = ScopeStack::new();
    let out = observer.emit_envelope(env, &mut stack, &mut Draws::new(1), false);
    assert!(matches!(out.outcome, EmitOutcome::OversizedPayload { size: 262_145 }));
    assert_eq!(out.event.unwrap().label("size_bytes"), Some("262145"));
}

#[test]
fn an_envelope_takes_what_is_around_it() {
    let observer = standard();
    let mut stack = ScopeStack::new();
    let _guard = ScopeGuard::enter_context(
        &mut stack,
        vec![ScopeField::TraceId("t".to_string()), ScopeField::Label("tenant", "acme".to_string())],
    );
    let out = observer.emit_envelope(info("a.v1.A"), &mut stack, &mut Draws::new(1), false);
    assert!(out.outcome.is_kept());
    assert_eq!(out.env.trace_id, "t");
    assert_eq!(out.env.label("tenant"), Some("acme"));
    assert_eq!(out.env.service, "test");
    assert_eq!(out.env.version, "1.0.0");
    assert_eq!(out.dispatch, Dispatch::Sync);
    assert_eq!(out.tier, Tier::Log);
    assert!(out.event.is_none());
    let mut scratch = BytesMut::new();
    let (_sink, scrubbed) = observer.dispatch_sync(&out.env, out.tier, &mut scratch).unwrap();
    assert_eq!(scrubbed.envelope().full_name, "a.v1.A");
}

#[test]
fn a_scope_holds_what_is_not_severe_until_it_ends() {
    let observer = StandardObserver::builder()
        .service("test", "1.0.0")
        .sink_fallback(NoopSink)
        .filter("trace")
        .spawn_workers(false)
        .build(SchemaRegistry::empty(), &around())
        .expect("build");
    let mut stack = ScopeStack::new();
    let guard = ScopeGuard::enter(&mut stack, Vec::new(), 8);
    let mut quiet = info("a.v1.A");
    quiet.sev = EnumValue::Known(Severity::Debug);
    let out = observer.emit_envelope(quiet, &mut stack, &mut Draws::new(1), false);
    assert!(matches!(out.outcome, EmitOutcome::Held));
    let mut bad = info("a.v1.Bad");
    bad.sev = EnumValue::Known(Severity::Error);
    let out = observer.emit_envelope(bad, &mut stack, &mut Draws::new(1), false);
    assert!(matches!(out.outcome, EmitOutcome::Forward));
    let let_out = guard.close(&mut stack);
    assert_eq!(let_out.len(), 1);
    assert_eq!(let_out[0].full_name, "a.v1.A");
}

#[test]
fn a_new_configuration_counts_up_the_generation() {
    let mut observer = standard();
    let before = observer.generation();
    let cfg = EventsConfig::builder().filter("error".to_string()).build();
    let yaml = "filter: error\n";
    let reloaded = observer.reload_config(cfg, Some(yaml), Some("debug"));
    assert!(reloaded.result.is_ok());
    assert_eq!(reloaded.event.full_name, "obs.runtime.v1.ObsConfigReloaded");
    assert_ne!(observer.generation(), before);
    assert_eq!(observer.filter().default_level(), Severity::Error);
    let site = ObsCallsite::new("a.v1.A", Severity::Info, "m", "f", 1);
    assert!(!observer.enabled(&site));
    let hash = blake3::hash(yaml.as_bytes());
    let mut head = [0u8; 8];
    head.copy_from_slice(&hash.as_bytes()[..8]);
    assert_eq!(config_hash(Some(yaml)), u64::from_le_bytes(head));

    let mut bad = EventsConfig::default();
    bad.limits.max_payload_bytes = 1;
    let refused = observer.reload_config(bad, None, None);
    match refused.result {
        Err(e) => assert!(e.message().contains("limits.max_payload_bytes"), "{}", e.message()),
        Ok(()) => panic!("a bad configuration was taken"),
    }
    assert_eq!(refused.event.full_name, "obs.runtime.v1.ObsConfigReloadFailed");
    assert_eq!(observer.filter().default_level(), Severity::Error);
    let reloaded = observer.reload_config(EventsConfig::default(), None, Some("debug"));
    assert!(reloaded.result.is_ok());
    assert_eq!(observer.filter().default_level(), Severity::Debug);
    let reloaded = observer.reload_config(EventsConfig::default(), None, None);
    assert!(reloaded.result.is_ok());
    assert_eq!(observer.filter().default_level(), Severity::Info);
}

#[test]
fn the_configured_service_overrides_the_environment() {
    let service = || {
        let mut s = ServiceConfig::default();
        s.name = Some("billing".to_string());
        s.namespace = Some("payments".to_string());
        s.extra.insert("team".to_string(), "core".to_string());
        s
    };
    let mut around = around();
    around.environment.service_name = Some("from-env".to_string());
    around.environment.resource_attributes =
        Some("service.namespace=other,team=ops,zone=a".to_string());
    let build = |b: StandardObserverBuilder<NoopSink>| {
        b.build(SchemaRegistry::empty(), &around).map_err(|e| e.message()).unwrap()
    };
    let cfg = EventsConfig::builder().service(service()).build();
    let o = build(StandardObserver::builder().config(cfg));
    assert_eq!(o.service, "billing");
    let resource = o.resource_attrs();
    assert_eq!(resource.service_name, "billing");
    assert_eq!(resource.service_namespace, "payments");
    assert_eq!(resource.extra.get("team"), Some(&"core".to_string()));
    assert_eq!(resource.extra.get("zone"), Some(&"a".to_string()));
    let mut env = ObsEnvelope::default();
    env.tier = EnumValue::Known(Tier::Log);
    env.sev = EnumValue::Known(Severity::Error);
    let out = o.emit_envelope(env, &mut ScopeStack::new(), &mut Draws::new(1), false);
    assert_eq!(out.env.service, "billing");

    let cfg = EventsConfig::builder().service(service()).build();
    let o = build(StandardObserver::builder().config(cfg).service("set", "2"));
    assert_eq!((o.service.as_str(), o.version.as_str()), ("set", "2"));
    let o = build(StandardObserver::builder());
    assert_eq!(o.service, "from-env");
}

#[test]
fn a_service_without_a_name_is_called_after_its_package() {
    let mut around = around();
    let build = |around: &Surroundings| {
        let b: StandardObserverBuilder<NoopSink> = StandardObserver::builder();
        b.build(SchemaRegistry::empty(), around).map_err(|e| e.message()).unwrap()
    };
    assert_eq!(build(&around).service, "obs");
    around.package_name = Some("shop".to_string());
    assert_eq!(build(&around).service, "shop");
}

#[test]
fn a_bad_configuration_builds_no_observer() {
    let mut cfg = EventsConfig::default();
    cfg.queues.log = 1;
    let built: Result<StandardObserver<NoopSink>, BuildError> = StandardObserver::builder()
        .service("test", "1.0.0")
        .config(cfg)
        .build(SchemaRegistry::empty(), &around());
    assert!(matches!(built, Err(BuildError::InvalidConfig(_))));
}

#[test]
fn routes_fall_back() {
    let mut router = SinkRouter::new();
    assert!(router.for_tier(Tier::Log).is_none());
    router.fallback = Some("fallback");
    router.set(Tier::Audit, "audit");
    assert_eq!(router.for_tier(Tier::Audit), Some(&"audit"));
    assert_eq!(router.for_tier(Tier::Log), Some(&"fallback"));
}

#[test]
fn audit_events_wait_and_are_then_spooled() {
    assert_eq!(dispatch(Tier::Audit, true, true), Dispatch::Audit);
    assert_eq!(dispatch(Tier::Log, true, true), Dispatch::Worker);
    assert_eq!(dispatch(Tier::Log, false, true), Dispatch::Sync);
    assert_eq!(audit_next(AuditEvent::Taken, 50), AuditStep::Done);
    assert_eq!(audit_next(AuditEvent::RefusedFirst { elapsed_ms: 0 }, 50), AuditStep::Offer);
    assert_eq!(audit_next(AuditEvent::RefusedFirst { elapsed_ms: 0 }, 0), AuditStep::Spool);
    assert_eq!(audit_next(AuditEvent::RefusedAgain, 50), AuditStep::Wait);
    assert_eq!(audit_next(AuditEvent::Waited { elapsed_ms: 50 }, 50), AuditStep::Spool);
    let mut counters = WorkerCounters::default();
    let written = spooled("a.v1.A", SpoolAttempt::Written, AuditFailureMode::Abort, &mut counters);
    assert_eq!(written.event.full_name, "obs.runtime.v1.ObsAuditSpooled");
    assert!(written.failure.is_none());
    assert_eq!(counters.channel_full_audit, 1);
    let failed = spooled("a.v1.A", SpoolAttempt::Failed("disk"), AuditFailureMode::Abort, &mut counters);
    assert_eq!(failed.event.label("reason"), Some("disk"));
    assert_eq!(failed.failure, Some(AuditFailureMode::Abort));
    let none = spooled("a.v1.A", SpoolAttempt::NoSpool, AuditFailureMode::WarnOnly, &mut counters);
    assert_eq!(none.event.label("reason"), Some("no spool configured"));
}

#[test]
fn counters_belong_to_tiers() {
    let mut c = WorkerCounters::default();
    note_channel_full(&mut c, Tier::Trace);
    note_delivered(&mut c);
    assert_eq!((c.channel_full_trace, c.channel_full_log, c.delivered), (1, 0, 1));
    let queues = QueuesConfig { log: 0, metric: 7, trace: 9 };
    let audit = AuditConfig::default();
    assert_eq!(tier_capacity(Tier::Log, &queues, &audit), Some(1));
    assert_eq!(tier_capacity(Tier::Metric, &queues, &audit), Some(7));
    assert_eq!(tier_capacity(Tier::Audit, &queues, &audit), Some(audit.channel_capacity));
    assert_eq!(tier_capacity(Tier::Unspecified, &queues, &audit), None);
}

#[test]
fn an_emit_site_may_record_five_times_at_once() {
    let quota = default_forensic_quota();
    assert_eq!((quota.per_second, quota.burst), (1, 5));
    assert!(standard().callsites().is_empty());
}

#[test]
fn development_is_switched_on_by_a_few_words() {
    for yes in ["1", "true", "on"] {
        assert!(is_dev(yes), "{yes}");
    }
    assert!(!is_dev("0"));
    assert!(!is_dev("maybe"));
}
