//! The observer for production: what it knows, and what it decides on each
//! envelope and on each configuration.

use std::sync::Arc;

use bytes::BytesMut;
use vstd::prelude::*;

use super::dispatch::{dispatch, Dispatch, SinkRouter};
use super::pipeline::{self, run_pipeline, EmitOutcome};
use super::workers::WorkerCounters;
use crate::callsite::{Interest, ObsCallsite};
use crate::config::{self, ConfigError, EventsConfig};
use crate::digest::{self, first_number};
use crate::envelope::{record, EnvelopeView, ObsEnvelope};
use crate::filter::{self, Filter, FilterParseError, FilterView};
use crate::registry::callsite_registry::{CallsiteRecord, ObsCallsiteRegistry};
use crate::registry::{self, SchemaRegistry, SchemaView, ScrubbedEnvelope};
use crate::resource::{self, add_service, build_resource_from_env, Environment, ResourceAttrs};
use crate::sampling::Draws;
use crate::scope::{self, ScopeStack};
use crate::self_events;
use crate::text::{self, chars_of, copy_opt, eq_ignore_case, trim};
use crate::types::{EnumValue, Severity, Tier};
use crate::wire::codec;

verus! {

// ---------------------------------------------------------------------------
// The observer.
// ---------------------------------------------------------------------------
/// Which tiers have a worker.
#[derive(Debug, Clone, Copy, PartialEq, Eq, Structural)]
pub struct WorkerPool {
    pub log: bool,
    pub metric: bool,
    pub trace: bool,
    pub audit: bool,
}

impl WorkerPool {
    /// Whether a tier has a worker.
    pub open spec fn serves(self, tier: Tier) -> bool {
        match tier {
            Tier::Log => self.log,
            Tier::Metric => self.metric,
            Tier::Trace => self.trace,
            Tier::Audit => self.audit,
            Tier::Unspecified => false,
        }
    }

    /// Whether a tier has a worker.
    pub fn has(&self, tier: Tier) -> (r: bool)
        ensures
            r == self.serves(tier),
    {
        match tier {
            Tier::Log => self.log,
            Tier::Metric => self.metric,
            Tier::Trace => self.trace,
            Tier::Audit => self.audit,
            Tier::Unspecified => false,
        }
    }
}

/// The workers that the sinks ask for: one for each tier that has a sink, its
/// own or the fallback; audit records have one only with a sink of their own.
pub open spec fn pool_for<S>(router: SinkRouter<S>, spawn: bool) -> WorkerPool {
    WorkerPool {
        log: spawn && router.route(Tier::Log) is Some,
        metric: spawn && router.route(Tier::Metric) is Some,
        trace: spawn && router.route(Tier::Trace) is Some,
        audit: spawn && router.audit is Some,
    }
}

/// The workers that the sinks ask for.
pub fn spawn_pool<S>(router: &SinkRouter<S>, spawn: bool) -> (r: WorkerPool)
    ensures
        r == pool_for(*router, spawn),
{
    WorkerPool {
        log: spawn && router.for_worker(Tier::Log).is_some(),
        metric: spawn && router.for_worker(Tier::Metric).is_some(),
        trace: spawn && router.for_worker(Tier::Trace).is_some(),
        audit: spawn && router.for_worker(Tier::Audit).is_some(),
    }
}

/// The observer for production.
#[derive(Debug)]
pub struct StandardObserver<S> {
    /// The sinks.
    pub router: SinkRouter<S>,
    /// Which tiers have a worker.
    pub workers: WorkerPool,
    /// Whether audit records can be spooled.
    pub spools: bool,
    /// The schemas.
    pub registry: Arc<SchemaRegistry>,
    /// The configuration.
    pub config: EventsConfig,
    /// The filter.
    pub filter: Filter,
    /// What is known of the service.
    pub resource: ResourceAttrs,
    /// The emit sites that are known.
    pub callsites: ObsCallsiteRegistry,
    /// What the workers count.
    pub counters: WorkerCounters,
    /// How often the filter may have changed, from one on.
    pub generation: u32,
    /// The service.
    pub service: String,
    /// The instance of the service.
    pub instance: String,
    /// The version of the service.
    pub version: String,
}

/// The envelope with the identity of the service where it brings none.
pub open spec fn identified(
    env: EnvelopeView,
    service: Seq<char>,
    instance: Seq<char>,
    version: Seq<char>,
) -> EnvelopeView {
    EnvelopeView {
        service: if env.service.len() == 0 {
            service
        } else {
            env.service
        },
        instance: if env.instance.len() == 0 {
            instance
        } else {
            env.instance
        },
        version: if env.version.len() == 0 {
            version
        } else {
            env.version
        },
        ..env
    }
}

/// The next generation, which starts over after the largest.
pub open spec fn next_generation(n: u32) -> u32 {
    if n == u32::MAX {
        0
    } else {
        (n + 1) as u32
    }
}

/// An envelope that was emitted, and what is to be done with it.
#[derive(Debug)]
pub struct Emitted {
    /// What became of it.
    pub outcome: EmitOutcome,
    /// The envelope.
    pub env: ObsEnvelope,
    /// Its tier.
    pub tier: Tier,
    /// How it is delivered where it goes on.
    pub dispatch: Dispatch,
    /// The event that tells of it where it was too large.
    pub event: Option<ObsEnvelope>,
}

/// What came of a new configuration.
#[derive(Debug)]
pub struct Reloaded {
    /// Whether it was taken.
    pub result: Result<(), BuildError>,
    /// The event that tells of it.
    pub event: ObsEnvelope,
}

/// An observer cannot be built.
#[derive(Debug)]
pub enum BuildError {
    /// The configuration cannot be used.
    InvalidConfig(ConfigError),
    /// The audit spool cannot be opened, for this reason.
    SpoolOpen(String),
}

impl BuildError {
    /// The message for a person.
    pub fn message(&self) -> (r: String)
        ensures
            r@ == (match *self {
                BuildError::InvalidConfig(e) => "invalid config: "@ + e.text(),
                BuildError::SpoolOpen(e) => "audit spool open failed: "@ + e@,
            }),
    {
        let mut out = String::new();
        match self {
            BuildError::InvalidConfig(e) => {
                out.append("invalid config: ");
                out.append(e.message().as_str());
                proof {
                    assert(out@ =~= "invalid config: "@ + e.text());
                }
            },
            BuildError::SpoolOpen(e) => {
                out.append("audit spool open failed: ");
                out.append(e.as_str());
                proof {
                    assert(out@ =~= "audit spool open failed: "@ + e@);
                }
            },
        }
        out
    }
}

/// The filter that a text gives, or what is said of the directive that cannot
/// be read; no text gives the open filter.
pub open spec fn read_filter(spec: Option<Seq<char>>) -> Result<FilterView, Seq<char>> {
    match spec {
        Some(s) => match filter::with_pieces(
            filter::open_filter(),
            filter::pieces(s, 0, false),
        ) {
            Ok(f) => Ok(f),
            Err((piece, left)) => Err(filter::malformed_text(piece, left)),
        },
        None => Ok(filter::open_filter()),
    }
}

/// What is wrong with a filter that has a directive that cannot be read.
pub open spec fn filter_fault(said: Seq<char>) -> Seq<char> {
    "malformed filter directive: "@ + said
}

/// Reads the filter that a text gives.
fn filter_from(spec: Option<&str>) -> (r: Result<Filter, FilterParseError>)
    ensures
        match read_filter(
            match spec {
                Some(s) => Some(s@),
                None => None,
            },
        ) {
            Ok(f) => r matches Ok(filter) && filter@ == f,
            Err(said) => r matches Err(FilterParseError::Malformed(m)) && m@ == said,
        },
{
    match spec {
        Some(s) => Filter::parse(s),
        None => Ok(Filter::new()),
    }
}

/// Whether a configuration was refused for this value, with this fault.
pub open spec fn refused(r: BuildError, field: Seq<char>, detail: Seq<char>) -> bool {
    r matches BuildError::InvalidConfig(ConfigError::InvalidRange { field: f, detail: d }) && f@
        == field && d@ == detail
}

/// The number by which a configuration is told apart: made from the hash of
/// its text, zero where it has none.
pub open spec fn config_number(yaml: Option<Seq<char>>) -> u64 {
    match yaml {
        Some(s) => digest::low_number(digest::blake3_digest(vstd::utf8::encode_utf8(s))),
        None => 0,
    }
}

/// The number by which a configuration is told apart.
pub fn config_hash(yaml: Option<&str>) -> (r: u64)
    ensures
        r == config_number(
            match yaml {
                Some(s) => Some(s@),
                None => None,
            },
        ),
{
    match yaml {
        Some(s) => {
            let hash = digest::digest(s.as_bytes());
            first_number(hash.as_slice())
        },
        None => 0,
    }
}

/// The event that tells that a configuration was refused.
pub open spec fn reload_failed_event(reason: Seq<char>) -> EnvelopeView {
    self_events::labelled(
        self_events::base("obs.runtime.v1.ObsConfigReloadFailed"@, Severity::Warn),
        "reason"@,
        self_events::truncated(reason, 512),
    )
}

/// Whether `after` is what a new configuration leaves of an observer, and `r`
/// tells of that: all of it where it was refused, and otherwise all but the
/// configuration, the filter and the generation.
pub open spec fn is_reloaded<S>(
    before: StandardObserver<S>,
    new_config: EventsConfig,
    after: StandardObserver<S>,
    r: Reloaded,
) -> bool {
    match r.result {
        Err(_) => after == before && r.event@.sev == EnumValue::Known(Severity::Warn),
        Ok(_) => {
            &&& r.event@.sev == EnumValue::Known(Severity::Info)
            &&& config::first_violation(new_config) is None
            &&& after == (StandardObserver {
                config: new_config,
                filter: after.filter,
                generation: next_generation(before.generation),
                ..before
            })
        },
    }
}

impl<S> StandardObserver<S> {
    /// An observer in the making.
    #[must_use]
    pub fn builder() -> (r: StandardObserverBuilder<S>)
        ensures
            r.is_default(),
    {
        StandardObserverBuilder::default()
    }

    /// Gives an envelope the identity of the service where it brings none.
    fn fill_identity(&self, env: &mut ObsEnvelope)
        ensures
            final(env)@ == identified(old(env)@, self.service@, self.instance@, self.version@),
    {
        if env.service.as_str().is_empty() {
            env.service = self.service.clone();
        }
        if env.instance.as_str().is_empty() {
            env.instance = self.instance.clone();
        }
        if env.version.as_str().is_empty() {
            env.version = self.version.clone();
        }
    }

    /// Takes an envelope through the scopes, the limits, the filter and the
    /// sampler.
    pub fn run_emit_pipeline(
        &self,
        env: &mut ObsEnvelope,
        sev: Severity,
        stack: &mut ScopeStack,
        draws: &mut Draws,
    ) -> (r: EmitOutcome)
        ensures
            ({
                let p = pipeline::passage(
                    self.config,
                    self.filter@,
                    old(env)@,
                    sev,
                    old(stack)@,
                    old(draws)@,
                );
                &&& r@ == p.outcome
                &&& final(env)@ == p.env
                &&& final(stack)@ == p.frames
                &&& final(draws)@ == p.draws
            }),
    {
        run_pipeline(&self.config, &self.filter, env, sev, stack, draws)
    }

    /// Takes an envelope from the emit to the point where it is delivered.
    pub fn emit_envelope(
        &self,
        env: ObsEnvelope,
        stack: &mut ScopeStack,
        draws: &mut Draws,
        runtime: bool,
    ) -> (r: Emitted)
        ensures
            ({
                let p = pipeline::passage(
                    self.config,
                    self.filter@,
                    identified(env@, self.service@, self.instance@, self.version@),
                    record::known_sev(env@.sev),
                    old(stack)@,
                    old(draws)@,
                );
                &&& r.outcome@ == p.outcome
                &&& r.env@ == p.env
                &&& final(stack)@ == p.frames
                &&& final(draws)@ == p.draws
                &&& r.tier == record::known_tier(env@.tier)
                &&& r.dispatch == (if !runtime || !self.workers.serves(r.tier) || r.tier
                    == Tier::Unspecified {
                    Dispatch::Sync
                } else if r.tier == Tier::Audit {
                    Dispatch::Audit
                } else {
                    Dispatch::Worker
                })
                &&& pipeline::opt_event(r.event) == pipeline::oversized_event(env@.full_name, p.outcome)
            }),
    {
        let mut env = env;
        let ghost given = env@;
        self.fill_identity(&mut env);
        let ghost start = env@;
        let sev = env.native_sev();
        let outcome = self.run_emit_pipeline(&mut env, sev, stack, draws);
        proof {
            scope::law_explicit_values_stay(start, scope::fields_in_reach(old(stack)@));
        }
        let tier = env.native_tier();
        let event = outcome.event(env.full_name.as_str());
        let how = dispatch(tier, runtime, self.workers.has(tier));
        Emitted { outcome, env, tier, dispatch: how, event }
    }

    /// The sink of a tier and the envelope that it is given, scrubbed. Nothing
    /// where there is no sink, or where the payload cannot be scrubbed.
    pub fn dispatch_sync<'a>(
        &'a self,
        env: &'a ObsEnvelope,
        tier: Tier,
        scratch: &'a mut BytesMut,
    ) -> (r: Option<(&'a S, ScrubbedEnvelope<'a>)>)
        ensures
            is_delivery(self.router, self.registry@, env@, tier, r),
    {
        delivery_to(&self.router, &*self.registry, env, tier, scratch)
    }

    /// Takes a new configuration, and with it the filter that it gives, else
    /// that of the environment. One that cannot be used leaves everything as
    /// it was. `yaml` is the text of the configuration, and `env_filter` is
    /// `OBS_FILTER`.
    ///
    /// # Errors
    ///
    /// The first value that is out of its range is reported, then a filter
    /// that cannot be read.
    pub fn reload_config(
        &mut self,
        new_config: EventsConfig,
        yaml: Option<&str>,
        env_filter: Option<&str>,
    ) -> (r: Reloaded)
        ensures
            ({
                let spec = match (new_config.filter, env_filter) {
                    (Some(s), _) => Some(s@),
                    (None, Some(s)) => Some(s@),
                    (None, None) => None,
                };
                match (config::first_violation(new_config), read_filter(spec)) {
                    (Some((field, detail)), _) => {
                        &&& r.result matches Err(e)
                        &&& refused(e, field, detail)
                        &&& r.event@ == reload_failed_event(
                            "validate: "@ + (ConfigError::InvalidRange {
                                field: r.result->Err_0->InvalidConfig_0->field,
                                detail: r.result->Err_0->InvalidConfig_0->detail,
                            }).text(),
                        )
                        &&& *final(self) == *old(self)
                    },
                    (None, Err(directive)) => {
                        &&& r.result matches Err(e)
                        &&& refused(e, "filter"@, filter_fault(directive))
                        &&& r.event@ == reload_failed_event(
                            "filter: "@ + filter_fault(directive),
                        )
                        &&& *final(self) == *old(self)
                    },
                    (None, Ok(f)) => {
                        &&& r.result is Ok
                        &&& r.event@ == self_events::labelled(
                            self_events::base("obs.runtime.v1.ObsConfigReloaded"@, Severity::Info),
                            "config_hash"@,
                            text::hex_digits(
                                config_number(
                                    match yaml {
                                        Some(s) => Some(s@),
                                        None => None,
                                    },
                                ) as nat,
                                16,
                            ),
                        )
                        &&& final(self).filter@ == f
                        &&& *final(self) == (StandardObserver {
                            config: new_config,
                            filter: final(self).filter,
                            generation: next_generation(old(self).generation),
                            ..*old(self)
                        })
                    },
                }
            }),
            is_reloaded(*old(self), new_config, *final(self), r),
    {
        if let Err(e) = new_config.validate() {
            let mut reason = String::new();
            reason.append("validate: ");
            reason.append(e.message().as_str());
            proof {
                assert(reason@ =~= "validate: "@ + e.text());
            }
            let event = self_events::config_reload_failed(reason.as_str());
            return Reloaded { result: Err(BuildError::InvalidConfig(e)), event };
        }
        let spec = match &new_config.filter {
            Some(s) => Some(s.as_str()),
            None => env_filter,
        };
        match filter_from(spec) {
            Ok(parsed) => {
                self.filter = parsed;
                self.config = new_config;
                self.generation = self.generation.wrapping_add(1);
                let event = self_events::config_reloaded(config_hash(yaml));
                Reloaded { result: Ok(()), event }
            },
            Err(e) => {
                let detail = e.message();
                let mut reason = String::new();
                reason.append("filter: ");
                reason.append(detail.as_str());
                proof {
                    assert(reason@ =~= "filter: "@ + detail@);
                }
                let event = self_events::config_reload_failed(reason.as_str());
                Reloaded {
                    result: Err(
                        BuildError::InvalidConfig(ConfigError::invalid_range("filter", detail)),
                    ),
                    event,
                }
            },
        }
    }

    /// Whether an emit site can be of interest.
    pub fn enabled(&self, callsite: &ObsCallsite) -> (r: bool)
        ensures
            r == (filter::interest_of(
                self.filter@,
                callsite@.full_name,
                callsite@.module,
                callsite@.default_sev,
            ) != Interest::Never),
    {
        match self.filter.callsite_interest(callsite) {
            Interest::Never => false,
            _ => true,
        }
    }

    /// How often the filter may have changed.
    pub fn generation(&self) -> (r: u32)
        ensures
            r == self.generation,
    {
        self.generation
    }

    /// Has every emit site ask again.
    pub fn reload_filter(&mut self)
        ensures
            *final(self) == (StandardObserver {
                generation: next_generation(old(self).generation),
                ..*old(self)
            }),
    {
        self.generation = self.generation.wrapping_add(1);
    }

    /// Takes what is known of the service.
    pub fn set_resource_attrs(&mut self, attrs: ResourceAttrs)
        ensures
            *final(self) == (StandardObserver { resource: attrs, ..*old(self) }),
    {
        self.resource = attrs;
    }

    /// What is known of the service.
    pub fn resource_attrs(&self) -> (r: &ResourceAttrs)
        ensures
            *r == self.resource,
    {
        &self.resource
    }

    /// The schemas.
    pub fn registry(&self) -> (r: &SchemaRegistry)
        ensures
            *r == *self.registry,
    {
        &*self.registry
    }

    /// The emit sites that are known.
    pub fn callsites(&self) -> (r: &ObsCallsiteRegistry)
        ensures
            *r == self.callsites,
    {
        &self.callsites
    }

    /// The configuration.
    pub fn config(&self) -> (r: &EventsConfig)
        ensures
            *r == self.config,
    {
        &self.config
    }

    /// The filter.
    pub fn filter(&self) -> (r: &Filter)
        ensures
            *r == self.filter,
    {
        &self.filter
    }

    /// What the workers count.
    pub fn counters(&self) -> (r: WorkerCounters)
        ensures
            r == self.counters,
    {
        self.counters
    }

    /// The event that tells how many audit records of an earlier process were
    /// recovered, if any were.
    pub fn recovered_event(&self, total: u64) -> (r: Option<ObsEnvelope>)
        ensures
            pipeline::opt_event(r) == (if total == 0 {
                None
            } else {
                Some(
                    identified(
                        self_events::labelled(
                            self_events::base(
                                "obs.runtime.v1.ObsAuditSpoolRecovered"@,
                                Severity::Info,
                            ),
                            "record_count"@,
                            text::decimal(total as nat),
                        ),
                        self.service@,
                        self.instance@,
                        self.version@,
                    ),
                )
            }),
    {
        if total == 0 {
            return None;
        }
        let mut env = self_events::audit_spool_recovered(total);
        self.fill_identity(&mut env);
        Some(env)
    }
}

// ---------------------------------------------------------------------------
// Delivery.
// ---------------------------------------------------------------------------
/// Whether `r` is what a sink is given: the sink of the tier and the scrubbed
/// envelope. Nothing where there is no sink, or where the payload cannot be
/// scrubbed.
pub open spec fn is_delivery<S>(
    router: SinkRouter<S>,
    schemas: Seq<SchemaView>,
    env: EnvelopeView,
    tier: Tier,
    r: Option<(&S, ScrubbedEnvelope<'_>)>,
) -> bool {
    let schema = registry::schema_for(schemas, env.schema_hash, env.full_name);
    let readable = schema is None || codec::parse(env.payload).fault is None;
    match r {
        Some((sink, scrubbed)) => {
            &&& router.route(tier) == Some(*sink)
            &&& readable
            &&& scrubbed@.envelope == env
            &&& scrubbed@.payload == registry::scrubbed::scrubbed_payload(schema, env.payload)
            &&& scrubbed@.schema == schema
        },
        None => router.route(tier) is None || !readable,
    }
}

/// The sink of a tier and the envelope that it is given, scrubbed.
pub fn delivery_to<'a, S>(
    router: &'a SinkRouter<S>,
    schemas: &'a SchemaRegistry,
    env: &'a ObsEnvelope,
    tier: Tier,
    scratch: &'a mut BytesMut,
) -> (r: Option<(&'a S, ScrubbedEnvelope<'a>)>)
    ensures
        is_delivery(*router, schemas@, env@, tier, r),
{
    match router.for_tier(tier) {
        Some(sink) => match ScrubbedEnvelope::scrub(env, schemas, scratch) {
            Ok(scrubbed) => Some((sink, scrubbed)),
            Err(_) => None,
        },
        None => None,
    }
}

// ---------------------------------------------------------------------------
// Building one.
// ---------------------------------------------------------------------------
/// What the process around an observer that is built brings.
#[derive(Debug)]
pub struct Surroundings {
    /// `OBS_DEV`
    pub dev: Option<String>,
    /// `OBS_FILTER`
    pub filter: Option<String>,
    /// What the environment says of the service.
    pub environment: Environment,
    /// `CARGO_PKG_NAME`
    pub package_name: Option<String>,
    /// The version of a service that has none.
    pub package_version: String,
    /// Whether workers can be spawned.
    pub runtime: bool,
}

/// Whether a text says that diagnostics for development are on.
pub open spec fn says_on(s: Seq<char>) -> bool {
    let t = text::lowered(text::trimmed(s));
    t == "1"@ || t == "true"@ || t == "yes"@ || t == "on"@
}

/// Whether a variable says that diagnostics for development are on.
pub open spec fn dev_on(dev: Option<Seq<char>>) -> bool {
    dev matches Some(s) && says_on(s)
}

/// Whether a text says that diagnostics for development are on.
pub fn is_dev(value: &str) -> (r: bool)
    ensures
        r == says_on(value@),
{
    let chars = chars_of(value);
    let t = trim(chars.as_slice());
    proof {
        reveal_strlit("1");
        reveal_strlit("true");
        reveal_strlit("yes");
        reveal_strlit("on");
        assert(text::lowered("1"@) =~= "1"@);
        assert(text::lowered("true"@) =~= "true"@);
        assert(text::lowered("yes"@) =~= "yes"@);
        assert(text::lowered("on"@) =~= "on"@);
    }
    eq_ignore_case(t, "1") || eq_ignore_case(t, "true") || eq_ignore_case(t, "yes")
        || eq_ignore_case(t, "on")
}

/// The first text that is there.
pub open spec fn first_text(
    a: Option<Seq<char>>,
    b: Option<Seq<char>>,
    c: Option<Seq<char>>,
) -> Option<Seq<char>> {
    if a is Some {
        a
    } else if b is Some {
        b
    } else {
        c
    }
}

/// The text that was set, else that of the configuration.
pub open spec fn own_text(set: Option<String>, configured: Option<String>) -> Option<Seq<char>> {
    match set {
        Some(s) => Some(s@),
        None => text::opt_text(configured),
    }
}

/// The name of the service: what was set, else what the configuration says,
/// else the environment, else the package.
pub open spec fn chosen_service(own: Option<Seq<char>>, around: Surroundings) -> Seq<char> {
    match own {
        Some(s) => s,
        None => first_text(
            around.environment@.service_name,
            text::opt_text(around.package_name),
            Some("obs"@),
        )->Some_0,
    }
}

/// Whether `cfg` is the configuration that was given, or the default, with
/// the diagnostics for development as the environment adds to them.
pub open spec fn configured(
    given: Option<EventsConfig>,
    dev: Option<Seq<char>>,
    cfg: EventsConfig,
) -> bool {
    match given {
        Some(c) => cfg == (EventsConfig { dev_mode: c.dev_mode || dev_on(dev), ..c }),
        None => (EventsConfig { dev_mode: false, ..cfg }).is_default() && cfg.dev_mode == dev_on(
            dev,
        ),
    }
}

/// An observer in the making.
#[derive(Debug)]
pub struct StandardObserverBuilder<S> {
    pub router: SinkRouter<S>,
    pub registry: Option<SchemaRegistry>,
    pub config: Option<EventsConfig>,
    pub filter_spec: Option<String>,
    pub service: Option<String>,
    pub instance: Option<String>,
    pub version: Option<String>,
    pub spawn_workers: bool,
}

impl<S> StandardObserverBuilder<S> {
    /// Whether nothing was chosen yet.
    pub open spec fn is_default(self) -> bool {
        &&& self.router.log is None
        &&& self.router.metric is None
        &&& self.router.trace is None
        &&& self.router.audit is None
        &&& self.router.fallback is None
        &&& self.registry is None
        &&& self.config is None
        &&& self.filter_spec is None
        &&& self.service is None
        &&& self.instance is None
        &&& self.version is None
        &&& self.spawn_workers
    }
}

impl<S> Default for StandardObserverBuilder<S> {
    fn default() -> (r: Self)
        ensures
            r.is_default(),
    {
        StandardObserverBuilder {
            router: SinkRouter::new(),
            registry: None,
            config: None,
            filter_spec: None,
            service: None,
            instance: None,
            version: None,
            spawn_workers: true,
        }
    }
}

/// The text that was set, else that of the configuration.
fn set_or_configured(set: Option<String>, configured: &Option<String>) -> (r: Option<String>)
    ensures
        text::opt_text(r) == own_text(set, *configured),
{
    match set {
        Some(s) => Some(s),
        None => copy_opt(configured),
    }
}

impl<S> StandardObserverBuilder<S> {
    /// Sets the name and the version of the service.
    #[must_use]
    pub fn service(self, name: &str, version: &str) -> (r: Self)
        ensures
            text::opt_text(r.service) == Some(name@),
            text::opt_text(r.version) == Some(version@),
            r == (StandardObserverBuilder { service: r.service, version: r.version, ..self }),
    {
        let mut this = self;
        this.service = Some(name.to_string());
        this.version = Some(version.to_string());
        this
    }

    /// Sets the instance of the service.
    #[must_use]
    pub fn instance(self, instance: &str) -> (r: Self)
        ensures
            text::opt_text(r.instance) == Some(instance@),
            r == (StandardObserverBuilder { instance: r.instance, ..self }),
    {
        let mut this = self;
        this.instance = Some(instance.to_string());
        this
    }

    /// Gives a tier its sink, in place of the one it may have had.
    #[must_use]
    pub fn sink_for(self, tier: Tier, sink: S) -> (r: Self)
        ensures
            r == (StandardObserverBuilder {
                router: match tier {
                    Tier::Log => SinkRouter { log: Some(sink), ..self.router },
                    Tier::Metric => SinkRouter { metric: Some(sink), ..self.router },
                    Tier::Trace => SinkRouter { trace: Some(sink), ..self.router },
                    Tier::Audit => SinkRouter { audit: Some(sink), ..self.router },
                    Tier::Unspecified => self.router,
                },
                ..self
            }),
    {
        let mut this = self;
        this.router.set(tier, sink);
        this
    }

    /// Sets the sink of what has none of its own.
    #[must_use]
    pub fn sink_fallback(self, sink: S) -> (r: Self)
        ensures
            r == (StandardObserverBuilder {
                router: SinkRouter { fallback: Some(sink), ..self.router },
                ..self
            }),
    {
        let mut this = self;
        this.router.fallback = Some(sink);
        this
    }

    /// Sets the configuration.
    #[must_use]
    pub fn config(self, cfg: EventsConfig) -> (r: Self)
        ensures
            r == (StandardObserverBuilder { config: Some(cfg), ..self }),
    {
        let mut this = self;
        this.config = Some(cfg);
        this
    }

    /// Sets the filter, which goes before that of the configuration.
    #[must_use]
    pub fn filter(self, spec: &str) -> (r: Self)
        ensures
            text::opt_text(r.filter_spec) == Some(spec@),
            r == (StandardObserverBuilder { filter_spec: r.filter_spec, ..self }),
    {
        let mut this = self;
        this.filter_spec = Some(spec.to_string());
        this
    }

    /// Sets the schemas.
    #[must_use]
    pub fn registry(self, registry: SchemaRegistry) -> (r: Self)
        ensures
            r == (StandardObserverBuilder { registry: Some(registry), ..self }),
    {
        let mut this = self;
        this.registry = Some(registry);
        this
    }

    /// Sets whether workers are spawned where they can be.
    #[must_use]
    pub fn spawn_workers(self, yes: bool) -> (r: Self)
        ensures
            r == (StandardObserverBuilder { spawn_workers: yes, ..self }),
    {
        let mut this = self;
        this.spawn_workers = yes;
        this
    }

    /// Builds the observer. `linked` are the schemas of the program, which
    /// count where none were set. What the configuration says of the service
    /// overrides the environment.
    ///
    /// # Errors
    ///
    /// The first value of the configuration that is out of its range is
    /// reported, then a filter that cannot be read.
    pub fn build(self, linked: SchemaRegistry, around: &Surroundings) -> (r: Result<
        StandardObserver<S>,
        BuildError,
    >)
        ensures
            ({
                let given_filter = match self.config {
                    Some(c) => text::opt_text(c.filter),
                    None => None,
                };
                let violation = match self.config {
                    Some(c) => config::first_violation(c),
                    None => None,
                };
                let spec = first_text(
                    text::opt_text(self.filter_spec),
                    given_filter,
                    text::opt_text(around.filter),
                );
                match (violation, read_filter(spec)) {
                    (Some((field, detail)), _) => r matches Err(e) && refused(e, field, detail),
                    (None, Err(directive)) => r matches Err(e) && refused(
                        e,
                        "filter"@,
                        filter_fault(directive),
                    ),
                    (None, Ok(f)) => {
                        &&& r matches Ok(o)
                        &&& configured(self.config, text::opt_text(around.dev), o.config)
                        &&& o.filter@ == f
                        &&& o.router == self.router
                        &&& o.workers == pool_for(
                            self.router,
                            self.spawn_workers && around.runtime,
                        )
                        &&& o.spools == self.router.audit is Some
                        &&& *o.registry == (match self.registry {
                            Some(given) => given,
                            None => linked,
                        })
                        &&& o.service@ == chosen_service(
                            own_text(self.service, o.config.service.name),
                            *around,
                        )
                        &&& o.version@ == (match own_text(
                            self.version,
                            o.config.service.version,
                        ) {
                            Some(v) => v,
                            None => around.package_version@,
                        })
                        &&& o.instance@ == (match own_text(
                            self.instance,
                            o.config.service.instance,
                        ) {
                            Some(i) => i,
                            None => Seq::<char>::empty(),
                        })
                        &&& o.resource@ == resource::with_service(
                            resource::resource_from(
                                o.service@,
                                o.version@,
                                o.instance@,
                                around.environment@,
                            ),
                            o.config.service,
                            o.service@,
                            o.version@,
                            o.instance@,
                        )
                        &&& o.callsites@ == Map::<u64, CallsiteRecord>::empty()
                        &&& o.generation == 1
                        &&& o.counters == (WorkerCounters {
                            channel_full_log: 0,
                            channel_full_metric: 0,
                            channel_full_trace: 0,
                            channel_full_audit: 0,
                            delivered: 0,
                        })
                    },
                }
            }),
    {
        let mut cfg = match self.config {
            Some(c) => c,
            None => {
                let c = EventsConfig::default();
                proof {
                    config::law_default_is_valid(c);
                }
                c
            },
        };
        if !cfg.dev_mode {
            if let Some(v) = &around.dev {
                cfg.dev_mode = is_dev(v.as_str());
            }
        }
        if let Err(e) = cfg.validate() {
            return Err(BuildError::InvalidConfig(e));
        }
        let spec = match self.filter_spec {
            Some(s) => Some(s),
            None => match copy_opt(&cfg.filter) {
                Some(s) => Some(s),
                None => copy_opt(&around.filter),
            },
        };
        let text = match &spec {
            Some(s) => Some(s.as_str()),
            None => None,
        };
        let filter = match filter_from(text) {
            Ok(f) => f,
            Err(e) => {
                return Err(
                    BuildError::InvalidConfig(ConfigError::invalid_range("filter", e.message())),
                );
            },
        };
        let registry = match self.registry {
            Some(given) => given,
            None => linked,
        };
        let service = match set_or_configured(self.service, &cfg.service.name) {
            Some(s) => s,
            None => match copy_opt(&around.environment.service_name) {
                Some(s) => s,
                None => match copy_opt(&around.package_name) {
                    Some(s) => s,
                    None => "obs".to_string(),
                },
            },
        };
        let version = match set_or_configured(self.version, &cfg.service.version) {
            Some(v) => v,
            None => around.package_version.clone(),
        };
        let instance = match set_or_configured(self.instance, &cfg.service.instance) {
            Some(i) => i,
            None => String::new(),
        };
        let mut resource = build_resource_from_env(
            service.as_str(),
            version.as_str(),
            instance.as_str(),
            &around.environment,
        );
        add_service(
            &mut resource,
            &cfg.service,
            service.as_str(),
            version.as_str(),
            instance.as_str(),
        );
        let workers = spawn_pool(&self.router, self.spawn_workers && around.runtime);
        let spools = self.router.audit.is_some();
        Ok(
            StandardObserver {
                router: self.router,
                workers,
                spools,
                registry: Arc::new(registry),
                config: cfg,
                filter,
                resource,
                callsites: ObsCallsiteRegistry::new(),
                counters: WorkerCounters::default(),
                generation: 1,
                service,
                instance,
                version,
            },
        )
    }
}

// ---------------------------------------------------------------------------
// What an observer owes.
// ---------------------------------------------------------------------------
/// An envelope keeps the service, the instance and the version that it brings,
/// and gets those of the observer where it brings none. Nothing else changes.
pub proof fn law_identity_fills_the_gaps(
    env: EnvelopeView,
    service: Seq<char>,
    instance: Seq<char>,
    version: Seq<char>,
)
    ensures
        ({
            let now = identified(env, service, instance, version);
            &&& now.service == (if env.service.len() > 0 {
                env.service
            } else {
                service
            })
            &&& now.instance == (if env.instance.len() > 0 {
                env.instance
            } else {
                instance
            })
            &&& now.version == (if env.version.len() > 0 {
                env.version
            } else {
                version
            })
            &&& now == (EnvelopeView {
                service: now.service,
                instance: now.instance,
                version: now.version,
                ..env
            })
        }),
{
}

/// A generation goes up by one and starts over after the largest, so that two
/// that follow each other are never the same.
pub proof fn law_generations_follow(n: u32)
    ensures
        n < u32::MAX ==> next_generation(n) == n + 1,
        next_generation(u32::MAX) == 0,
        next_generation(n) != n,
{
}

/// A tier has a worker where workers may be spawned and it has a sink, its own
/// or the fallback; audit records have one only with a sink of their own.
pub proof fn law_workers_serve_sinks<S>(router: SinkRouter<S>)
    ensures
        pool_for(router, true).serves(Tier::Log) <==> router.log is Some || router.fallback is Some,
        pool_for(router, true).serves(Tier::Metric) <==> router.metric is Some
            || router.fallback is Some,
        pool_for(router, true).serves(Tier::Trace) <==> router.trace is Some
            || router.fallback is Some,
        pool_for(router, true).serves(Tier::Audit) <==> router.audit is Some,
        forall|spawn: bool| !(#[trigger] pool_for(router, spawn)).serves(Tier::Unspecified),
        forall|tier: Tier| !(#[trigger] pool_for(router, false).serves(tier)),
{
}

/// A sink is given what its tier emits, unless the payload cannot be read by its
/// schema: what is given was scrubbed, and nothing is given without a sink.
pub proof fn law_nothing_unreadable_is_delivered<S>(
    router: SinkRouter<S>,
    schemas: Seq<SchemaView>,
    env: EnvelopeView,
    tier: Tier,
    r: Option<(&S, ScrubbedEnvelope<'_>)>,
)
    requires
        is_delivery(router, schemas, env, tier, r),
    ensures
        router.route(tier) is None ==> r is None,
        registry::schema_for(schemas, env.schema_hash, env.full_name) is Some && codec::parse(
            env.payload,
        ).fault is Some ==> r is None,
        router.route(tier) is Some && codec::parse(env.payload).fault is None ==> r is Some,
        router.route(tier) is Some && registry::schema_for(schemas, env.schema_hash, env.full_name)
            is None ==> (r matches Some((_, s)) && s@.payload == env.payload),
        r matches Some((sink, s)) ==> router.route(tier) == Some(*sink) && s@.envelope == env,
        r matches Some((_, s)) ==> (registry::schema_for(schemas, env.schema_hash, env.full_name)
            matches Some(schema) ==> s@.payload == registry::scrubber::scrub(
            schema.fields,
            env.payload,
        )),
{
}

/// Diagnostics are on for four words, in any case and with white space around
/// them, and for no other.
pub proof fn law_four_words_say_on(front: Seq<char>, word: Seq<char>, back: Seq<char>)
    requires
        resource::is_blank(front),
        resource::is_blank(back),
        resource::is_tidy(word),
    ensures
        says_on(front + word + back) <==> text::lowered(word) == "1"@ || text::lowered(word)
            == "true"@ || text::lowered(word) == "yes"@ || text::lowered(word) == "on"@,
        dev_on(Some(front + word + back)) <==> says_on(front + word + back),
        !dev_on(None),
{
    text::law_white_space_around_is_taken(front, word, back);
}

/// The environment turns diagnostics on and never off; nothing else of a
/// configuration that was given changes.
pub proof fn law_the_environment_adds_diagnostics(
    c: EventsConfig,
    dev: Option<Seq<char>>,
    cfg: EventsConfig,
)
    requires
        configured(Some(c), dev, cfg),
    ensures
        c.dev_mode ==> cfg.dev_mode,
        dev_on(dev) ==> cfg.dev_mode,
        !c.dev_mode && !dev_on(dev) ==> !cfg.dev_mode,
        cfg.filter == c.filter,
        cfg.sampling == c.sampling,
        cfg.limits == c.limits,
        cfg.audit == c.audit,
        cfg.queues == c.queues,
        cfg.sinks == c.sinks,
        cfg.service == c.service,
{
}

/// The service is named by what was set, then by the configuration, then by the
/// environment, then by the package, and at last by the library.
pub proof fn law_the_nearest_name_is_chosen(
    set: String,
    configured_name: String,
    other: Option<String>,
    around: Surroundings,
)
    ensures
        chosen_service(own_text(Some(set), other), around) == set@,
        chosen_service(own_text(None, Some(configured_name)), around) == configured_name@,
        around.environment.service_name matches Some(s) ==> chosen_service(
            own_text(None, None),
            around,
        ) == s@,
        around.environment.service_name is None ==> (around.package_name matches Some(s)
            ==> chosen_service(own_text(None, None), around) == s@),
        around.environment.service_name is None && around.package_name is None ==> chosen_service(
            own_text(None, None),
            around,
        ) == "obs"@,
{
}

/// The first text that is there counts.
pub proof fn law_the_first_text_counts(a: Seq<char>, b: Option<Seq<char>>, c: Option<Seq<char>>)
    ensures
        first_text(Some(a), b, c) == Some(a),
        first_text(None, Some(a), c) == Some(a),
        first_text(None, None, c) == c,
{
}

/// Without a text the filter is the open one; a text that cannot be read gives
/// none.
pub proof fn law_no_text_leaves_the_filter_open(s: Seq<char>)
    ensures
        read_filter(None) == Ok::<FilterView, Seq<char>>(filter::open_filter()),
        read_filter(Some(s)) is Ok <==> filter::with_pieces(
            filter::open_filter(),
            filter::pieces(s, 0, false),
        ) is Ok,
        config_number(None) == 0,
{
}

/// A configuration that was refused is told as a warning with the reason, as far
/// as that fits.
pub proof fn law_a_refused_configuration_is_told(reason: Seq<char>)
    ensures
        reload_failed_event(reason).full_name == "obs.runtime.v1.ObsConfigReloadFailed"@,
        reload_failed_event(reason).sev == EnumValue::Known(Severity::Warn),
        text::byte_len(reason) <= 512 ==> reload_failed_event(reason).labels.contains_pair(
            "reason"@,
            reason,
        ),
        reload_failed_event(reason).labels.contains_pair(
            "reason"@,
            self_events::truncated(reason, 512),
        ),
{
}

/// A refusal names the value and what is wrong with it.
pub proof fn law_a_refusal_names_the_value(r: BuildError, field: Seq<char>, detail: Seq<char>)
    requires
        refused(r, field, detail),
    ensures
        r matches BuildError::InvalidConfig(e) && e.text() == "invalid range for `"@ + field
            + "`: "@ + detail,
{
}

/// An observer is built from what was chosen: the filter that was set counts
/// before that of the configuration, and that before the one of the environment.
/// It begins with its first generation, and knows no emit site.
pub proof fn law_an_observer_is_built_as_chosen<S>(
    b: StandardObserverBuilder<S>,
    linked: SchemaRegistry,
    around: Surroundings,
    r: Result<StandardObserver<S>, BuildError>,
)
    requires
        call_ensures(StandardObserverBuilder::<S>::build, (b, linked, &around), r),
    ensures
        b.config matches Some(c) ==> (config::first_violation(c) is Some ==> r is Err),
        r matches Ok(o) ==> {
            &&& b.filter_spec matches Some(s) ==> read_filter(Some(s@)) == Ok::<
                FilterView,
                Seq<char>,
            >(o.filter@)
            &&& b.filter_spec is None && b.config is Some ==> (b.config->Some_0.filter matches Some(
                s,
            ) ==> read_filter(Some(s@)) == Ok::<FilterView, Seq<char>>(o.filter@))
            &&& b.filter_spec is None && b.config is None ==> (around.filter matches Some(s)
                ==> read_filter(Some(s@)) == Ok::<FilterView, Seq<char>>(o.filter@))
            &&& b.filter_spec is None && b.config is None && around.filter is None ==> o.filter@
                == filter::open_filter()
            &&& b.service matches Some(s) ==> o.service@ == s@
            &&& b.version matches Some(s) ==> o.version@ == s@
            &&& b.instance matches Some(s) ==> o.instance@ == s@
            &&& b.registry matches Some(given) ==> *o.registry == given
            &&& b.registry is None ==> *o.registry == linked
            &&& o.router == b.router
            &&& o.spools <==> b.router.audit is Some
            &&& !b.spawn_workers || !around.runtime ==> o.workers == (WorkerPool {
                log: false,
                metric: false,
                trace: false,
                audit: false,
            })
            &&& o.generation == 1
            &&& o.counters.delivered == 0
            &&& o.callsites@.dom() == Set::<u64>::empty()
        },
{
}

/// What is wrong with a filter is said before the directive that cannot be read.
pub proof fn law_a_filter_fault_names_the_directive(said: Seq<char>)
    ensures
        filter_fault(said) == "malformed filter directive: "@ + said,
{
}

/// A configuration that is refused changes nothing. One that is taken has every
/// emit site ask again, and leaves the sinks, the schemas and the identity of the
/// service as they are.
pub proof fn law_a_refused_configuration_changes_nothing<S>(
    before: StandardObserver<S>,
    new_config: EventsConfig,
    after: StandardObserver<S>,
    r: Reloaded,
)
    requires
        is_reloaded(before, new_config, after, r),
    ensures
        r.result is Err ==> after == before,
        config::first_violation(new_config) is Some ==> r.result is Err,
        r.result is Ok ==> {
            &&& after.config == new_config
            &&& after.generation != before.generation
            &&& after.router == before.router
            &&& after.registry == before.registry
            &&& after.service == before.service
            &&& after.counters == before.counters
            &&& after.callsites == before.callsites
        },
{
    law_generations_follow(before.generation);
}

} // verus!
