//! The runtime configuration.

pub mod env;
pub mod overlay;
pub mod yaml;

use vstd::prelude::*;

pub use env::{env_override_path, expand_env_vars};
pub use overlay::merged_with_env;
pub use yaml::{apply_yaml_path, override_value, read_or_text};

use crate::json::{self, copy_value, null_value};
use crate::sampling::{self, Rate};
use crate::text::copy_opt;
use crate::text_map::TextMap;
use crate::types::Severity;

verus! {

/// The configuration.
#[derive(Debug)]
pub struct EventsConfig {
    /// The filter, where one is given.
    pub filter: Option<String>,
    /// How events are sampled.
    pub sampling: SamplingConfig,
    /// How large an event may be.
    pub limits: LimitsConfig,
    /// How audit records are delivered.
    pub audit: AuditConfig,
    /// How long the queues are.
    pub queues: QueuesConfig,
    /// How single sinks are set up.
    pub sinks: SinksConfig,
    /// What the service is.
    pub service: ServiceConfig,
    /// Whether diagnostics for development are on.
    pub dev_mode: bool,
}

/// How events are sampled.
#[derive(Debug)]
pub struct SamplingConfig {
    /// The rate of events that have none of their own.
    pub default_rate: Rate,
    /// The rates of single events, by full name.
    pub per_event: TextMap<Rate>,
    /// The severity from which on events are not sampled.
    pub always_log_at_or_above: Severity,
    /// How many envelopes a scope holds back.
    pub tail_buffer_capacity: u16,
    /// Whether the decision of an upstream caller counts.
    pub honour_traceparent_sampled: bool,
}

impl SamplingConfig {
    /// Whether this says what `other` says.
    pub open spec fn is_copy_of(self, other: Self) -> bool {
        &&& self.default_rate == other.default_rate
        &&& self.per_event@ == other.per_event@
        &&& self.per_event.pairs() == other.per_event.pairs()
        &&& self.always_log_at_or_above == other.always_log_at_or_above
        &&& self.tail_buffer_capacity == other.tail_buffer_capacity
        &&& self.honour_traceparent_sampled == other.honour_traceparent_sampled
    }

    /// Whether this is what holds where nothing is configured.
    pub open spec fn is_default(self) -> bool {
        &&& self.default_rate.bits == sampling::ONE_BITS
        &&& self.default_rate.text@ == "1"@
        &&& self.per_event@ == Map::<Seq<char>, Rate>::empty()
        &&& self.per_event.pairs() == Seq::<(Seq<char>, Rate)>::empty()
        &&& self.always_log_at_or_above == Severity::Warn
        &&& self.tail_buffer_capacity == 64
        &&& self.honour_traceparent_sampled
    }
}

impl Clone for SamplingConfig {
    fn clone(&self) -> (r: Self)
        ensures
            r.is_copy_of(*self),
    {
        SamplingConfig {
            default_rate: self.default_rate.clone(),
            per_event: self.per_event.clone(),
            always_log_at_or_above: self.always_log_at_or_above,
            tail_buffer_capacity: self.tail_buffer_capacity,
            honour_traceparent_sampled: self.honour_traceparent_sampled,
        }
    }
}

impl Default for SamplingConfig {
    fn default() -> (r: Self)
        ensures
            r.is_default(),
    {
        SamplingConfig {
            default_rate: Rate::one(),
            per_event: TextMap::new(),
            always_log_at_or_above: Severity::Warn,
            tail_buffer_capacity: 64,
            honour_traceparent_sampled: true,
        }
    }
}

/// How large an event may be.
#[derive(Debug, Clone, Copy, PartialEq, Eq, Structural)]
pub struct LimitsConfig {
    /// The bytes of a payload.
    pub max_payload_bytes: u32,
    /// The bytes of one label.
    pub max_label_value_bytes: u16,
}

impl Default for LimitsConfig {
    fn default() -> (r: Self)
        ensures
            r == (LimitsConfig { max_payload_bytes: 262_144, max_label_value_bytes: 1024 }),
    {
        LimitsConfig { max_payload_bytes: 262_144, max_label_value_bytes: 1024 }
    }
}

/// How audit records are delivered.
#[derive(Debug)]
pub struct AuditConfig {
    /// How many records the queue of the audit worker takes.
    pub channel_capacity: u32,
    /// How long an emit waits for room in the queue, in milliseconds.
    pub block_ms_max: u32,
    /// How long the queue may be full before records are spooled, in
    /// milliseconds.
    pub spool_after_ms: u32,
    /// Where records are spooled.
    pub spool_dir: String,
    /// How large the spool may become.
    pub spool_max_bytes: u64,
    /// What to do when a record cannot be delivered.
    pub on_failure: AuditFailureMode,
    /// When the spool is forced to disk.
    pub fsync_mode: AuditFsyncMode,
}

impl AuditConfig {
    /// Whether this is what holds where nothing is configured.
    pub open spec fn is_default(self) -> bool {
        &&& self.channel_capacity == 1024
        &&& self.block_ms_max == 100
        &&& self.spool_after_ms == 250
        &&& self.spool_dir@ == "./obs-audit-spool"@
        &&& self.spool_max_bytes == 1_073_741_824
        &&& self.on_failure == AuditFailureMode::Panic
        &&& self.fsync_mode == AuditFsyncMode::PerBatch
    }
}

impl Clone for AuditConfig {
    fn clone(&self) -> (r: Self)
        ensures
            r == *self,
    {
        AuditConfig {
            channel_capacity: self.channel_capacity,
            block_ms_max: self.block_ms_max,
            spool_after_ms: self.spool_after_ms,
            spool_dir: self.spool_dir.clone(),
            spool_max_bytes: self.spool_max_bytes,
            on_failure: self.on_failure,
            fsync_mode: self.fsync_mode,
        }
    }
}

impl Default for AuditConfig {
    fn default() -> (r: Self)
        ensures
            r.is_default(),
    {
        AuditConfig {
            channel_capacity: 1024,
            block_ms_max: 100,
            spool_after_ms: 250,
            spool_dir: "./obs-audit-spool".to_string(),
            spool_max_bytes: 1_073_741_824,
            on_failure: AuditFailureMode::Panic,
            fsync_mode: AuditFsyncMode::PerBatch,
        }
    }
}

/// When the audit spool is forced to disk.
#[derive(Debug, Clone, Copy, PartialEq, Eq, Structural)]
pub enum AuditFsyncMode {
    /// Never.
    Never,
    /// After each batch.
    PerBatch,
    /// After each record.
    PerRecord,
}

impl Default for AuditFsyncMode {
    fn default() -> (r: Self)
        ensures
            r == AuditFsyncMode::PerBatch,
    {
        AuditFsyncMode::PerBatch
    }
}

/// What to do when an audit record cannot be delivered.
#[derive(Debug, Clone, Copy, PartialEq, Eq, Structural)]
pub enum AuditFailureMode {
    /// Panic, so that a supervisor restarts the process.
    Panic,
    /// Abort the process.
    Abort,
    /// Warn and drop the record.
    WarnOnly,
}

impl Default for AuditFailureMode {
    fn default() -> (r: Self)
        ensures
            r == AuditFailureMode::Panic,
    {
        AuditFailureMode::Panic
    }
}

/// How long the queues are.
#[derive(Debug, Clone, Copy, PartialEq, Eq, Structural)]
pub struct QueuesConfig {
    /// The queue for logs.
    pub log: u32,
    /// The queue for metrics.
    pub metric: u32,
    /// The queue for traces.
    pub trace: u32,
}

impl Default for QueuesConfig {
    fn default() -> (r: Self)
        ensures
            r == (QueuesConfig { log: 8192, metric: 8192, trace: 8192 }),
    {
        QueuesConfig { log: 8192, metric: 8192, trace: 8192 }
    }
}

/// What the service is.
#[derive(Debug)]
pub struct ServiceConfig {
    /// Its name.
    pub name: Option<String>,
    /// Its version.
    pub version: Option<String>,
    /// Its instance.
    pub instance: Option<String>,
    /// Its namespace.
    pub namespace: Option<String>,
    /// The environment that it runs in.
    pub environment: Option<String>,
    /// What else is known of it.
    pub extra: TextMap<String>,
}

impl ServiceConfig {
    /// Whether this says what `other` says.
    pub open spec fn is_copy_of(self, other: Self) -> bool {
        &&& self.name == other.name
        &&& self.version == other.version
        &&& self.instance == other.instance
        &&& self.namespace == other.namespace
        &&& self.environment == other.environment
        &&& self.extra@ == other.extra@
        &&& self.extra.pairs() == other.extra.pairs()
    }

    /// Whether this is what holds where nothing is configured.
    pub open spec fn is_default(self) -> bool {
        &&& self.name is None
        &&& self.version is None
        &&& self.instance is None
        &&& self.namespace is None
        &&& self.environment is None
        &&& self.extra@ == Map::<Seq<char>, String>::empty()
    }
}

impl Clone for ServiceConfig {
    fn clone(&self) -> (r: Self)
        ensures
            r.is_copy_of(*self),
    {
        ServiceConfig {
            name: copy_opt(&self.name),
            version: copy_opt(&self.version),
            instance: copy_opt(&self.instance),
            namespace: copy_opt(&self.namespace),
            environment: copy_opt(&self.environment),
            extra: self.extra.clone(),
        }
    }
}

impl Default for ServiceConfig {
    fn default() -> (r: Self)
        ensures
            r.is_default(),
    {
        ServiceConfig {
            name: None,
            version: None,
            instance: None,
            namespace: None,
            environment: None,
            extra: TextMap::new(),
        }
    }
}

/// How single sinks are set up. What is said of a sink is for that sink to
/// read.
#[derive(Debug)]
pub struct SinksConfig {
    /// Standard output.
    pub stdout: serde_json::Value,
    /// OTLP.
    pub otlp: serde_json::Value,
    /// A file of JSON lines.
    pub ndjson: serde_json::Value,
    /// Parquet.
    pub parquet: serde_json::Value,
    /// ClickHouse.
    pub clickhouse: serde_json::Value,
}

impl SinksConfig {
    /// Whether this says what `other` says.
    pub open spec fn is_copy_of(self, other: Self) -> bool {
        &&& json::value_text(self.stdout) == json::value_text(other.stdout)
        &&& json::value_text(self.otlp) == json::value_text(other.otlp)
        &&& json::value_text(self.ndjson) == json::value_text(other.ndjson)
        &&& json::value_text(self.parquet) == json::value_text(other.parquet)
        &&& json::value_text(self.clickhouse) == json::value_text(other.clickhouse)
    }

    /// Whether this is what holds where nothing is configured.
    pub open spec fn is_default(self) -> bool {
        &&& json::value_text(self.stdout) == "null"@
        &&& json::value_text(self.otlp) == "null"@
        &&& json::value_text(self.ndjson) == "null"@
        &&& json::value_text(self.parquet) == "null"@
        &&& json::value_text(self.clickhouse) == "null"@
    }
}

impl Clone for SinksConfig {
    fn clone(&self) -> (r: Self)
        ensures
            r.is_copy_of(*self),
    {
        SinksConfig {
            stdout: copy_value(&self.stdout),
            otlp: copy_value(&self.otlp),
            ndjson: copy_value(&self.ndjson),
            parquet: copy_value(&self.parquet),
            clickhouse: copy_value(&self.clickhouse),
        }
    }
}

impl Default for SinksConfig {
    fn default() -> (r: Self)
        ensures
            r.is_default(),
    {
        SinksConfig {
            stdout: null_value(),
            otlp: null_value(),
            ndjson: null_value(),
            parquet: null_value(),
            clickhouse: null_value(),
        }
    }
}

impl EventsConfig {
    /// Whether this says what `other` says.
    pub open spec fn is_copy_of(self, other: Self) -> bool {
        &&& self.filter == other.filter
        &&& self.sampling.is_copy_of(other.sampling)
        &&& self.limits == other.limits
        &&& self.audit == other.audit
        &&& self.queues == other.queues
        &&& self.sinks.is_copy_of(other.sinks)
        &&& self.service.is_copy_of(other.service)
        &&& self.dev_mode == other.dev_mode
    }

    /// Whether this is what holds where nothing is configured.
    pub open spec fn is_default(self) -> bool {
        &&& self.filter is None
        &&& self.sampling.is_default()
        &&& self.limits == (LimitsConfig {
            max_payload_bytes: 262_144,
            max_label_value_bytes: 1024,
        })
        &&& self.audit.is_default()
        &&& self.queues == (QueuesConfig { log: 8192, metric: 8192, trace: 8192 })
        &&& self.sinks.is_default()
        &&& self.service.is_default()
        &&& !self.dev_mode
    }
}

impl Clone for EventsConfig {
    fn clone(&self) -> (r: Self)
        ensures
            r.is_copy_of(*self),
    {
        EventsConfig {
            filter: copy_opt(&self.filter),
            sampling: self.sampling.clone(),
            limits: self.limits,
            audit: self.audit.clone(),
            queues: self.queues,
            sinks: self.sinks.clone(),
            service: self.service.clone(),
            dev_mode: self.dev_mode,
        }
    }
}

impl Default for EventsConfig {
    fn default() -> (r: Self)
        ensures
            r.is_default(),
    {
        EventsConfig {
            filter: None,
            sampling: SamplingConfig::default(),
            limits: LimitsConfig::default(),
            audit: AuditConfig::default(),
            queues: QueuesConfig::default(),
            sinks: SinksConfig::default(),
            service: ServiceConfig::default(),
            dev_mode: false,
        }
    }
}

/// The configuration cannot be used.
#[derive(Debug)]
pub enum ConfigError {
    /// A value is out of its range.
    InvalidRange {
        /// The value, by its path.
        field: &'static str,
        /// What is wrong with it.
        detail: String,
    },
    /// The file could not be read.
    Io(String),
    /// The file could not be understood.
    Yaml(String),
}

impl ConfigError {
    /// The message for a person.
    pub open spec fn text(self) -> Seq<char> {
        match self {
            ConfigError::InvalidRange { field, detail } => "invalid range for `"@ + field@ + "`: "@
                + detail@,
            ConfigError::Io(m) => "io: "@ + m@,
            ConfigError::Yaml(m) => "yaml: "@ + m@,
        }
    }

    /// The message for a person.
    pub fn message(&self) -> (r: String)
        ensures
            r@ == self.text(),
    {
        let mut out = String::new();
        match self {
            ConfigError::InvalidRange { field, detail } => {
                out.append("invalid range for `");
                out.append(field);
                out.append("`: ");
                out.append(detail.as_str());
            },
            ConfigError::Io(m) => {
                out.append("io: ");
                out.append(m.as_str());
            },
            ConfigError::Yaml(m) => {
                out.append("yaml: ");
                out.append(m.as_str());
            },
        }
        proof {
            assert(out@ =~= self.text());
        }
        out
    }

    /// A value that is out of its range.
    pub(crate) fn invalid_range(field: &'static str, detail: String) -> (r: Self)
        ensures
            r == (ConfigError::InvalidRange { field, detail }),
    {
        ConfigError::InvalidRange { field, detail }
    }
}

/// The first event, by name, whose rate is out of range, and that rate.
pub open spec fn first_bad_rate(pairs: Seq<(Seq<char>, Rate)>) -> Option<(Seq<char>, Rate)>
    decreases pairs.len(),
{
    if pairs.len() == 0 {
        None
    } else if !pairs[0].1.in_unit_range() {
        Some(pairs[0])
    } else {
        first_bad_rate(pairs.skip(1))
    }
}

/// The first thing that is wrong with a configuration: the value, and what is
/// wrong with it.
pub open spec fn first_violation(cfg: EventsConfig) -> Option<(Seq<char>, Seq<char>)> {
    let limit = cfg.limits.max_payload_bytes;
    if !cfg.sampling.default_rate.in_unit_range() {
        Some(("sampling.default_rate"@, "must be in [0.0, 1.0]"@))
    } else if let Some((name, rate)) = first_bad_rate(cfg.sampling.per_event.pairs()) {
        Some(
            ("sampling.per_event[..]"@, name + " = "@ + rate.text@ + " is outside [0.0, 1.0]"@),
        )
    } else if limit < 1024 {
        Some(("limits.max_payload_bytes"@, "must be ≥ 1 KiB"@))
    } else if limit > 16_777_216 {
        Some(("limits.max_payload_bytes"@, "must be ≤ 16 MiB"@))
    } else if cfg.queues.log < 64 || cfg.queues.metric < 64 || cfg.queues.trace < 64 {
        Some(("queues.{log,metric,trace}"@, "must be ≥ 64"@))
    } else {
        None
    }
}

impl EventsConfig {
    /// A configuration in the making.
    #[must_use]
    pub fn builder() -> (r: EventsConfigBuilder)
        ensures
            r.cfg.is_default(),
    {
        EventsConfigBuilder { cfg: EventsConfig::default() }
    }

    /// Holds the values against their ranges.
    ///
    /// # Errors
    ///
    /// The first value that is out of its range is reported.
    pub fn validate(&self) -> (r: Result<(), ConfigError>)
        ensures
            match first_violation(*self) {
                None => r is Ok,
                Some((f, d)) => r matches Err(ConfigError::InvalidRange { field, detail })
                    && field@ == f && detail@ == d,
            },
    {
        if !self.sampling.default_rate.is_in_unit_range() {
            return Err(
                ConfigError::invalid_range(
                    "sampling.default_rate",
                    "must be in [0.0, 1.0]".to_string(),
                ),
            );
        }
        let rates = &self.sampling.per_event;
        let ghost pairs = rates.pairs();
        let n: usize = rates.len();
        let mut i: usize = 0;
        proof {
            assert(pairs.skip(0) =~= pairs);
        }
        while i < n
            invariant
                i <= n,
                n == pairs.len(),
                pairs == rates.pairs(),
                rates == self.sampling.per_event,
                self.sampling.default_rate.in_unit_range(),
                first_bad_rate(pairs) == first_bad_rate(pairs.skip(i as int)),
            decreases n - i,
        {
            let (name, rate) = rates.at(i);
            proof {
                assert(pairs.skip(i as int).skip(1) =~= pairs.skip(i + 1));
                assert(pairs.skip(i as int)[0] == pairs[i as int]);
            }
            if !rate.is_in_unit_range() {
                let mut detail = name.clone();
                detail.append(" = ");
                detail.append(rate.text.as_str());
                detail.append(" is outside [0.0, 1.0]");
                return Err(ConfigError::invalid_range("sampling.per_event[..]", detail));
            }
            i = i + 1;
        }
        if self.limits.max_payload_bytes < 1024 {
            return Err(
                ConfigError::invalid_range(
                    "limits.max_payload_bytes",
                    "must be ≥ 1 KiB".to_string(),
                ),
            );
        }
        if self.limits.max_payload_bytes > 16_777_216 {
            return Err(
                ConfigError::invalid_range(
                    "limits.max_payload_bytes",
                    "must be ≤ 16 MiB".to_string(),
                ),
            );
        }
        if self.queues.log < 64 || self.queues.metric < 64 || self.queues.trace < 64 {
            return Err(
                ConfigError::invalid_range("queues.{log,metric,trace}", "must be ≥ 64".to_string()),
            );
        }
        Ok(())
    }
}

/// What holds where nothing is configured is in range.
pub proof fn law_default_is_valid(cfg: EventsConfig)
    requires
        cfg.is_default(),
    ensures
        first_violation(cfg) is None,
{
}

/// A configuration in the making.
#[derive(Debug)]
pub struct EventsConfigBuilder {
    pub cfg: EventsConfig,
}

impl Default for EventsConfigBuilder {
    fn default() -> (r: Self)
        ensures
            r.cfg.is_default(),
    {
        EventsConfigBuilder { cfg: EventsConfig::default() }
    }
}

impl EventsConfigBuilder {
    /// Sets the filter.
    #[must_use]
    pub fn filter(self, s: String) -> (r: Self)
        ensures
            r.cfg == (EventsConfig { filter: Some(s), ..self.cfg }),
    {
        let mut this = self;
        this.cfg.filter = Some(s);
        this
    }

    /// Sets how events are sampled.
    #[must_use]
    pub fn sampling(self, s: SamplingConfig) -> (r: Self)
        ensures
            r.cfg == (EventsConfig { sampling: s, ..self.cfg }),
    {
        let mut this = self;
        this.cfg.sampling = s;
        this
    }

    /// Sets how large an event may be.
    #[must_use]
    pub fn limits(self, l: LimitsConfig) -> (r: Self)
        ensures
            r.cfg == (EventsConfig { limits: l, ..self.cfg }),
    {
        let mut this = self;
        this.cfg.limits = l;
        this
    }

    /// Sets how long the queues are.
    #[must_use]
    pub fn queues(self, q: QueuesConfig) -> (r: Self)
        ensures
            r.cfg == (EventsConfig { queues: q, ..self.cfg }),
    {
        let mut this = self;
        this.cfg.queues = q;
        this
    }

    /// Sets how audit records are delivered.
    #[must_use]
    pub fn audit(self, a: AuditConfig) -> (r: Self)
        ensures
            r.cfg == (EventsConfig { audit: a, ..self.cfg }),
    {
        let mut this = self;
        this.cfg.audit = a;
        this
    }

    /// Sets how single sinks are set up.
    #[must_use]
    pub fn sinks(self, s: SinksConfig) -> (r: Self)
        ensures
            r.cfg == (EventsConfig { sinks: s, ..self.cfg }),
    {
        let mut this = self;
        this.cfg.sinks = s;
        this
    }

    /// Sets what the service is.
    #[must_use]
    pub fn service(self, s: ServiceConfig) -> (r: Self)
        ensures
            r.cfg == (EventsConfig { service: s, ..self.cfg }),
    {
        let mut this = self;
        this.cfg.service = s;
        this
    }

    /// The configuration, which has not been held against its ranges.
    #[must_use]
    pub fn build(self) -> (r: EventsConfig)
        ensures
            r == self.cfg,
    {
        self.cfg
    }
}

/// A configuration is in range exactly where every rate lies between zero and
/// one, an event may have from 1 KiB to 16 MiB, and each queue holds 64 or more.
pub proof fn law_every_value_has_its_range(cfg: EventsConfig)
    ensures
        first_violation(cfg) is None <==> {
            &&& cfg.sampling.default_rate.in_unit_range()
            &&& forall|i: int|
                0 <= i < cfg.sampling.per_event.pairs().len() ==> (
                #[trigger] cfg.sampling.per_event.pairs()[i]).1.in_unit_range()
            &&& 1024 <= cfg.limits.max_payload_bytes <= 16 * 1024 * 1024
            &&& cfg.queues.log >= 64
            &&& cfg.queues.metric >= 64
            &&& cfg.queues.trace >= 64
        },
{
    let pairs = cfg.sampling.per_event.pairs();
    if forall|i: int| 0 <= i < pairs.len() ==> (#[trigger] pairs[i]).1.in_unit_range() {
        law_the_first_bad_rate_is_told(pairs, pairs.len() as int);
    } else {
        lemma_some_bad_rate(pairs);
    }
}

proof fn lemma_some_bad_rate(pairs: Seq<(Seq<char>, Rate)>)
    requires
        exists|i: int| 0 <= i < pairs.len() && !(#[trigger] pairs[i]).1.in_unit_range(),
    ensures
        first_bad_rate(pairs) is Some,
    decreases pairs.len(),
{
    if pairs[0].1.in_unit_range() {
        let i = choose|i: int| 0 <= i < pairs.len() && !(#[trigger] pairs[i]).1.in_unit_range();
        assert(pairs.skip(1)[i - 1] == pairs[i]);
        lemma_some_bad_rate(pairs.skip(1));
    }
}

/// Of several rates out of range the first is told.
pub proof fn law_the_first_bad_rate_is_told(pairs: Seq<(Seq<char>, Rate)>, i: int)
    requires
        0 <= i <= pairs.len(),
        forall|j: int| 0 <= j < i ==> (#[trigger] pairs[j]).1.in_unit_range(),
        i < pairs.len() ==> !pairs[i].1.in_unit_range(),
    ensures
        first_bad_rate(pairs) == (if i < pairs.len() {
            Some(pairs[i])
        } else {
            None
        }),
    decreases pairs.len(),
{
    if pairs.len() > 0 && i > 0 {
        assert(pairs[0].1.in_unit_range());
        let tail = pairs.skip(1);
        assert forall|j: int| 0 <= j < i - 1 implies (#[trigger] tail[j]).1.in_unit_range() by {
            assert(tail[j] == pairs[j + 1]);
        }
        law_the_first_bad_rate_is_told(tail, i - 1);
    }
}

/// What is out of its range is told by the name of its value: the rates go
/// first, then the size of an event, then the queues.
pub proof fn law_the_value_out_of_range_is_named(cfg: EventsConfig)
    ensures
        ({
            let rates = cfg.sampling.default_rate.in_unit_range();
            let events = first_bad_rate(cfg.sampling.per_event.pairs()) is None;
            let size = 1024 <= cfg.limits.max_payload_bytes <= 16_777_216;
            let told = first_violation(cfg);
            &&& !rates ==> told is Some && told->Some_0.0 == "sampling.default_rate"@
            &&& rates && !events ==> told is Some && told->Some_0.0 == "sampling.per_event[..]"@
            &&& rates && !events ==> first_bad_rate(
                cfg.sampling.per_event.pairs(),
            )->Some_0.0.is_prefix_of(told->Some_0.1)
            &&& rates && events && !size ==> told is Some && told->Some_0.0
                == "limits.max_payload_bytes"@
            &&& rates && events && size && (cfg.queues.log < 64 || cfg.queues.metric < 64
                || cfg.queues.trace < 64) ==> told is Some && told->Some_0.0
                == "queues.{log,metric,trace}"@
        }),
{
    if let Some((name, rate)) = first_bad_rate(cfg.sampling.per_event.pairs()) {
        let all = name + " = "@ + rate.text@ + " is outside [0.0, 1.0]"@;
        assert(name =~= all.take(name.len() as int));
    }
}

/// An error names what it is about and ends with what was wrong.
pub proof fn law_an_error_says_what_was_wrong(field: &'static str, detail: String, m: String)
    ensures
        (ConfigError::InvalidRange { field, detail }).text() == "invalid range for `"@ + field@
            + "`: "@ + detail@,
        ConfigError::Io(m).text() == "io: "@ + m@,
        ConfigError::Yaml(m).text() == "yaml: "@ + m@,
{
}

/// Where nothing is configured every event is kept, warnings whatever the rate,
/// an event may have 256 KiB and a label 1 KiB, each queue holds 8192 events, and
/// an audit record that is lost is a panic.
pub proof fn law_what_holds_by_default(cfg: EventsConfig)
    requires
        cfg.is_default(),
    ensures
        cfg.sampling.default_rate.bits == 0x3FF0_0000_0000_0000,
        cfg.sampling.per_event@.dom() == Set::<Seq<char>>::empty(),
        cfg.sampling.always_log_at_or_above == Severity::Warn,
        cfg.sampling.tail_buffer_capacity == 64,
        cfg.sampling.honour_traceparent_sampled,
        cfg.limits.max_payload_bytes == 256 * 1024,
        cfg.limits.max_label_value_bytes == 1024,
        cfg.queues.log == 8192,
        cfg.queues.metric == 8192,
        cfg.queues.trace == 8192,
        cfg.audit.channel_capacity == 1024,
        cfg.audit.block_ms_max == 100,
        cfg.audit.spool_after_ms == 250,
        cfg.audit.spool_dir@ == "./obs-audit-spool"@,
        cfg.audit.spool_max_bytes == 1024 * 1024 * 1024,
        cfg.audit.on_failure == AuditFailureMode::Panic,
        cfg.audit.fsync_mode == AuditFsyncMode::PerBatch,
        cfg.filter is None,
        cfg.service.name is None,
        cfg.service.extra@.dom() == Set::<Seq<char>>::empty(),
        !cfg.dev_mode,
{
}

/// A copy of a configuration is in range where the configuration is.
pub proof fn law_a_copy_says_the_same(a: EventsConfig, b: EventsConfig)
    requires
        a.is_copy_of(b),
    ensures
        first_violation(a) == first_violation(b),
        a.filter == b.filter,
        a.limits == b.limits,
        a.queues == b.queues,
        a.audit == b.audit,
        a.dev_mode == b.dev_mode,
        a.sampling.per_event@ == b.sampling.per_event@,
        a.service.name == b.service.name,
        a.service.extra@ == b.service.extra@,
{
}

} // verus!
