//! The observability event core: what an event envelope goes through between
//! its call site and its sink.

#![allow(unused_imports)]

pub mod audit_spool;
pub mod base64;
pub mod by_age;
pub mod callsite;
pub mod config;
pub mod config_watcher;
pub mod digest;
pub mod envelope;
pub mod filter;
pub mod forensic;
pub mod instrumented;
pub mod json;
pub mod limits;
pub mod observer;
pub mod panic_hook;
pub mod propagator;
pub mod registry;
pub mod resource;
pub mod sampling;
pub mod scope;
pub mod self_event;
pub mod self_events;
pub mod sink;
pub mod span_trace;
pub mod test;
pub mod text;
pub mod text_map;
pub mod types;
pub mod wire;

pub use callsite::ObsCallsite;
pub use config::{EventsConfig, SamplingConfig};
pub use envelope::{Envelope, EventSchema, FieldMeta, FieldRole, ObsEnvelope};
pub use filter::Filter;
pub use forensic::{default_forensic_quota, ForensicQuota};
pub use limits::cap_external_string;
pub use observer::{
    BuildError, InMemoryObserver, NoopObserver, StandardObserver, StandardObserverBuilder,
    ThreadObserverGuard, WorkerCounters,
};
pub use propagator::{
    extract_w3c, fresh_span_id, fresh_trace_id, inject_w3c, status_class, IdCounter, ObsTraceCtx,
    W3cPropagator,
};
pub use registry::arrow::{
    ArrowEventSchema, ArrowField, ArrowLeafType, ArrowSchemaModel, ENVELOPE_COLUMNS,
};
pub use registry::callsite_registry::{
    callsite_id, CallsiteRecord, CallsiteSource, ObsCallsiteRegistry,
};
pub use registry::{
    scrub_payload, DecodeError, EventSchemaErased, SchemaRegistry, ScrubError, ScrubbedEnvelope,
};
pub use resource::ResourceAttrs;
pub use sampling::{decide as sample_decide, SamplingDecision};
pub use scope::{ScopeField, ScopeFrame, ScopeFrameBuilder, ScopeGuard, ScopeKind};
pub use self_event::{now_ns, self_event};
pub use sink::{
    FanOutSink, FormatterStyle, InMemoryHandle, InMemorySink, LevelSplitWriter, NonBlockingWriter,
    NoopSink, RollingFileWriter, RollingFileWriterBuilder, RollingPolicy, StderrWriter, StdoutSink,
    StdoutWriter, TeeWriter,
};
pub use span_trace::SpanTrace;
pub use types::{Cardinality, Classification, EnumValue, FieldKind, SamplingReason, Severity, Tier};
