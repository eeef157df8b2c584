//! The envelope itself.

use vstd::prelude::*;
use vstd::slice::slice_to_vec;

use crate::text_map::{self, TextMap};
use crate::types::{EnumValue, SamplingReason, Severity, Tier};

verus! {

/// One event on its way to the sinks.
#[derive(Debug)]
pub struct ObsEnvelope {
    /// The full name of the event.
    pub full_name: String,
    /// The hash of the schema; zero where there is none.
    pub schema_hash: u64,
    /// The tier.
    pub tier: EnumValue<Tier>,
    /// The severity.
    pub sev: EnumValue<Severity>,
    /// When it happened, in nanoseconds since 1970.
    pub ts_ns: u64,
    /// The service that it comes from.
    pub service: String,
    /// The instance of the service.
    pub instance: String,
    /// The version of the service.
    pub version: String,
    /// The trace that it belongs to.
    pub trace_id: String,
    /// The span that it belongs to.
    pub span_id: String,
    /// The parent of that span.
    pub parent_span_id: String,
    /// Why it was kept.
    pub sampling_reason: EnumValue<SamplingReason>,
    /// The emit site; zero where it is not known.
    pub callsite_id: u64,
    /// The labels.
    pub labels: TextMap<String>,
    /// The encoded event.
    pub payload: Vec<u8>,
}

/// What an envelope holds.
pub struct EnvelopeView {
    pub full_name: Seq<char>,
    pub schema_hash: u64,
    pub tier: EnumValue<Tier>,
    pub sev: EnumValue<Severity>,
    pub ts_ns: u64,
    pub service: Seq<char>,
    pub instance: Seq<char>,
    pub version: Seq<char>,
    pub trace_id: Seq<char>,
    pub span_id: Seq<char>,
    pub parent_span_id: Seq<char>,
    pub sampling_reason: EnumValue<SamplingReason>,
    pub callsite_id: u64,
    pub labels: Map<Seq<char>, Seq<char>>,
    pub payload: Seq<u8>,
}

impl View for ObsEnvelope {
    type V = EnvelopeView;

    open spec fn view(&self) -> EnvelopeView {
        EnvelopeView {
            full_name: self.full_name@,
            schema_hash: self.schema_hash,
            tier: self.tier,
            sev: self.sev,
            ts_ns: self.ts_ns,
            service: self.service@,
            instance: self.instance@,
            version: self.version@,
            trace_id: self.trace_id@,
            span_id: self.span_id@,
            parent_span_id: self.parent_span_id@,
            sampling_reason: self.sampling_reason,
            callsite_id: self.callsite_id,
            labels: text_map::text_values(self.labels@),
            payload: self.payload@,
        }
    }
}

/// An envelope that holds nothing.
pub open spec fn empty_envelope() -> EnvelopeView {
    EnvelopeView {
        full_name: Seq::empty(),
        schema_hash: 0,
        tier: EnumValue::Known(Tier::Unspecified),
        sev: EnumValue::Known(Severity::Unspecified),
        ts_ns: 0,
        service: Seq::empty(),
        instance: Seq::empty(),
        version: Seq::empty(),
        trace_id: Seq::empty(),
        span_id: Seq::empty(),
        parent_span_id: Seq::empty(),
        sampling_reason: EnumValue::Known(SamplingReason::Unspecified),
        callsite_id: 0,
        labels: Map::empty(),
        payload: Seq::empty(),
    }
}

impl Default for ObsEnvelope {
    fn default() -> (r: Self)
        ensures
            r@ == empty_envelope(),
    {
        let labels: TextMap<String> = TextMap::new();
        proof {
            assert(text_map::text_values(labels@) =~= Map::<Seq<char>, Seq<char>>::empty());
        }
        let r = ObsEnvelope {
            full_name: String::new(),
            schema_hash: 0,
            tier: EnumValue::Known(Tier::Unspecified),
            sev: EnumValue::Known(Severity::Unspecified),
            ts_ns: 0,
            service: String::new(),
            instance: String::new(),
            version: String::new(),
            trace_id: String::new(),
            span_id: String::new(),
            parent_span_id: String::new(),
            sampling_reason: EnumValue::Known(SamplingReason::Unspecified),
            callsite_id: 0,
            labels,
            payload: Vec::new(),
        };
        proof {
            assert(r.payload@ =~= Seq::<u8>::empty());
        }
        r
    }
}

impl Clone for ObsEnvelope {
    fn clone(&self) -> (r: Self)
        ensures
            r@ == self@,
    {
        ObsEnvelope {
            full_name: self.full_name.clone(),
            schema_hash: self.schema_hash,
            tier: self.tier,
            sev: self.sev,
            ts_ns: self.ts_ns,
            service: self.service.clone(),
            instance: self.instance.clone(),
            version: self.version.clone(),
            trace_id: self.trace_id.clone(),
            span_id: self.span_id.clone(),
            parent_span_id: self.parent_span_id.clone(),
            sampling_reason: self.sampling_reason,
            callsite_id: self.callsite_id,
            labels: self.labels.clone(),
            payload: slice_to_vec(self.payload.as_slice()),
        }
    }
}

/// The severity, `Unspecified` where it is not known.
pub open spec fn known_sev(sev: EnumValue<Severity>) -> Severity {
    match sev {
        EnumValue::Known(s) => s,
        EnumValue::Unknown(_) => Severity::Unspecified,
    }
}

/// The tier, `Unspecified` where it is not known.
pub open spec fn known_tier(tier: EnumValue<Tier>) -> Tier {
    match tier {
        EnumValue::Known(t) => t,
        EnumValue::Unknown(_) => Tier::Unspecified,
    }
}

/// The reason, `Unspecified` where it is not known.
pub open spec fn known_reason(reason: EnumValue<SamplingReason>) -> SamplingReason {
    match reason {
        EnumValue::Known(r) => r,
        EnumValue::Unknown(_) => SamplingReason::Unspecified,
    }
}

impl ObsEnvelope {
    /// The severity, `Unspecified` where it is not known.
    pub fn native_sev(&self) -> (r: Severity)
        ensures
            r == known_sev(self@.sev),
    {
        match self.sev {
            EnumValue::Known(s) => s,
            EnumValue::Unknown(_) => Severity::Unspecified,
        }
    }

    /// The tier, `Unspecified` where it is not known.
    pub fn native_tier(&self) -> (r: Tier)
        ensures
            r == known_tier(self@.tier),
    {
        match self.tier {
            EnumValue::Known(t) => t,
            EnumValue::Unknown(_) => Tier::Unspecified,
        }
    }

    /// The reason, `Unspecified` where it is not known.
    pub fn native_reason(&self) -> (r: SamplingReason)
        ensures
            r == known_reason(self@.sampling_reason),
    {
        match self.sampling_reason {
            EnumValue::Known(r) => r,
            EnumValue::Unknown(_) => SamplingReason::Unspecified,
        }
    }

    /// The value of a label.
    pub fn label(&self, key: &str) -> (r: Option<&str>)
        ensures
            match r {
                Some(v) => self@.labels.contains_pair(key@, v@),
                None => !self@.labels.contains_key(key@),
            },
    {
        self.labels.text(key)
    }

    /// Sets a label.
    pub fn set_label(&mut self, key: String, value: String)
        ensures
            final(self)@ == (EnvelopeView {
                labels: old(self)@.labels.insert(key@, value@),
                ..old(self)@
            }),
    {
        self.labels.set_text(key, value);
    }
}

/// What is known is said; what is not known is unspecified.
pub proof fn law_what_is_known_is_said(s: Severity, t: Tier, r: SamplingReason, n: i32)
    ensures
        known_sev(EnumValue::Known(s)) == s,
        known_tier(EnumValue::Known(t)) == t,
        known_reason(EnumValue::Known(r)) == r,
        known_sev(EnumValue::Unknown(n)) == Severity::Unspecified,
        known_tier(EnumValue::Unknown(n)) == Tier::Unspecified,
        known_reason(EnumValue::Unknown(n)) == SamplingReason::Unspecified,
{
}

/// An empty envelope says nothing at all.
pub proof fn law_an_empty_envelope_says_nothing()
    ensures
        ({
            let env = empty_envelope();
            &&& env.full_name.len() + env.service.len() + env.instance.len() + env.version.len()
                == 0
            &&& env.trace_id.len() + env.span_id.len() + env.parent_span_id.len() == 0
            &&& env.payload.len() == 0
            &&& env.labels.dom() == Set::<Seq<char>>::empty()
            &&& env.schema_hash == 0
            &&& env.callsite_id == 0
            &&& env.ts_ns == 0
            &&& known_sev(env.sev) == Severity::Unspecified
            &&& known_tier(env.tier) == Tier::Unspecified
            &&& known_reason(env.sampling_reason) == SamplingReason::Unspecified
        }),
{
}

/// Two envelopes that are seen alike have the same text in each field.
pub proof fn law_every_field_is_seen(a: ObsEnvelope, b: ObsEnvelope)
    requires
        a@ == b@,
    ensures
        a.full_name@ == b.full_name@,
        a.schema_hash == b.schema_hash,
        a.tier == b.tier,
        a.sev == b.sev,
        a.ts_ns == b.ts_ns,
        a.service@ == b.service@,
        a.instance@ == b.instance@,
        a.version@ == b.version@,
        a.trace_id@ == b.trace_id@,
        a.span_id@ == b.span_id@,
        a.parent_span_id@ == b.parent_span_id@,
        a.sampling_reason == b.sampling_reason,
        a.callsite_id == b.callsite_id,
        text_map::text_values(a.labels@) == text_map::text_values(b.labels@),
        a.payload@ == b.payload@,
{
}

} // verus!
