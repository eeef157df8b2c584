//! Envelopes for typed events.

use bytes::BytesMut;
use vstd::prelude::*;
use vstd::slice::slice_to_vec;

use super::projection::FieldMeta;
use super::record::{self, EnvelopeView, ObsEnvelope};
use crate::callsite::ObsCallsite;
use crate::self_event::{self, wall_ns};
use crate::types::{EnumValue, SamplingReason, Severity, Tier};
use crate::wire::codec::{self, buffer_slice};

verus! {

/// A type of event.
pub trait EventSchema: Sized {
    /// The full name of the event.
    const FULL_NAME: &'static str;

    /// Its tier.
    const TIER: Tier;

    /// The severity that it has by default.
    const DEFAULT_SEV: Severity;

    /// Its fields.
    const FIELDS: &'static [FieldMeta];

    /// The hash of its schema.
    const SCHEMA_HASH: u64;

    /// The encoded event. Each type of event has its own; nothing is known of
    /// that of a type that does not say.
    open spec fn encoded(&self) -> Seq<u8> {
        arbitrary()
    }

    /// Appends the encoded event.
    fn encode_payload(&self, buf: &mut BytesMut)
        ensures
            codec::buffer_bytes(*final(buf)) == codec::buffer_bytes(*old(buf)) + self.encoded(),
    ;

    /// Hands labels and trace to an envelope.
    fn project(&self, env: &mut ObsEnvelope);
}

/// An envelope around an encoded event.
pub open spec fn fresh_envelope(
    full_name: Seq<char>,
    schema_hash: u64,
    tier: Tier,
    sev: Severity,
    ts_ns: u64,
    payload: Seq<u8>,
) -> EnvelopeView {
    EnvelopeView {
        full_name,
        schema_hash,
        tier: EnumValue::Known(tier),
        sev: EnumValue::Known(sev),
        ts_ns,
        payload,
        sampling_reason: EnumValue::Known(SamplingReason::HeadRate),
        ..record::empty_envelope()
    }
}

/// An envelope around an encoded event.
pub fn envelope_around(
    full_name: &str,
    schema_hash: u64,
    tier: Tier,
    sev: Severity,
    ts_ns: u64,
    payload: Vec<u8>,
) -> (r: ObsEnvelope)
    ensures
        r@ == fresh_envelope(full_name@, schema_hash, tier, sev, ts_ns, payload@),
{
    let mut env = ObsEnvelope::default();
    env.full_name = full_name.to_string();
    env.schema_hash = schema_hash;
    env.tier = EnumValue::Known(tier);
    env.sev = EnumValue::Known(sev);
    env.ts_ns = ts_ns;
    env.payload = payload;
    env.sampling_reason = EnumValue::Known(SamplingReason::HeadRate);
    env
}

/// An envelope around an event, with the severity that the event has by
/// default. Labels and trace are not set yet.
#[must_use]
pub fn build_envelope<E: EventSchema>(callsite: &ObsCallsite, event: &E) -> (r: ObsEnvelope)
    ensures
        r@ == fresh_envelope(
            E::FULL_NAME@,
            E::SCHEMA_HASH,
            E::TIER,
            E::DEFAULT_SEV,
            r@.ts_ns,
            event.encoded(),
        ),
        self_event::is_wall_time(r@.ts_ns),
{
    build_envelope_at::<E>(callsite, event, E::DEFAULT_SEV)
}

/// An envelope around an event, with this severity. Labels and trace are not
/// set yet. What the time is the clock says.
#[must_use]
pub fn build_envelope_at<E: EventSchema>(callsite: &ObsCallsite, event: &E, sev: Severity) -> (r:
    ObsEnvelope)
    ensures
        r@ == fresh_envelope(
            E::FULL_NAME@,
            E::SCHEMA_HASH,
            E::TIER,
            sev,
            r@.ts_ns,
            event.encoded(),
        ),
        self_event::is_wall_time(r@.ts_ns),
{
    let mut buf = BytesMut::new();
    event.encode_payload(&mut buf);
    let payload = slice_to_vec(buffer_slice(&buf));
    assert(payload@ =~= event.encoded());
    envelope_around(E::FULL_NAME, E::SCHEMA_HASH, E::TIER, sev, wall_ns(), payload)
}

/// An envelope.
#[derive(Debug)]
pub struct Envelope(pub ObsEnvelope);

impl Default for Envelope {
    fn default() -> (r: Self)
        ensures
            r.0@ == record::empty_envelope(),
    {
        Envelope(ObsEnvelope::default())
    }
}

impl Clone for Envelope {
    fn clone(&self) -> (r: Self)
        ensures
            r.0@ == self.0@,
    {
        Envelope(self.0.clone())
    }
}

impl Envelope {
    /// The envelope.
    #[must_use]
    pub fn inner(&self) -> (r: &ObsEnvelope)
        ensures
            *r == self.0,
    {
        &self.0
    }

    /// The envelope, to change it.
    pub fn inner_mut(&mut self) -> (r: &mut ObsEnvelope)
        ensures
            *r == old(self).0,
            final(self).0 == *final(r),
    {
        &mut self.0
    }

    /// The envelope.
    #[must_use]
    pub fn into_inner(self) -> (r: ObsEnvelope)
        ensures
            r == self.0,
    {
        self.0
    }
}

/// The envelope of an event is kept by the head rate until something else is
/// said. It carries the event and its time, and no label, trace or service yet.
pub proof fn law_a_fresh_envelope_carries_the_event(
    full_name: Seq<char>,
    schema_hash: u64,
    tier: Tier,
    sev: Severity,
    ts_ns: u64,
    payload: Seq<u8>,
)
    ensures
        ({
            let env = fresh_envelope(full_name, schema_hash, tier, sev, ts_ns, payload);
            &&& env.full_name == full_name
            &&& env.schema_hash == schema_hash
            &&& env.tier == EnumValue::Known(tier)
            &&& env.sev == EnumValue::Known(sev)
            &&& env.ts_ns == ts_ns
            &&& env.payload == payload
            &&& env.sampling_reason == EnumValue::Known(SamplingReason::HeadRate)
            &&& env.labels.dom() == Set::<Seq<char>>::empty()
            &&& env.trace_id.len() + env.span_id.len() + env.parent_span_id.len() == 0
            &&& env.service.len() + env.instance.len() + env.version.len() == 0
            &&& env.callsite_id == 0
        }),
{
}

} // verus!
