//! The envelope that a sink gets to see.

use bytes::BytesMut;
use vstd::prelude::*;

use super::erased::{EventSchemaErased, SchemaView, ScrubError};
use super::{scrubber, SchemaRegistry};
use crate::envelope::{EnvelopeView, ObsEnvelope};
use crate::registry;
use crate::wire::codec;

verus! {

/// An envelope whose payload was scrubbed.
#[derive(Debug, Clone, Copy)]
pub struct ScrubbedEnvelope<'a> {
    inner: &'a ObsEnvelope,
    payload: &'a [u8],
    schema: Option<&'a EventSchemaErased>,
}

/// What a sink gets to see.
pub struct ScrubbedView {
    pub envelope: EnvelopeView,
    pub payload: Seq<u8>,
    pub schema: Option<SchemaView>,
}

impl<'a> View for ScrubbedEnvelope<'a> {
    type V = ScrubbedView;

    closed spec fn view(&self) -> ScrubbedView {
        ScrubbedView {
            envelope: self.inner@,
            payload: self.payload@,
            schema: match self.schema {
                Some(s) => Some(s@),
                None => None,
            },
        }
    }
}

/// What the scrubber makes of the payload of an envelope with the given
/// schema; an unknown schema leaves it as it is.
pub open spec fn scrubbed_payload(schema: Option<SchemaView>, payload: Seq<u8>) -> Seq<u8> {
    match schema {
        Some(s) => scrubber::scrub(s.fields, payload),
        None => payload,
    }
}

impl<'a> ScrubbedEnvelope<'a> {
    /// Scrubs an envelope.
    ///
    /// # Errors
    ///
    /// A payload that its schema cannot read is refused, and the sink does not
    /// get to see it.
    pub fn scrub(env: &'a ObsEnvelope, registry: &'a SchemaRegistry, scratch: &'a mut BytesMut) -> (r:
        Result<Self, ScrubError>)
        ensures
            ({
                let schema = registry::schema_for(
                    registry@,
                    env@.schema_hash,
                    env@.full_name,
                );
                match r {
                    Ok(s) => s@ == (ScrubbedView {
                        envelope: env@,
                        payload: scrubbed_payload(schema, env@.payload),
                        schema,
                    }) && (schema is Some ==> codec::parse(env@.payload).fault is None),
                    Err(ScrubError::ReencodeFailed(name)) => {
                        &&& schema is Some
                        &&& scrubber::refusal(schema->Some_0.fields, env@.payload) == Some(name@)
                    },
                }
            }),
    {
        match registry.lookup(env) {
            Some(schema) => match schema.scrub_for_log(env.payload.as_slice(), scratch) {
                Ok(payload) => Ok(
                    ScrubbedEnvelope { inner: env, payload, schema: Some(schema) },
                ),
                Err(e) => Err(e),
            },
            None => Ok(
                ScrubbedEnvelope { inner: env, payload: env.payload.as_slice(), schema: None },
            ),
        }
    }

    /// An envelope whose payload needs no scrubbing.
    #[must_use]
    pub fn pass_through(env: &'a ObsEnvelope, registry: &'a SchemaRegistry) -> (r: Self)
        ensures
            r@ == (ScrubbedView {
                envelope: env@,
                payload: env@.payload,
                schema: registry::schema_for(registry@, env@.schema_hash, env@.full_name),
            }),
    {
        ScrubbedEnvelope {
            inner: env,
            payload: env.payload.as_slice(),
            schema: registry.lookup(env),
        }
    }

    /// An envelope as a sink under test gets it.
    #[must_use]
    pub fn for_test(env: &'a ObsEnvelope, registry: &'a SchemaRegistry) -> (r: Self)
        ensures
            r@ == (ScrubbedView {
                envelope: env@,
                payload: env@.payload,
                schema: registry::schema_for(registry@, env@.schema_hash, env@.full_name),
            }),
    {
        Self::pass_through(env, registry)
    }

    /// The envelope, whose own payload is the one that was not scrubbed.
    #[must_use]
    pub fn envelope(&self) -> (r: &ObsEnvelope)
        ensures
            r@ == self@.envelope,
    {
        self.inner
    }

    /// The payload that was scrubbed.
    #[must_use]
    pub fn payload(&self) -> (r: &[u8])
        ensures
            r@ == self@.payload,
    {
        self.payload
    }

    /// The schema, where it is known.
    #[must_use]
    pub fn schema(&self) -> (r: Option<&EventSchemaErased>)
        ensures
            match self@.schema {
                Some(s) => r matches Some(schema) && schema@ == s,
                None => r is None,
            },
    {
        self.schema
    }
}

/// What a sink gets to see of an event that no schema describes is its payload
/// as it is; of any other it is the payload that was scrubbed by the schema.
pub proof fn law_only_a_schema_scrubs(schema: SchemaView, payload: Seq<u8>)
    ensures
        scrubbed_payload(None, payload) == payload,
        scrubbed_payload(Some(schema), payload) == scrubber::scrub(schema.fields, payload),
{
}

} // verus!
