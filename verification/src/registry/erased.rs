//! What a schema knows of its events, and the ways a payload can fail it.

use bytes::BytesMut;
use vstd::prelude::*;
use vstd::slice::slice_to_vec;

use super::payload_decode::{
    self, decode_to_arrow_struct_default, decode_to_otlp_kv_default, project_metrics_default,
    render_json_default, ArrowCell, MetricPoint, OtlpValue, PayloadJson,
};
use super::scrubber::{self, scrub_payload};
use crate::envelope::FieldMeta;
use crate::types::{Severity, Tier};
use crate::wire::codec;

verus! {

/// What marks a type as one of the schemas of this library.
pub trait Sealed {

}

/// A schema: what its events are called and what their fields are. How a
/// payload is shown, measured and scrubbed goes by the table of its fields, so
/// that no schema lets a classified field pass.
#[derive(Debug)]
pub struct EventSchemaErased {
    full_name: &'static str,
    schema_hash: u64,
    tier: Tier,
    default_sev: Severity,
    fields: Vec<FieldMeta>,
}

impl Sealed for EventSchemaErased {

}

/// What a schema says.
pub struct SchemaView {
    pub full_name: Seq<char>,
    pub schema_hash: u64,
    pub tier: Tier,
    pub default_sev: Severity,
    pub fields: Seq<FieldMeta>,
}

impl View for EventSchemaErased {
    type V = SchemaView;

    closed spec fn view(&self) -> SchemaView {
        SchemaView {
            full_name: self.full_name@,
            schema_hash: self.schema_hash,
            tier: self.tier,
            default_sev: self.default_sev,
            fields: self.fields@,
        }
    }
}

impl Clone for EventSchemaErased {
    fn clone(&self) -> (r: Self)
        ensures
            r@ == self@,
    {
        let r = EventSchemaErased {
            full_name: self.full_name,
            schema_hash: self.schema_hash,
            tier: self.tier,
            default_sev: self.default_sev,
            fields: slice_to_vec(self.fields.as_slice()),
        };
        proof {
            assert(r.fields@ =~= self.fields@);
        }
        r
    }
}

impl EventSchemaErased {
    /// A schema.
    pub fn new(
        full_name: &'static str,
        schema_hash: u64,
        tier: Tier,
        default_sev: Severity,
        fields: Vec<FieldMeta>,
    ) -> (r: Self)
        ensures
            r@ == (SchemaView {
                full_name: full_name@,
                schema_hash,
                tier,
                default_sev,
                fields: fields@,
            }),
    {
        EventSchemaErased { full_name, schema_hash, tier, default_sev, fields }
    }

    /// The full name of the event.
    pub fn full_name(&self) -> (r: &'static str)
        ensures
            r@ == self@.full_name,
    {
        self.full_name
    }

    /// The hash of the schema.
    pub fn schema_hash(&self) -> (r: u64)
        ensures
            r == self@.schema_hash,
    {
        self.schema_hash
    }

    /// The tier of the event.
    pub fn tier(&self) -> (r: Tier)
        ensures
            r == self@.tier,
    {
        self.tier
    }

    /// The severity of the event where the emit does not say.
    pub fn default_sev(&self) -> (r: Severity)
        ensures
            r == self@.default_sev,
    {
        self.default_sev
    }

    /// The fields of the event.
    pub fn fields(&self) -> (r: &[FieldMeta])
        ensures
            r@ == self@.fields,
    {
        self.fields.as_slice()
    }

    /// Adds the declared fields of a payload to a JSON object.
    ///
    /// # Errors
    ///
    /// A payload that ends inside a field is reported with the offset.
    pub fn render_json(&self, payload: &[u8], out: &mut Vec<(&'static str, PayloadJson)>) -> (r:
        Result<(), DecodeError>)
        ensures
            payload_decode::json_view(final(out)@) == payload_decode::json_view(old(out)@)
                + payload_decode::json_entries(
                payload_decode::declared(
                    self@.fields,
                    payload_decode::walk(payload@, 0).fields,
                ),
            ),
            payload_decode::walk_result(payload_decode::walk(payload@, 0).fault, r),
    {
        render_json_default(payload, self.fields.as_slice(), out)
    }

    /// Adds the declared fields of a payload to an OTLP body.
    ///
    /// # Errors
    ///
    /// A payload that ends inside a field is reported with the offset.
    pub fn decode_to_otlp_kv(&self, payload: &[u8], out: &mut Vec<(&'static str, OtlpValue)>) -> (r:
        Result<(), DecodeError>)
        ensures
            payload_decode::otlp_view(final(out)@) == payload_decode::otlp_view(old(out)@)
                + payload_decode::otlp_entries(
                payload_decode::declared(
                    self@.fields,
                    payload_decode::walk(payload@, 0).fields,
                ),
            ),
            payload_decode::walk_result(payload_decode::walk(payload@, 0).fault, r),
    {
        decode_to_otlp_kv_default(payload, self.fields.as_slice(), out)
    }

    /// Adds one data point for each measured field of a payload.
    ///
    /// # Errors
    ///
    /// A payload that ends inside a field is reported with the offset.
    pub fn project_metrics(&self, payload: &[u8], out: &mut Vec<MetricPoint>) -> (r: Result<
        (),
        DecodeError,
    >)
        ensures
            payload_decode::metric_view(final(out)@) == payload_decode::metric_view(old(out)@)
                + payload_decode::metric_points(
                payload_decode::declared(
                    self@.fields,
                    payload_decode::walk(payload@, 0).fields,
                ),
            ),
            payload_decode::walk_result(payload_decode::walk(payload@, 0).fault, r),
    {
        project_metrics_default(payload, self.fields.as_slice(), out)
    }

    /// Gives the columns of `out` one row.
    ///
    /// # Errors
    ///
    /// A payload that ends inside a field is reported with the offset.
    pub fn decode_to_arrow_struct(
        &self,
        payload: &[u8],
        out: &mut Vec<(&'static str, ArrowCell)>,
    ) -> (r: Result<(), DecodeError>)
        ensures
            ({
                let l = payload_decode::declared(
                    self@.fields,
                    payload_decode::walk(payload@, 0).fields,
                );
                let row = if payload_decode::walk(payload@, 0).fault is None {
                    payload_decode::cells(l) + payload_decode::unset_cells(self@.fields, l)
                } else {
                    payload_decode::cells(l)
                };
                payload_decode::cell_view(final(out)@) == payload_decode::cell_view(old(out)@) + row
            }),
            payload_decode::walk_result(payload_decode::walk(payload@, 0).fault, r),
    {
        decode_to_arrow_struct_default(payload, self.fields.as_slice(), out)
    }

    /// Redacts the classified fields of a payload.
    ///
    /// # Errors
    ///
    /// A payload that ends inside a field is refused under the name of that
    /// field.
    pub fn scrub_for_log<'a>(&self, payload: &'a [u8], scratch: &'a mut BytesMut) -> (r: Result<
        &'a [u8],
        ScrubError,
    >)
        ensures
            match scrubber::refusal(self@.fields, payload@) {
                None => r matches Ok(out) && out@ == scrubber::scrub(self@.fields, payload@),
                Some(why) => r matches Err(ScrubError::ReencodeFailed(name)) && name@ == why,
            },
    {
        scrub_payload(payload, self.fields.as_slice(), scratch)
    }
}

/// A payload could not be decoded.
#[derive(Debug)]
pub enum DecodeError {
    /// The payload ends inside a field; the offset is where that was noticed.
    Truncated(usize),
    /// A wire tag that a strict schema does not know.
    UnknownTag(u32),
    /// The schema's own rules are broken.
    Invariant(&'static str),
}

/// A payload could not be scrubbed.
#[derive(Debug)]
pub enum ScrubError {
    /// The payload could not be written out again; names the field that failed.
    ReencodeFailed(&'static str),
}

} // verus!
