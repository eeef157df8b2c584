//! Envelopes as JSON, one object on a line.

use serde_json::{Map as JsonMap, Value};
use vstd::prelude::*;

use super::stdout::{self, labels_object};
use crate::envelope::{EnvelopeView, ObsEnvelope};
use crate::json::{
    self, is_empty_object, new_object, put, put_number, put_text, write_object, Json, JsonView,
};
use crate::registry::erased::EventSchemaErased;
use crate::registry::payload_decode::{self, PayloadJson};

verus! {

/// The envelope as a JSON object, without its payload. What is empty or zero
/// is left out.
pub open spec fn envelope_object(env: EnvelopeView) -> Map<Seq<char>, JsonView> {
    let m = json::no_entries().insert("ts_ns"@, JsonView::Number(env.ts_ns)).insert(
        "full_name"@,
        JsonView::Text(env.full_name),
    );
    let m = json::with_number(m, "schema_hash"@, env.schema_hash);
    let m = json::with_number(m, "callsite_id"@, env.callsite_id);
    let m = json::with_text(m, "service"@, env.service);
    let m = json::with_text(m, "instance"@, env.instance);
    let m = json::with_text(m, "version"@, env.version);
    let m = json::with_text(m, "trace_id"@, env.trace_id);
    let m = json::with_text(m, "span_id"@, env.span_id);
    let m = json::with_text(m, "parent_span_id"@, env.parent_span_id);
    stdout::with_labels(m, env.labels)
}

/// The object with the fields of the payload, where there are any.
pub open spec fn with_payload(
    m: Map<Seq<char>, JsonView>,
    payload: Map<Seq<char>, JsonView>,
) -> Map<Seq<char>, JsonView> {
    if payload == json::no_entries() {
        m
    } else {
        m.insert("payload"@, JsonView::Object(payload))
    }
}

/// The fields of a payload, where it can be read: it is not empty, its schema
/// is known, and there is no fault in it.
pub fn payload_fields(payload: &[u8], schema: Option<&EventSchemaErased>) -> (r: Vec<
    (&'static str, PayloadJson),
>)
    ensures
        payload_decode::json_view(r@) == (match schema {
            Some(s) => {
                let walked = payload_decode::walk(payload@, 0);
                if payload@.len() > 0 && walked.fault is None {
                    payload_decode::json_entries(
                        payload_decode::declared(s@.fields, walked.fields),
                    )
                } else {
                    Seq::empty()
                }
            },
            None => Seq::empty(),
        }),
{
    let mut out: Vec<(&'static str, PayloadJson)> = Vec::new();
    if payload.len() > 0 {
        if let Some(s) = schema {
            if s.render_json(payload, &mut out).is_ok() {
                return out;
            }
        }
    }
    let nothing: Vec<(&'static str, PayloadJson)> = Vec::new();
    assert(payload_decode::json_view(nothing@) =~= Seq::empty());
    nothing
}

/// An envelope and the fields of its payload as one line of JSON, without the
/// end of the line.
pub fn render_json_value(env: &ObsEnvelope, payload: JsonMap<String, Value>) -> (r: String)
    ensures
        r@ == json::object_text(
            with_payload(envelope_object(env@), json::object_entries(payload)),
        ),
{
    let mut root = new_object();
    put(&mut root, "ts_ns", Json::Number(env.ts_ns));
    put(&mut root, "full_name", Json::Text(env.full_name.clone()));
    put_number(&mut root, "schema_hash", env.schema_hash);
    put_number(&mut root, "callsite_id", env.callsite_id);
    put_text(&mut root, "service", env.service.as_str());
    put_text(&mut root, "instance", env.instance.as_str());
    put_text(&mut root, "version", env.version.as_str());
    put_text(&mut root, "trace_id", env.trace_id.as_str());
    put_text(&mut root, "span_id", env.span_id.as_str());
    put_text(&mut root, "parent_span_id", env.parent_span_id.as_str());
    proof {
        stdout::lemma_no_labels(env.labels@);
    }
    if !env.labels.is_empty() {
        put(&mut root, "labels", Json::Object(labels_object(env)));
    }
    if !is_empty_object(&payload) {
        put(&mut root, "payload", Json::Object(payload));
    }
    write_object(root)
}

/// Each field of an envelope is found under its name, and left out where it says
/// nothing; its severity and tier are not told.
pub proof fn law_fields_are_found_under_their_names(env: EnvelopeView)
    ensures
        ({
            let m = envelope_object(env);
            &&& m.contains_pair("ts_ns"@, JsonView::Number(env.ts_ns))
            &&& m.contains_pair("full_name"@, JsonView::Text(env.full_name))
            &&& env.schema_hash > 0 ==> m.contains_pair(
                "schema_hash"@,
                JsonView::Number(env.schema_hash),
            )
            &&& env.callsite_id > 0 ==> m.contains_pair(
                "callsite_id"@,
                JsonView::Number(env.callsite_id),
            )
            &&& env.service.len() > 0 ==> m.contains_pair("service"@, JsonView::Text(env.service))
            &&& env.instance.len() > 0 ==> m.contains_pair(
                "instance"@,
                JsonView::Text(env.instance),
            )
            &&& env.version.len() > 0 ==> m.contains_pair("version"@, JsonView::Text(env.version))
            &&& env.trace_id.len() > 0 ==> m.contains_pair(
                "trace_id"@,
                JsonView::Text(env.trace_id),
            )
            &&& env.span_id.len() > 0 ==> m.contains_pair("span_id"@, JsonView::Text(env.span_id))
            &&& env.parent_span_id.len() > 0 ==> m.contains_pair(
                "parent_span_id"@,
                JsonView::Text(env.parent_span_id),
            )
            &&& env.schema_hash == 0 ==> !m.contains_key("schema_hash"@)
            &&& env.callsite_id == 0 ==> !m.contains_key("callsite_id"@)
            &&& env.service.len() == 0 ==> !m.contains_key("service"@)
            &&& env.trace_id.len() == 0 ==> !m.contains_key("trace_id"@)
            &&& !m.contains_key("sev"@)
            &&& !m.contains_key("tier"@)
            &&& env.labels == Map::<Seq<char>, Seq<char>>::empty() ==> !m.contains_key("labels"@)
            &&& env.labels != Map::<Seq<char>, Seq<char>>::empty() ==> m.contains_pair(
                "labels"@,
                JsonView::Object(json::texts_object(env.labels)),
            )
        }),
{
    stdout::lemma_keys_differ();
}

/// The fields of the payload are found under one name, where there are any.
pub proof fn law_the_payload_is_found(
    m: Map<Seq<char>, JsonView>,
    payload: Map<Seq<char>, JsonView>,
    other: Seq<char>,
)
    ensures
        payload == json::no_entries() ==> with_payload(m, payload) == m,
        payload != json::no_entries() ==> with_payload(m, payload).contains_pair(
            "payload"@,
            JsonView::Object(payload),
        ),
        other != "payload"@ ==> with_payload(m, payload).contains_key(other) == m.contains_key(
            other,
        ) && with_payload(m, payload)[other] == m[other],
{
}

} // verus!
