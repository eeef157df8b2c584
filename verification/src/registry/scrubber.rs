//! Redaction of classified fields in a payload.
//!
//! A classified string or bytes field is replaced by a marker that names the
//! field, so that typed decoders still find a string there. A classified
//! number is left out. Fields that the schema does not declare pass through.

use bytes::BytesMut;
use vstd::prelude::*;
use vstd::utf8::*;

use super::erased::ScrubError;
use crate::envelope::projection::{self, find_field};
use crate::envelope::FieldMeta;
use crate::types::Classification;
use crate::wire::codec::{
    self, buffer_slice, decode_tag, decode_value, encode_delimited, encode_raw_varint,
    encode_string, encode_tag, put_slice, FieldValue, WireFault, WireField, WireKind, WireValue,
    MAX_FIELD_NUMBER,
};

verus! {

/// What stands in for the content of a classified string.
pub open spec fn marker(name: Seq<char>) -> Seq<char> {
    "<redacted-"@ + name + ">"@
}

/// The step of reading that goes wrong in a fault.
pub open spec fn fault_step(fault: WireFault) -> Seq<char> {
    match fault {
        WireFault::Tag => "tag"@,
        WireFault::Varint => "varint"@,
        WireFault::Fixed64 => "fixed64"@,
        WireFault::Fixed32 => "fixed32"@,
        WireFault::Length => "ld_len"@,
        WireFault::Payload { .. } => "ld_payload"@,
        WireFault::Group => "group_unsupported"@,
    }
}

/// The number of the field in which reading a payload goes wrong, where its
/// tag still reads.
pub open spec fn fault_number(s: Seq<u8>) -> Option<u32>
    decreases s.len(),
{
    if s.len() == 0 {
        None
    } else {
        match codec::tag_at(s) {
            None => None,
            Some((number, kind, body)) => match codec::value_at(body, kind) {
                Err(_) => Some(number),
                Ok((_, rest)) => if rest.len() < s.len() {
                    fault_number(rest)
                } else {
                    None
                },
            },
        }
    }
}

/// What a fault is reported under: the name of the field that ends too soon.
/// Where the table does not declare the field, where its tag does not read,
/// and for a group, it is the step that went wrong.
pub open spec fn fault_name(fields: Seq<FieldMeta>, number: Option<u32>, fault: WireFault) -> Seq<
    char,
> {
    match (fault, number) {
        (WireFault::Group, _) => fault_step(fault),
        (_, Some(n)) => match projection::field_of(fields, n) {
            Some(meta) => meta.name@,
            None => fault_step(fault),
        },
        _ => fault_step(fault),
    }
}

/// The name that scrubbing a payload fails under, if it fails.
pub open spec fn refusal(fields: Seq<FieldMeta>, s: Seq<u8>) -> Option<Seq<char>> {
    match codec::parse(s).fault {
        Some(fault) => Some(fault_name(fields, fault_number(s), fault)),
        None => None,
    }
}

/// Whether the table classifies the field with this number.
pub open spec fn is_classified(fields: Seq<FieldMeta>, number: u32) -> bool {
    match projection::field_of(fields, number) {
        Some(meta) => meta.classification.redacted(),
        None => false,
    }
}

/// What is left of one field.
pub open spec fn scrubbed_field(fields: Seq<FieldMeta>, field: WireField) -> Seq<WireField> {
    if !is_classified(fields, field.number) {
        seq![field]
    } else {
        match field.value {
            WireValue::Bytes(_) => seq![
                WireField {
                    number: field.number,
                    value: WireValue::Bytes(
                        encode_utf8(marker(projection::field_of(fields, field.number)->Some_0.name@)),
                    ),
                },
            ],
            _ => Seq::empty(),
        }
    }
}

/// What is left of a run of fields.
pub open spec fn scrubbed_fields(fields: Seq<FieldMeta>, l: Seq<WireField>) -> Seq<WireField>
    decreases l.len(),
{
    if l.len() == 0 {
        Seq::empty()
    } else {
        scrubbed_field(fields, l[0]) + scrubbed_fields(fields, l.skip(1))
    }
}

/// The scrubbed form of a payload: its fields, each scrubbed, written out again.
pub open spec fn scrub(fields: Seq<FieldMeta>, s: Seq<u8>) -> Seq<u8> {
    codec::fields_bytes(scrubbed_fields(fields, codec::parse(s).fields))
}

fn step_text(fault: WireFault) -> (r: &'static str)
    ensures
        r@ == fault_step(fault),
{
    match fault {
        WireFault::Tag => "tag",
        WireFault::Varint => "varint",
        WireFault::Fixed64 => "fixed64",
        WireFault::Fixed32 => "fixed32",
        WireFault::Length => "ld_len",
        WireFault::Payload { .. } => "ld_payload",
        WireFault::Group => "group_unsupported",
    }
}

fn fault_text(fields: &[FieldMeta], number: u32, fault: WireFault) -> (r: &'static str)
    ensures
        r@ == fault_name(fields@, Some(number), fault),
{
    match fault {
        WireFault::Group => step_text(fault),
        _ => match find_field(fields, number) {
            Some(meta) => meta.name,
            None => step_text(fault),
        },
    }
}

/// Writes what is left of one field.
fn scrub_field(fields: &[FieldMeta], number: u32, value: FieldValue<'_>, scratch: &mut BytesMut)
    requires
        1 <= number <= MAX_FIELD_NUMBER,
    ensures
        codec::buffer_bytes(*final(scratch)) == codec::buffer_bytes(*old(scratch)) + codec::fields_bytes(
            scrubbed_field(fields@, WireField { number, value: value@ }),
        ),
{
    let meta = find_field(fields, number);
    let ghost field = WireField { number, value: value@ };
    proof {
        codec::lemma_fields_bytes_one(field);
    }
    if let Some(meta) = meta {
        if meta.classification.is_redacted() {
            if let FieldValue::Bytes(_) = value {
                let mut text = String::new();
                text.append("<redacted-");
                text.append(meta.name);
                text.append(">");
                encode_tag(number, WireKind::LengthDelimited, scratch);
                encode_string(text.as_str(), scratch);
                proof {
                    assert(text@ =~= marker(meta.name@));
                    let w = WireField { number, value: WireValue::Bytes(encode_utf8(text@)) };
                    codec::lemma_fields_bytes_one(w);
                }
            }
            return;
        }
    }
    match value {
        FieldValue::Varint(v) => {
            encode_tag(number, WireKind::Varint, scratch);
            encode_raw_varint(v, scratch);
        },
        FieldValue::Fixed64(bytes) => {
            encode_tag(number, WireKind::Fixed64, scratch);
            put_slice(scratch, bytes);
        },
        FieldValue::Fixed32(bytes) => {
            encode_tag(number, WireKind::Fixed32, scratch);
            put_slice(scratch, bytes);
        },
        FieldValue::Bytes(bytes) => {
            encode_tag(number, WireKind::LengthDelimited, scratch);
            encode_delimited(bytes, scratch);
        },
    }
}

/// Redacts the classified fields of `payload` into `scratch`, which is
/// emptied first, and hands back what was written.
///
/// # Errors
///
/// A payload that ends inside a field is refused under the name of that
/// field. One that holds a group, and one whose fault lies in a tag or in a
/// field that is not declared, is refused under the step that went wrong.
pub fn scrub_payload<'a>(
    payload: &'a [u8],
    fields: &[FieldMeta],
    scratch: &'a mut BytesMut,
) -> (r: Result<&'a [u8], ScrubError>)
    ensures
        codec::buffer_bytes(*final(scratch)) == scrub(fields@, payload@),
        match (refusal(fields@, payload@), r) {
            (None, Ok(out)) => out@ == scrub(fields@, payload@),
            (Some(why), Err(ScrubError::ReencodeFailed(name))) => name@ == why,
            _ => false,
        },
{
    scratch.clear();
    let mut cursor = payload;
    while cursor.len() > 0
        invariant
            codec::buffer_bytes(*scratch) + scrub(fields@, cursor@) =~= scrub(fields@, payload@),
            codec::parse(cursor@).fault == codec::parse(payload@).fault,
            fault_number(cursor@) == fault_number(payload@),
        decreases cursor@.len(),
    {
        proof {
            codec::lemma_tag_at_bounds(cursor@);
        }
        match decode_tag(cursor) {
            None => return Err(ScrubError::ReencodeFailed(step_text(WireFault::Tag))),
            Some((number, kind, body)) => {
                proof {
                    codec::lemma_value_at_bounds(body@, kind);
                }
                match decode_value(body, kind) {
                    Err(fault) => {
                        return Err(ScrubError::ReencodeFailed(fault_text(fields, number, fault)));
                    },
                    Ok((value, rest)) => {
                        proof {
                            lemma_scrub_step(
                                fields@,
                                WireField { number, value: value@ },
                                codec::parse(rest@).fields,
                            );
                        }
                        scrub_field(fields, number, value, scratch);
                        cursor = rest;
                    },
                }
            },
        }
    }
    Ok(buffer_slice(scratch))
}

proof fn lemma_scrub_step(fields: Seq<FieldMeta>, field: WireField, tail: Seq<WireField>)
    ensures
        scrubbed_fields(fields, seq![field] + tail) == scrubbed_field(fields, field)
            + scrubbed_fields(fields, tail),
        codec::fields_bytes(scrubbed_fields(fields, seq![field] + tail)) == codec::fields_bytes(
            scrubbed_field(fields, field),
        ) + codec::fields_bytes(scrubbed_fields(fields, tail)),
{
    assert((seq![field] + tail).skip(1) =~= tail);
    codec::lemma_fields_bytes_add(
        scrubbed_field(fields, field),
        scrubbed_fields(fields, tail),
    );
}

/// Whether every name of the table gives a marker that a length can count.
pub open spec fn names_fit(fields: Seq<FieldMeta>) -> bool {
    forall|i: int|
        0 <= i < fields.len() ==> encode_utf8(marker((#[trigger] fields[i]).name@)).len()
            <= u64::MAX
}

/// Whether a field carries nothing that the table classifies: it is not
/// classified itself, or holds its own marker.
pub open spec fn carries_nothing(fields: Seq<FieldMeta>, field: WireField) -> bool {
    is_classified(fields, field.number) ==> field.value == WireValue::Bytes(
        encode_utf8(marker(projection::field_of(fields, field.number)->Some_0.name@)),
    )
}

proof fn lemma_scrubbed_fields(fields: Seq<FieldMeta>, l: Seq<WireField>)
    ensures
        forall|i: int|
            0 <= i < scrubbed_fields(fields, l).len() ==> carries_nothing(
                fields,
                #[trigger] scrubbed_fields(fields, l)[i],
            ),
        names_fit(fields) && (forall|i: int|
            0 <= i < l.len() ==> (#[trigger] l[i]).well_formed()) ==> forall|i: int|
            0 <= i < scrubbed_fields(fields, l).len() ==> (
            #[trigger] scrubbed_fields(fields, l)[i]).well_formed(),
        scrubbed_fields(fields, scrubbed_fields(fields, l)) == scrubbed_fields(fields, l),
    decreases l.len(),
{
    if l.len() > 0 {
        let tail = l.skip(1);
        let head = scrubbed_field(fields, l[0]);
        let done = scrubbed_fields(fields, tail);
        projection::lemma_field_index(fields, l[0].number);
        lemma_scrubbed_fields(fields, tail);
        assert(forall|i: int| 0 <= i < tail.len() ==> tail[i] == l[i + 1]);
        if head.len() == 0 {
            assert(head + done =~= done);
        } else {
            assert(head.len() == 1);
            assert(head =~= seq![head[0]]);
            assert(scrubbed_field(fields, head[0]) =~= head);
            lemma_scrub_step(fields, head[0], done);
        }
    }
}

/// A scrubbed payload reads as fields of which none carries anything that the
/// table classifies.
pub proof fn law_nothing_classified_survives(fields: Seq<FieldMeta>, payload: Seq<u8>)
    requires
        payload.len() <= u64::MAX,
        names_fit(fields),
    ensures
        codec::parse(scrub(fields, payload)).fault is None,
        forall|i: int|
            0 <= i < codec::parse(scrub(fields, payload)).fields.len() ==> carries_nothing(
                fields,
                #[trigger] codec::parse(scrub(fields, payload)).fields[i],
            ),
{
    let l = codec::parse(payload).fields;
    codec::lemma_parse_well_formed(payload);
    lemma_scrubbed_fields(fields, l);
    codec::law_fields_read_back(scrubbed_fields(fields, l));
}

/// Scrubbing a scrubbed payload changes nothing.
pub proof fn law_scrub_idempotent(fields: Seq<FieldMeta>, payload: Seq<u8>)
    requires
        payload.len() <= u64::MAX,
        names_fit(fields),
    ensures
        scrub(fields, scrub(fields, payload)) == scrub(fields, payload),
{
    let l = codec::parse(payload).fields;
    codec::lemma_parse_well_formed(payload);
    lemma_scrubbed_fields(fields, l);
    codec::law_fields_read_back(scrubbed_fields(fields, l));
}

/// A payload that was written from unclassified fields, declared or unknown,
/// comes back as it was.
pub proof fn law_unclassified_passes_through(fields: Seq<FieldMeta>, l: Seq<WireField>)
    requires
        forall|i: int|
            0 <= i < l.len() ==> (#[trigger] l[i]).well_formed() && !is_classified(
                fields,
                l[i].number,
            ),
    ensures
        scrub(fields, codec::fields_bytes(l)) == codec::fields_bytes(l),
        codec::parse(codec::fields_bytes(l)).fault is None,
{
    codec::law_fields_read_back(l);
    lemma_unclassified(fields, l);
}

proof fn lemma_unclassified(fields: Seq<FieldMeta>, l: Seq<WireField>)
    requires
        forall|i: int| 0 <= i < l.len() ==> !is_classified(fields, (#[trigger] l[i]).number),
    ensures
        scrubbed_fields(fields, l) == l,
    decreases l.len(),
{
    if l.len() > 0 {
        let tail = l.skip(1);
        assert(forall|i: int| 0 <= i < tail.len() ==> tail[i] == l[i + 1]);
        lemma_unclassified(fields, tail);
        assert(seq![l[0]] + tail =~= l);
    }
}

/// Whether two fields differ at most in what a classified field holds.
pub open spec fn alike(fields: Seq<FieldMeta>, a: WireField, b: WireField) -> bool {
    a == b || (a.number == b.number && is_classified(fields, a.number) && (a.value is Bytes
        <==> b.value is Bytes))
}

/// Whether two runs of fields differ at most in what classified fields hold.
pub open spec fn all_alike(fields: Seq<FieldMeta>, a: Seq<WireField>, b: Seq<WireField>) -> bool {
    a.len() == b.len() && forall|i: int|
        0 <= i < a.len() ==> alike(fields, #[trigger] a[i], b[i])
}

/// What a classified field holds does not show: two payloads that can be read
/// and whose fields differ in nothing else are scrubbed to the same bytes,
/// however their numbers are spelled. Neither is refused.
pub proof fn law_classified_content_is_hidden(fields: Seq<FieldMeta>, p: Seq<u8>, q: Seq<u8>)
    requires
        codec::parse(p).fault is None,
        codec::parse(q).fault is None,
        all_alike(fields, codec::parse(p).fields, codec::parse(q).fields),
    ensures
        scrub(fields, p) == scrub(fields, q),
        refusal(fields, p) is None,
        refusal(fields, q) is None,
{
    lemma_alike(fields, codec::parse(p).fields, codec::parse(q).fields);
}

proof fn lemma_alike(fields: Seq<FieldMeta>, a: Seq<WireField>, b: Seq<WireField>)
    requires
        all_alike(fields, a, b),
    ensures
        scrubbed_fields(fields, a) == scrubbed_fields(fields, b),
    decreases a.len(),
{
    if a.len() > 0 {
        assert(forall|i: int| 0 <= i < a.skip(1).len() ==> a.skip(1)[i] == a[i + 1]);
        assert(forall|i: int| 0 <= i < b.skip(1).len() ==> b.skip(1)[i] == b[i + 1]);
        assert(alike(fields, a[0], b[0]));
        lemma_alike(fields, a.skip(1), b.skip(1));
    }
}

/// A field that the table declares as personal or secret is scrubbed: of a text
/// a marker with the name of the field is left, and of a number nothing. A field
/// of any other class passes, and so does one that the table does not declare.
pub proof fn law_a_field_is_scrubbed_by_its_class(
    fields: Seq<FieldMeta>,
    i: int,
    field: WireField,
)
    requires
        field.well_formed(),
        0 <= i <= fields.len(),
        forall|j: int| 0 <= j < i ==> (#[trigger] fields[j]).number != field.number,
        i < fields.len() ==> fields[i].number == field.number,
    ensures
        i == fields.len() ==> scrub(fields, field.bytes()) == field.bytes(),
        i < fields.len() && (fields[i].classification == Classification::Unspecified
            || fields[i].classification == Classification::Internal) ==> scrub(
            fields,
            field.bytes(),
        ) == field.bytes(),
        i < fields.len() && (fields[i].classification == Classification::Pii
            || fields[i].classification == Classification::Secret) ==> scrub(fields, field.bytes())
            == (if field.value is Bytes {
            codec::tag_bytes(field.number, WireKind::LengthDelimited) + codec::delimited(
                encode_utf8("<redacted-"@ + fields[i].name@ + ">"@),
            )
        } else {
            Seq::empty()
        }),
{
    codec::lemma_fields_bytes_one(field);
    codec::law_fields_read_back(seq![field]);
    projection::law_first_entry_counts(fields, i, field.number);
    let none = Seq::<WireField>::empty();
    assert(seq![field] + none =~= seq![field]);
    lemma_scrub_step(fields, field, none);
    let left = scrubbed_field(fields, field);
    assert(left + none =~= left);
    if left.len() == 1 {
        assert(left =~= seq![left[0]]);
        codec::lemma_fields_bytes_one(left[0]);
    } else {
        assert(left =~= none);
    }
}

proof fn lemma_scrubbed_add(fields: Seq<FieldMeta>, a: Seq<WireField>, b: Seq<WireField>)
    ensures
        scrubbed_fields(fields, a + b) == scrubbed_fields(fields, a) + scrubbed_fields(fields, b),
    decreases a.len(),
{
    if a.len() == 0 {
        assert(a + b =~= b);
        assert(scrubbed_fields(fields, a) + scrubbed_fields(fields, b) =~= scrubbed_fields(
            fields,
            b,
        ));
    } else {
        assert((a + b).skip(1) =~= a.skip(1) + b);
        assert((a + b)[0] == a[0]);
        lemma_scrubbed_add(fields, a.skip(1), b);
        assert(scrubbed_fields(fields, a + b) =~= scrubbed_fields(fields, a) + scrubbed_fields(
            fields,
            b,
        ));
    }
}

/// Fields are scrubbed each by itself and keep their order, whatever follows
/// them.
pub proof fn law_fields_are_scrubbed_one_by_one(
    fields: Seq<FieldMeta>,
    l: Seq<WireField>,
    rest: Seq<u8>,
)
    requires
        forall|i: int| 0 <= i < l.len() ==> (#[trigger] l[i]).well_formed(),
    ensures
        scrub(fields, codec::fields_bytes(l) + rest) == scrub(fields, codec::fields_bytes(l))
            + scrub(fields, rest),
        scrub(fields, Seq::empty()).len() == 0,
{
    codec::law_written_fields_come_first(l, rest);
    codec::law_fields_read_back(l);
    let more = codec::parse(rest).fields;
    lemma_scrubbed_add(fields, l, more);
    codec::lemma_fields_bytes_add(scrubbed_fields(fields, l), scrubbed_fields(fields, more));
}

proof fn lemma_fault_number(l: Seq<WireField>, rest: Seq<u8>)
    requires
        forall|i: int| 0 <= i < l.len() ==> (#[trigger] l[i]).well_formed(),
    ensures
        fault_number(codec::fields_bytes(l) + rest) == fault_number(rest),
    decreases l.len(),
{
    if l.len() > 0 {
        let tail = l.skip(1);
        assert forall|i: int| 0 <= i < tail.len() implies (#[trigger] tail[i]).well_formed() by {
            assert(tail[i] == l[i + 1]);
        }
        lemma_fault_number(tail, rest);
        let left = codec::fields_bytes(tail) + rest;
        codec::lemma_field_at(l[0], left);
        assert(codec::fields_bytes(l) + rest =~= l[0].bytes() + left);
    } else {
        assert(codec::fields_bytes(l) + rest =~= rest);
    }
}

/// A payload in which a value cannot be read is refused under the name of its
/// field. Where the table does not declare the field, and for a group, it is
/// refused under the step that went wrong, and so it is where the tag itself
/// cannot be read. Fields before it do not matter.
pub proof fn law_what_cannot_be_read_is_refused(
    fields: Seq<FieldMeta>,
    l: Seq<WireField>,
    number: u32,
    kind: WireKind,
    body: Seq<u8>,
    i: int,
)
    requires
        forall|j: int| 0 <= j < l.len() ==> (#[trigger] l[j]).well_formed(),
        1 <= number <= MAX_FIELD_NUMBER,
        codec::value_at(body, kind) is Err,
        0 <= i <= fields.len(),
        forall|j: int| 0 <= j < i ==> (#[trigger] fields[j]).number != number,
        i < fields.len() ==> fields[i].number == number,
    ensures
        ({
            let told = refusal(
                fields,
                codec::fields_bytes(l) + (codec::tag_bytes(number, kind) + body),
            );
            let declared = i < fields.len();
            &&& kind == WireKind::StartGroup || kind == WireKind::EndGroup ==> told == Some(
                "group_unsupported"@,
            )
            &&& declared && kind != WireKind::StartGroup && kind != WireKind::EndGroup ==> told
                == Some(fields[i].name@)
            &&& !declared && kind == WireKind::Varint ==> told == Some("varint"@)
            &&& !declared && kind == WireKind::Fixed64 ==> told == Some("fixed64"@)
            &&& !declared && kind == WireKind::Fixed32 ==> told == Some("fixed32"@)
            &&& !declared && kind == WireKind::LengthDelimited ==> told == Some("ld_len"@) || told
                == Some("ld_payload"@)
            &&& !declared && kind == WireKind::LengthDelimited && codec::varint_at(body) is None
                ==> told == Some("ld_len"@)
            &&& !declared && kind == WireKind::LengthDelimited && codec::varint_at(body) is Some
                ==> told == Some("ld_payload"@)
        }),
        codec::tag_at(body) is None && body.len() > 0 ==> refusal(
            fields,
            codec::fields_bytes(l) + body,
        ) == Some("tag"@),
{
    let end = codec::tag_bytes(number, kind) + body;
    codec::law_written_fields_come_first(l, end);
    codec::law_written_fields_come_first(l, body);
    lemma_fault_number(l, end);
    lemma_fault_number(l, body);
    codec::lemma_tag_at(number, kind, body);
    codec::lemma_tag_at_bounds(end);
    projection::law_first_entry_counts(fields, i, number);
}

} // verus!
