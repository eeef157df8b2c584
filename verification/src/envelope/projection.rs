//! The field table of an event schema.

use vstd::prelude::*;

use crate::types::{Cardinality, Classification, FieldKind};

verus! {

/// What one declared field is called and how it is treated.
#[derive(Debug, Clone, Copy)]
pub struct FieldMeta {
    /// The field's name.
    pub name: &'static str,
    /// The field's number on the wire.
    pub number: u32,
    /// What the field is for.
    pub role: FieldRole,
    /// The cap on a label's values; `Unspecified` for other fields.
    pub cardinality: Cardinality,
    /// How sensitive the field is.
    pub classification: Classification,
}

impl FieldMeta {
    /// Describes a field.
    #[must_use]
    pub fn new(
        name: &'static str,
        number: u32,
        role: FieldRole,
        cardinality: Cardinality,
        classification: Classification,
    ) -> (r: Self)
        ensures
            r.name == name,
            r.number == number,
            r.role == role,
            r.cardinality == cardinality,
            r.classification == classification,
    {
        FieldMeta { name, number, role, cardinality, classification }
    }
}

/// What a field is for.
#[derive(Debug, Clone, Copy, PartialEq, Eq, Structural)]
pub enum FieldRole {
    /// A label.
    Label,
    /// A plain attribute.
    Attribute,
    /// A measured value.
    Measurement,
    /// The trace that the event belongs to.
    TraceId,
    /// The span that the event belongs to.
    SpanId,
    /// The parent of that span.
    ParentSpanId,
    /// A point in time, in nanoseconds.
    TimestampNs,
    /// A duration, in nanoseconds.
    DurationNs,
    /// Evidence kept for forensics.
    Forensic,
}

/// The role that a declared kind stands for; what has none of its own is an
/// attribute.
pub open spec fn role_of_kind(k: FieldKind) -> FieldRole {
    match k {
        FieldKind::Label => FieldRole::Label,
        FieldKind::Measurement => FieldRole::Measurement,
        FieldKind::TraceId => FieldRole::TraceId,
        FieldKind::SpanId => FieldRole::SpanId,
        FieldKind::ParentSpanId => FieldRole::ParentSpanId,
        FieldKind::TimestampNs => FieldRole::TimestampNs,
        FieldKind::DurationNs => FieldRole::DurationNs,
        FieldKind::Forensic => FieldRole::Forensic,
        FieldKind::Attribute => FieldRole::Attribute,
        FieldKind::Unspecified => FieldRole::Attribute,
    }
}

impl From<FieldKind> for FieldRole {
    fn from(k: FieldKind) -> (r: Self) {
        match k {
            FieldKind::Label => FieldRole::Label,
            FieldKind::Attribute => FieldRole::Attribute,
            FieldKind::Measurement => FieldRole::Measurement,
            FieldKind::TraceId => FieldRole::TraceId,
            FieldKind::SpanId => FieldRole::SpanId,
            FieldKind::ParentSpanId => FieldRole::ParentSpanId,
            FieldKind::TimestampNs => FieldRole::TimestampNs,
            FieldKind::DurationNs => FieldRole::DurationNs,
            FieldKind::Forensic => FieldRole::Forensic,
            _ => FieldRole::Attribute,
        }
    }
}

impl vstd::std_specs::convert::FromSpecImpl<FieldKind> for FieldRole {
    open spec fn obeys_from_spec() -> bool {
        true
    }

    open spec fn from_spec(k: FieldKind) -> FieldRole {
        role_of_kind(k)
    }
}

/// Where the first field with this number stands in the table.
pub open spec fn field_index(fields: Seq<FieldMeta>, number: u32) -> Option<int>
    decreases fields.len(),
{
    if fields.len() == 0 {
        None
    } else if fields[0].number == number {
        Some(0)
    } else {
        match field_index(fields.skip(1), number) {
            Some(i) => Some(i + 1),
            None => None,
        }
    }
}

/// The first field of the table with this number.
pub open spec fn field_of(fields: Seq<FieldMeta>, number: u32) -> Option<FieldMeta> {
    match field_index(fields, number) {
        Some(i) => Some(fields[i]),
        None => None,
    }
}

/// Looks a field up by its number; the first of several wins.
pub fn find_field(fields: &[FieldMeta], number: u32) -> (r: Option<FieldMeta>)
    ensures
        r == field_of(fields@, number),
{
    let mut i: usize = 0;
    proof {
        assert(fields@.skip(0) =~= fields@);
    }
    while i < fields.len()
        invariant
            i <= fields@.len(),
            field_index(fields@, number) == match field_index(fields@.skip(i as int), number) {
                Some(k) => Some(k + i as int),
                None => None::<int>,
            },
        decreases fields@.len() - i,
    {
        let meta = fields[i];
        proof {
            assert(fields@.skip(i as int).skip(1) =~= fields@.skip(i + 1));
        }
        if meta.number == number {
            return Some(meta);
        }
        i = i + 1;
    }
    None
}

/// A field that is found has the number that was asked for.
pub proof fn lemma_field_index(fields: Seq<FieldMeta>, number: u32)
    ensures
        field_index(fields, number) matches Some(i) ==> 0 <= i < fields.len() && fields[i].number
            == number,
    decreases fields.len(),
{
    if fields.len() > 0 && fields[0].number != number {
        lemma_field_index(fields.skip(1), number);
    }
}

/// The entry of a number is the first one of the table that has it; a number
/// that no entry has is not declared.
pub proof fn law_first_entry_counts(fields: Seq<FieldMeta>, i: int, number: u32)
    requires
        0 <= i <= fields.len(),
        forall|j: int| 0 <= j < i ==> (#[trigger] fields[j]).number != number,
        i < fields.len() ==> fields[i].number == number,
    ensures
        field_of(fields, number) == (if i < fields.len() {
            Some(fields[i])
        } else {
            None
        }),
        field_index(fields, number) == (if i < fields.len() {
            Some(i)
        } else {
            None
        }),
    decreases fields.len(),
{
    if fields.len() > 0 && i > 0 {
        assert(fields[0].number != number);
        let tail = fields.skip(1);
        assert forall|j: int| 0 <= j < tail.len() implies #[trigger] tail[j] == fields[j + 1] by {}
        law_first_entry_counts(tail, i - 1, number);
    }
}

/// Each kind that a field can be declared as has a role of its own name; what
/// has no kind is an attribute.
pub proof fn law_roles_follow_kinds()
    ensures
        role_of_kind(FieldKind::Label) == FieldRole::Label,
        role_of_kind(FieldKind::Attribute) == FieldRole::Attribute,
        role_of_kind(FieldKind::Unspecified) == FieldRole::Attribute,
        role_of_kind(FieldKind::Measurement) == FieldRole::Measurement,
        role_of_kind(FieldKind::TraceId) == FieldRole::TraceId,
        role_of_kind(FieldKind::SpanId) == FieldRole::SpanId,
        role_of_kind(FieldKind::ParentSpanId) == FieldRole::ParentSpanId,
        role_of_kind(FieldKind::TimestampNs) == FieldRole::TimestampNs,
        role_of_kind(FieldKind::DurationNs) == FieldRole::DurationNs,
        role_of_kind(FieldKind::Forensic) == FieldRole::Forensic,
{
}

} // verus!
