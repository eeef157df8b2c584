//! The table that analytical sinks write: its columns, and those of each
//! event.

use serde_json::{Map as JsonMap, Value};
use vstd::prelude::*;
use vstd::utf8::*;

use super::erased::{EventSchemaErased, SchemaView};
use crate::envelope::{FieldMeta, FieldRole};
use crate::json::{self, new_object, put, write_pretty, Json, JsonView};
use crate::text::{self, chars_of, has_suffix, push_hex, text_eq};
use crate::text_map::{self, text_order, TextOrder};
use crate::types::{Cardinality, Classification, FieldKind};

verus! {

/// The type of a column.
#[derive(Debug, Clone, Copy, PartialEq, Eq, Structural)]
pub enum ArrowLeafType {
    /// Text.
    Utf8,
    /// Text with few values.
    DictUtf8,
    /// A signed number.
    Int64,
    /// An unsigned number.
    UInt64,
    /// A floating-point number.
    Float64,
    /// True or false.
    Bool,
    /// Bytes.
    Binary,
    /// A moment, in nanoseconds.
    TimestampNs,
}

impl ArrowLeafType {
    /// The name of the type.
    pub open spec fn name(self) -> Seq<char> {
        match self {
            ArrowLeafType::Utf8 => "utf8"@,
            ArrowLeafType::DictUtf8 => "dict_utf8"@,
            ArrowLeafType::Int64 => "int64"@,
            ArrowLeafType::UInt64 => "uint64"@,
            ArrowLeafType::Float64 => "float64"@,
            ArrowLeafType::Bool => "bool"@,
            ArrowLeafType::Binary => "binary"@,
            ArrowLeafType::TimestampNs => "timestamp_ns"@,
        }
    }

    /// The name of the type.
    #[must_use]
    pub fn as_str(&self) -> (r: &'static str)
        ensures
            r@ == self.name(),
    {
        match self {
            ArrowLeafType::Utf8 => "utf8",
            ArrowLeafType::DictUtf8 => "dict_utf8",
            ArrowLeafType::Int64 => "int64",
            ArrowLeafType::UInt64 => "uint64",
            ArrowLeafType::Float64 => "float64",
            ArrowLeafType::Bool => "bool",
            ArrowLeafType::Binary => "binary",
            ArrowLeafType::TimestampNs => "timestamp_ns",
        }
    }
}

/// The columns of every event.
pub const ENVELOPE_COLUMNS: [(&'static str, ArrowLeafType); 13] = [
    ("ts_ns", ArrowLeafType::TimestampNs),
    ("full_name", ArrowLeafType::DictUtf8),
    ("schema_hash", ArrowLeafType::UInt64),
    ("tier", ArrowLeafType::DictUtf8),
    ("sev", ArrowLeafType::DictUtf8),
    ("trace_id", ArrowLeafType::Utf8),
    ("span_id", ArrowLeafType::Utf8),
    ("parent_span_id", ArrowLeafType::Utf8),
    ("service", ArrowLeafType::DictUtf8),
    ("instance", ArrowLeafType::DictUtf8),
    ("version", ArrowLeafType::DictUtf8),
    ("sampling_reason", ArrowLeafType::DictUtf8),
    ("callsite_id", ArrowLeafType::UInt64),
];

/// A column of one event.
#[derive(Debug)]
pub struct ArrowField {
    /// The name of the field.
    pub name: String,
    /// The number of the field.
    pub tag: u32,
    /// The type of the column.
    pub ty: ArrowLeafType,
    /// What the field is declared to be.
    pub kind: FieldKind,
    /// How many values a label may take.
    pub cardinality: Cardinality,
    /// How sensitive the field is.
    pub classification: Classification,
}

/// A column of one event.
pub struct ArrowFieldView {
    pub name: Seq<char>,
    pub tag: u32,
    pub ty: ArrowLeafType,
    pub kind: FieldKind,
    pub cardinality: Cardinality,
    pub classification: Classification,
}

impl View for ArrowField {
    type V = ArrowFieldView;

    open spec fn view(&self) -> ArrowFieldView {
        ArrowFieldView {
            name: self.name@,
            tag: self.tag,
            ty: self.ty,
            kind: self.kind,
            cardinality: self.cardinality,
            classification: self.classification,
        }
    }
}

/// The columns of one event.
#[derive(Debug)]
pub struct ArrowEventSchema {
    /// The full name of the event.
    pub full_name: String,
    /// The name of the column that its own columns stand in.
    pub payload_column: String,
    /// Its own columns.
    pub fields: Vec<ArrowField>,
    /// The hash of the schema.
    pub schema_hash: u64,
}

/// The columns of one event.
pub struct ArrowEventView {
    pub full_name: Seq<char>,
    pub payload_column: Seq<char>,
    pub fields: Seq<ArrowFieldView>,
    pub schema_hash: u64,
}

/// Columns, by what they are.
pub open spec fn field_views(list: Seq<ArrowField>) -> Seq<ArrowFieldView> {
    list.map_values(|f: ArrowField| f@)
}

impl View for ArrowEventSchema {
    type V = ArrowEventView;

    open spec fn view(&self) -> ArrowEventView {
        ArrowEventView {
            full_name: self.full_name@,
            payload_column: self.payload_column@,
            fields: field_views(self.fields@),
            schema_hash: self.schema_hash,
        }
    }
}

impl Clone for ArrowField {
    fn clone(&self) -> (r: Self)
        ensures
            r == *self,
    {
        ArrowField {
            name: self.name.clone(),
            tag: self.tag,
            ty: self.ty,
            kind: self.kind,
            cardinality: self.cardinality,
            classification: self.classification,
        }
    }
}

impl Clone for ArrowEventSchema {
    fn clone(&self) -> (r: Self)
        ensures
            r@ == self@,
    {
        let mut fields: Vec<ArrowField> = Vec::new();
        let mut i: usize = 0;
        while i < self.fields.len()
            invariant
                i <= self.fields@.len(),
                fields@ =~= self.fields@.take(i as int),
            decreases self.fields@.len() - i,
        {
            fields.push(self.fields[i].clone());
            i = i + 1;
        }
        assert(fields@ =~= self.fields@);
        ArrowEventSchema {
            full_name: self.full_name.clone(),
            payload_column: self.payload_column.clone(),
            fields,
            schema_hash: self.schema_hash,
        }
    }
}

/// The kind that a role is declared as.
pub open spec fn kind_of_role(role: FieldRole) -> FieldKind {
    match role {
        FieldRole::Label => FieldKind::Label,
        FieldRole::Attribute => FieldKind::Attribute,
        FieldRole::Measurement => FieldKind::Measurement,
        FieldRole::TraceId => FieldKind::TraceId,
        FieldRole::SpanId => FieldKind::SpanId,
        FieldRole::ParentSpanId => FieldKind::ParentSpanId,
        FieldRole::TimestampNs => FieldKind::TimestampNs,
        FieldRole::DurationNs => FieldKind::DurationNs,
        FieldRole::Forensic => FieldKind::Forensic,
    }
}

/// Whether the name of a measurement says that it is a whole number.
pub open spec fn names_a_count(name: Seq<char>) -> bool {
    ||| "_count"@.is_suffix_of(name)
    ||| "_total"@.is_suffix_of(name)
    ||| "_n"@.is_suffix_of(name)
    ||| "_ms"@.is_suffix_of(name)
    ||| "_us"@.is_suffix_of(name)
    ||| "_ns"@.is_suffix_of(name)
    ||| "_bytes"@.is_suffix_of(name)
    ||| "_size"@.is_suffix_of(name)
}

/// The type of a field's column.
pub open spec fn leaf_type(meta: FieldMeta) -> ArrowLeafType {
    match meta.role {
        FieldRole::Label => if meta.cardinality == Cardinality::Low || meta.cardinality
            == Cardinality::Medium {
            ArrowLeafType::DictUtf8
        } else {
            ArrowLeafType::Utf8
        },
        FieldRole::TimestampNs => ArrowLeafType::TimestampNs,
        FieldRole::DurationNs => ArrowLeafType::UInt64,
        FieldRole::Measurement => if names_a_count(meta.name@) {
            ArrowLeafType::UInt64
        } else {
            ArrowLeafType::Float64
        },
        FieldRole::TraceId => ArrowLeafType::Utf8,
        FieldRole::SpanId => ArrowLeafType::Utf8,
        FieldRole::ParentSpanId => ArrowLeafType::Utf8,
        FieldRole::Attribute => ArrowLeafType::Utf8,
        FieldRole::Forensic => ArrowLeafType::Utf8,
    }
}

/// The column of a field.
pub open spec fn column_of(meta: FieldMeta) -> ArrowFieldView {
    ArrowFieldView {
        name: meta.name@,
        tag: meta.number,
        ty: leaf_type(meta),
        kind: kind_of_role(meta.role),
        cardinality: meta.cardinality,
        classification: meta.classification,
    }
}

/// Whether a name ends like this.
fn ends_like(name: &[char], end: &str) -> (r: bool)
    ensures
        r == end@.is_suffix_of(name@),
{
    let chars = chars_of(end);
    has_suffix(name, chars.as_slice())
}

/// The type of a field's column.
pub fn infer_leaf_type(meta: &FieldMeta) -> (r: ArrowLeafType)
    ensures
        r == leaf_type(*meta),
{
    match meta.role {
        FieldRole::Label => match meta.cardinality {
            Cardinality::Low | Cardinality::Medium => ArrowLeafType::DictUtf8,
            _ => ArrowLeafType::Utf8,
        },
        FieldRole::TraceId | FieldRole::SpanId | FieldRole::ParentSpanId => ArrowLeafType::Utf8,
        FieldRole::TimestampNs => ArrowLeafType::TimestampNs,
        FieldRole::DurationNs => ArrowLeafType::UInt64,
        FieldRole::Measurement => {
            let chars = chars_of(meta.name);
            let n = chars.as_slice();
            let is_count = ends_like(n, "_count") || ends_like(n, "_total") || ends_like(n, "_n")
                || ends_like(n, "_ms") || ends_like(n, "_us") || ends_like(n, "_ns") || ends_like(
                n,
                "_bytes",
            ) || ends_like(n, "_size");
            if is_count {
                ArrowLeafType::UInt64
            } else {
                ArrowLeafType::Float64
            }
        },
        FieldRole::Attribute | FieldRole::Forensic => ArrowLeafType::Utf8,
    }
}

/// The column of a field.
pub fn arrow_field_for(meta: &FieldMeta) -> (r: ArrowField)
    ensures
        r@ == column_of(*meta),
{
    let kind = match meta.role {
        FieldRole::Label => FieldKind::Label,
        FieldRole::Attribute => FieldKind::Attribute,
        FieldRole::Measurement => FieldKind::Measurement,
        FieldRole::TraceId => FieldKind::TraceId,
        FieldRole::SpanId => FieldKind::SpanId,
        FieldRole::ParentSpanId => FieldKind::ParentSpanId,
        FieldRole::TimestampNs => FieldKind::TimestampNs,
        FieldRole::DurationNs => FieldKind::DurationNs,
        FieldRole::Forensic => FieldKind::Forensic,
    };
    ArrowField {
        name: meta.name.to_string(),
        tag: meta.number,
        ty: infer_leaf_type(meta),
        kind,
        cardinality: meta.cardinality,
        classification: meta.classification,
    }
}

/// A text in lower case, as Unicode has it.
pub uninterp spec fn unicode_lower(s: Seq<char>) -> Seq<char>;

/// `str::to_lowercase`: a text in lower case, as Unicode has it, which depends
/// on nothing but the text. An ASCII text has its capitals turned into small
/// letters.
#[verifier::external_body]
fn lowercase(s: &str) -> (r: String)
    ensures
        r@ == unicode_lower(s@),
        is_ascii_chars(s@) ==> r@ == text::lowered(s@),
{
    s.to_lowercase()
}

/// A name with underscores in place of the dots.
pub open spec fn undotted(s: Seq<char>) -> Seq<char> {
    s.map_values(
        |c: char|
            if c == '.' {
                '_'
            } else {
                c
            },
    )
}

/// A name with underscores in place of the dots.
fn without_dots(s: &str) -> (r: String)
    ensures
        r@ == undotted(s@),
{
    let chars = chars_of(s);
    let mut out = String::new();
    let mut i: usize = 0;
    while i < chars.len()
        invariant
            i <= chars@.len(),
            chars@ == s@,
            out@ =~= undotted(s@).take(i as int),
        decreases chars@.len() - i,
    {
        let c = chars[i];
        if c == '.' {
            out.push('_');
        } else {
            out.push(c);
        }
        i = i + 1;
    }
    assert(undotted(s@).take(i as int) =~= undotted(s@));
    out
}

/// The columns of an event.
pub open spec fn event_of(schema: SchemaView) -> ArrowEventView {
    ArrowEventView {
        full_name: schema.full_name,
        payload_column: "payload_"@ + unicode_lower(undotted(schema.full_name)),
        fields: schema.fields.map_values(|m: FieldMeta| column_of(m)),
        schema_hash: schema.schema_hash,
    }
}

impl ArrowEventSchema {
    /// The columns of an event.
    #[must_use]
    pub fn from_erased(schema: &EventSchemaErased) -> (r: Self)
        ensures
            r@ == event_of(schema@),
    {
        let mut payload_column = String::new();
        payload_column.append("payload_");
        payload_column.append(lowercase(without_dots(schema.full_name()).as_str()).as_str());
        proof {
            assert(payload_column@ =~= "payload_"@ + unicode_lower(undotted(schema@.full_name)));
        }
        let metas = schema.fields();
        let mut fields: Vec<ArrowField> = Vec::new();
        let ghost goal = event_of(schema@).fields;
        let mut i: usize = 0;
        while i < metas.len()
            invariant
                i <= metas@.len(),
                goal == metas@.map_values(|m: FieldMeta| column_of(m)),
                field_views(fields@) =~= goal.take(i as int),
            decreases metas@.len() - i,
        {
            let field = arrow_field_for(&metas[i]);
            let ghost was = fields@;
            let ghost new = field@;
            fields.push(field);
            proof {
                assert(field_views(fields@) =~= field_views(was).push(new));
            }
            i = i + 1;
        }
        proof {
            assert(goal.take(i as int) =~= goal);
        }
        ArrowEventSchema {
            full_name: schema.full_name().to_string(),
            payload_column,
            fields,
            schema_hash: schema.schema_hash(),
        }
    }
}

// ---------------------------------------------------------------------------
// The table.
// ---------------------------------------------------------------------------
/// The columns of all events.
#[derive(Debug)]
pub struct ArrowSchemaModel {
    /// The columns of each event, in the order of their names.
    pub events: Vec<ArrowEventSchema>,
}

/// Events, by their columns.
pub open spec fn event_views(list: Seq<ArrowEventSchema>) -> Seq<ArrowEventView> {
    list.map_values(|e: ArrowEventSchema| e@)
}

impl View for ArrowSchemaModel {
    type V = Seq<ArrowEventView>;

    open spec fn view(&self) -> Seq<ArrowEventView> {
        event_views(self.events@)
    }
}

/// Events in the order of their names with one more, which stands behind those
/// of its own name.
pub open spec fn event_added(list: Seq<ArrowEventView>, event: ArrowEventView) -> Seq<
    ArrowEventView,
>
    decreases list.len(),
{
    if list.len() > 0 && text_map::text_before(event.full_name, list.last().full_name) {
        event_added(list.drop_last(), event).push(list.last())
    } else {
        list.push(event)
    }
}

/// Events in the order of their names, those of one name as they came.
pub open spec fn events_in_order(list: Seq<ArrowEventView>) -> Seq<ArrowEventView>
    decreases list.len(),
{
    if list.len() == 0 {
        Seq::empty()
    } else {
        event_added(events_in_order(list.drop_last()), list.last())
    }
}

/// Whether events stand in the order of their names.
pub open spec fn are_in_order(list: Seq<ArrowEventView>) -> bool {
    forall|i: int, j: int|
        0 <= i < j < list.len() ==> !text_map::text_before(
            (#[trigger] list[j]).full_name,
            (#[trigger] list[i]).full_name,
        )
}

proof fn lemma_event_added(list: Seq<ArrowEventView>, event: ArrowEventView)
    requires
        are_in_order(list),
    ensures
        are_in_order(event_added(list, event)),
        event_added(list, event).to_multiset() =~= list.to_multiset().insert(event),
        event_added(list, event).len() == list.len() + 1,
        forall|i: int|
            0 <= i < event_added(list, event).len() ==> (#[trigger] event_added(list, event)[i])
                == event || list.contains(event_added(list, event)[i]),
    decreases list.len(),
{
    broadcast use vstd::seq_lib::group_to_multiset_ensures;

    let out = event_added(list, event);
    if list.len() > 0 && text_map::text_before(event.full_name, list.last().full_name) {
        let front = list.drop_last();
        let last = list.last();
        lemma_event_added(front, event);
        let inner = event_added(front, event);
        assert(front.push(last) =~= list);
        assert forall|i: int| 0 <= i < out.len() implies (#[trigger] out[i]) == event
            || list.contains(out[i]) by {
            if i < inner.len() {
                assert(out[i] == inner[i]);
                if inner[i] != event {
                    let k = choose|k: int| 0 <= k < front.len() && front[k] == inner[i];
                    assert(list[k] == out[i]);
                }
            } else {
                assert(list[list.len() - 1] == out[i]);
            }
        }
        assert forall|i: int, j: int| 0 <= i < j < out.len() implies !text_map::text_before(
            (#[trigger] out[j]).full_name,
            (#[trigger] out[i]).full_name,
        ) by {
            if j < inner.len() {
                assert(out[i] == inner[i] && out[j] == inner[j]);
            } else {
                assert(out[i] == inner[i]);
                if inner[i] == event {
                    text_map::lemma_before_order(event.full_name, last.full_name);
                } else {
                    let k = choose|k: int| 0 <= k < front.len() && front[k] == inner[i];
                    assert(list[k] == inner[i]);
                    assert(list[list.len() - 1] == last);
                }
            }
        }
    } else {
        assert forall|i: int| 0 <= i < out.len() implies (#[trigger] out[i]) == event
            || list.contains(out[i]) by {
            if i < list.len() {
                assert(list[i] == out[i]);
            }
        }
        assert forall|i: int, j: int| 0 <= i < j < out.len() implies !text_map::text_before(
            (#[trigger] out[j]).full_name,
            (#[trigger] out[i]).full_name,
        ) by {
            assert(out[i] == list[i]);
            if j < list.len() {
                assert(out[j] == list[j]);
            } else {
                let last = list.last();
                if i < list.len() - 1 {
                    assert(!text_map::text_before(
                        list[list.len() - 1].full_name,
                        list[i].full_name,
                    ));
                    lemma_not_before(event.full_name, last.full_name, list[i].full_name);
                }
            }
        }
    }
}

/// What is not before a second text is not before one that the second is not
/// before.
proof fn lemma_not_before(a: Seq<char>, b: Seq<char>, c: Seq<char>)
    requires
        !text_map::text_before(a, b),
        !text_map::text_before(b, c),
    ensures
        !text_map::text_before(a, c),
{
    if text_map::text_before(a, c) {
        text_map::lemma_before_order(b, c);
        if b != c {
            if a == b {
            } else {
                text_map::lemma_before_order(a, b);
                text_map::lemma_before_transitive(b, a, c);
            }
            assert(text_map::text_before(c, b));
            text_map::lemma_before_transitive(a, c, b);
        }
    }
}

/// The events stand in the order of their names, and they are those that were
/// given.
pub proof fn law_model_is_sorted(list: Seq<ArrowEventView>)
    ensures
        are_in_order(events_in_order(list)),
        events_in_order(list).to_multiset() =~= list.to_multiset(),
        events_in_order(list).len() == list.len(),
    decreases list.len(),
{
    broadcast use vstd::seq_lib::group_to_multiset_ensures;

    if list.len() > 0 {
        law_model_is_sorted(list.drop_last());
        lemma_event_added(events_in_order(list.drop_last()), list.last());
        assert(list.drop_last().push(list.last()) =~= list);
    } else {
        assert(events_in_order(list) =~= list);
    }
}

/// Whether no two events have one name.
pub open spec fn names_differ(list: Seq<ArrowEventView>) -> bool {
    forall|i: int, j: int|
        0 <= i < j < list.len() ==> (#[trigger] list[i]).full_name != (#[trigger] list[j]).full_name
}

proof fn lemma_one_order(x: Seq<ArrowEventView>, y: Seq<ArrowEventView>)
    requires
        are_in_order(x),
        are_in_order(y),
        names_differ(x),
        x.to_multiset() == y.to_multiset(),
    ensures
        x == y,
    decreases x.len(),
{
    broadcast use vstd::seq_lib::group_to_multiset_ensures;

    assert(x.to_multiset().len() == x.len() && y.to_multiset().len() == y.len());
    if x.len() > 0 {
        let a = x.last();
        let b = y.last();
        assert(x.contains(a) && y.contains(b));
        assert(x.to_multiset().count(a) > 0 && y.to_multiset().count(b) > 0);
        assert(y.contains(a) && x.contains(b));
        let i = choose|i: int| 0 <= i < y.len() && y[i] == a;
        let j = choose|j: int| 0 <= j < x.len() && x[j] == b;
        text_map::lemma_before_order(a.full_name, b.full_name);
        assert(i < y.len() - 1 ==> !text_map::text_before(y[y.len() - 1].full_name, y[i].full_name));
        assert(j < x.len() - 1 ==> !text_map::text_before(x[x.len() - 1].full_name, x[j].full_name));
        assert(a == b) by {
            if i < y.len() - 1 && j < x.len() - 1 {
                assert(x[j].full_name != x[x.len() - 1].full_name);
            }
        }
        let front = x.drop_last();
        let other = y.drop_last();
        assert(front.push(a) =~= x);
        assert(other.push(a) =~= y);
        assert(front.to_multiset() =~= x.to_multiset().remove(a));
        assert(other.to_multiset() =~= y.to_multiset().remove(a));
        lemma_one_order(front, other);
    }
}

/// The order in which schemas are given does not matter, unless two have one
/// name.
pub proof fn law_given_order_does_not_matter(a: Seq<ArrowEventView>, b: Seq<ArrowEventView>)
    requires
        names_differ(a),
        a.to_multiset() == b.to_multiset(),
    ensures
        events_in_order(a) == events_in_order(b),
{
    broadcast use vstd::seq_lib::group_to_multiset_ensures;

    law_model_is_sorted(a);
    law_model_is_sorted(b);
    let x = events_in_order(a);
    assert forall|i: int, j: int| 0 <= i < j < x.len() implies (#[trigger] x[i]).full_name != (
    #[trigger] x[j]).full_name by {
        lemma_names_still_differ(a, x, i, j);
    }
    lemma_one_order(x, events_in_order(b));
}

/// Names that differ in one order differ in every other.
proof fn lemma_names_still_differ(
    a: Seq<ArrowEventView>,
    x: Seq<ArrowEventView>,
    i: int,
    j: int,
)
    requires
        names_differ(a),
        a.to_multiset() == x.to_multiset(),
        0 <= i < j < x.len(),
    ensures
        x[i].full_name != x[j].full_name,
{
    broadcast use vstd::seq_lib::group_to_multiset_ensures;

    if x[i].full_name == x[j].full_name {
        assert(x.contains(x[i]) && x.contains(x[j]));
        assert(x.to_multiset().count(x[i]) > 0 && x.to_multiset().count(x[j]) > 0);
        assert(a.contains(x[i]) && a.contains(x[j]));
        let k = choose|k: int| 0 <= k < a.len() && a[k] == x[i];
        let l = choose|l: int| 0 <= l < a.len() && a[l] == x[j];
        assert(k == l);
        let event = x[i];
        let less = x.remove(j);
        assert(less[i] == event);
        assert(less.contains(event));
        assert(less.to_multiset() =~= x.to_multiset().remove(event));
        let rest = a.remove(k);
        assert(rest.to_multiset() =~= a.to_multiset().remove(event));
        assert(rest.to_multiset().count(event) > 0);
        assert(rest.contains(event));
        let m = choose|m: int| 0 <= m < rest.len() && rest[m] == event;
        let n: int = if m < k {
            m
        } else {
            m + 1
        };
        assert(a[n] == event);
    }
}

impl Clone for ArrowSchemaModel {
    fn clone(&self) -> (r: Self)
        ensures
            r@ == self@,
    {
        let mut events: Vec<ArrowEventSchema> = Vec::new();
        let mut i: usize = 0;
        while i < self.events.len()
            invariant
                i <= self.events@.len(),
                event_views(events@) =~= event_views(self.events@).take(i as int),
            decreases self.events@.len() - i,
        {
            let e = self.events[i].clone();
            let ghost was = events@;
            let ghost new = e@;
            events.push(e);
            proof {
                assert(event_views(events@) =~= event_views(was).push(new));
            }
            i = i + 1;
        }
        let r = ArrowSchemaModel { events };
        proof {
            assert(r@ =~= self@);
        }
        r
    }
}

impl Default for ArrowSchemaModel {
    fn default() -> (r: Self)
        ensures
            r@ == Seq::<ArrowEventView>::empty(),
    {
        let r = ArrowSchemaModel { events: Vec::new() };
        proof {
            assert(r@ =~= Seq::<ArrowEventView>::empty());
        }
        r
    }
}

impl ArrowSchemaModel {
    /// Adds an event in its place.
    fn add_event(&mut self, event: ArrowEventSchema)
        ensures
            final(self)@ == event_added(old(self)@, event@),
    {
        let ghost start = self@;
        let ghost new = event@;
        let mut at: usize = self.events.len();
        let ghost mut tail: Seq<ArrowEventView> = Seq::empty();
        proof {
            assert(start.take(at as int) =~= start);
            assert(event_added(start, new) =~= event_added(start.take(at as int), new) + tail);
        }
        while at > 0 && text_order(
            event.full_name.as_str(),
            self.events[at - 1].full_name.as_str(),
        ) == TextOrder::Before
            invariant
                at <= self.events@.len(),
                start == event_views(self.events@),
                new == event@,
                tail == start.skip(at as int),
                event_added(start, new) == event_added(start.take(at as int), new) + tail,
            decreases at,
        {
            proof {
                let front = start.take(at as int);
                assert(front.last() == self.events@[at - 1]@);
                assert(front.drop_last() =~= start.take(at - 1));
                assert(event_added(front, new) + tail =~= event_added(start.take(at - 1), new) + (
                seq![front.last()] + tail));
                assert(seq![front.last()] + tail =~= start.skip(at - 1));
                tail = start.skip(at - 1);
            }
            at = at - 1;
        }
        proof {
            let front = start.take(at as int);
            if at > 0 {
                assert(front.last() == self.events@[at - 1]@);
                text_map::lemma_before_order(new.full_name, front.last().full_name);
            }
            assert(event_added(front, new) =~= front.push(new));
        }
        self.events.insert(at, event);
        proof {
            assert(self@ =~= start.take(at as int).push(new) + start.skip(at as int));
        }
    }

    /// The table of these schemas.
    #[must_use]
    pub fn from_schemas(schemas: &Vec<&EventSchemaErased>) -> (r: Self)
        ensures
            r@ == events_in_order(
                schemas@.map_values(|s: &EventSchemaErased| event_of(s@)),
            ),
    {
        let ghost all = schemas@.map_values(|s: &EventSchemaErased| event_of(s@));
        let mut model = ArrowSchemaModel::default();
        let mut i: usize = 0;
        proof {
            assert(all.take(0) =~= Seq::<ArrowEventView>::empty());
        }
        while i < schemas.len()
            invariant
                i <= schemas@.len(),
                all == schemas@.map_values(|s: &EventSchemaErased| event_of(s@)),
                model@ == events_in_order(all.take(i as int)),
            decreases schemas@.len() - i,
        {
            model.add_event(ArrowEventSchema::from_erased(schemas[i]));
            proof {
                assert(all.take(i + 1).drop_last() =~= all.take(i as int));
                assert(all.take(i + 1).last() == all[i as int]);
            }
            i = i + 1;
        }
        proof {
            assert(all.take(i as int) =~= all);
        }
        model
    }

    /// How many events there are.
    #[must_use]
    pub fn len(&self) -> (n: usize)
        ensures
            n == self@.len(),
    {
        self.events.len()
    }

    /// Whether there are no events.
    #[must_use]
    pub fn is_empty(&self) -> (r: bool)
        ensures
            r == (self@.len() == 0),
    {
        self.events.len() == 0
    }

    /// The columns of the first event with a name.
    #[must_use]
    pub fn lookup(&self, full_name: &str) -> (r: Option<&ArrowEventSchema>)
        ensures
            match r {
                Some(e) => e@.full_name == full_name@ && exists|i: int|
                    0 <= i < self@.len() && #[trigger] self@[i] == e@ && forall|j: int|
                        0 <= j < i ==> (#[trigger] self@[j]).full_name != full_name@,
                None => forall|j: int|
                    0 <= j < self@.len() ==> (#[trigger] self@[j]).full_name != full_name@,
            },
    {
        let mut i: usize = 0;
        while i < self.events.len()
            invariant
                i <= self.events@.len(),
                forall|j: int| 0 <= j < i ==> (#[trigger] self@[j]).full_name != full_name@,
            decreases self.events@.len() - i,
        {
            assert(self@[i as int] == self.events@[i as int]@);
            if text_eq(self.events[i].full_name.as_str(), full_name) {
                return Some(&self.events[i]);
            }
            i = i + 1;
        }
        None
    }
}

// ---------------------------------------------------------------------------
// The table as JSON.
// ---------------------------------------------------------------------------
/// The name of a kind.
pub open spec fn kind_name(k: FieldKind) -> Seq<char> {
    match k {
        FieldKind::Label => "LABEL"@,
        FieldKind::Measurement => "MEASUREMENT"@,
        FieldKind::TraceId => "TRACE_ID"@,
        FieldKind::SpanId => "SPAN_ID"@,
        FieldKind::ParentSpanId => "PARENT_SPAN_ID"@,
        FieldKind::TimestampNs => "TIMESTAMP_NS"@,
        FieldKind::DurationNs => "DURATION_NS"@,
        FieldKind::Forensic => "FORENSIC"@,
        FieldKind::Attribute => "ATTRIBUTE"@,
        FieldKind::Unspecified => "ATTRIBUTE"@,
    }
}

/// The name of a kind.
pub fn kind_str(k: FieldKind) -> (r: &'static str)
    ensures
        r@ == kind_name(k),
{
    match k {
        FieldKind::Label => "LABEL",
        FieldKind::Attribute => "ATTRIBUTE",
        FieldKind::Measurement => "MEASUREMENT",
        FieldKind::TraceId => "TRACE_ID",
        FieldKind::SpanId => "SPAN_ID",
        FieldKind::ParentSpanId => "PARENT_SPAN_ID",
        FieldKind::TimestampNs => "TIMESTAMP_NS",
        FieldKind::DurationNs => "DURATION_NS",
        FieldKind::Forensic => "FORENSIC",
        FieldKind::Unspecified => "ATTRIBUTE",
    }
}

/// A column with a name and a type.
pub open spec fn typed_object(name: Seq<char>, ty: Seq<char>) -> Map<Seq<char>, JsonView> {
    json::no_entries().insert("name"@, JsonView::Text(name)).insert("type"@, JsonView::Text(ty))
}

/// A column with a name and a type.
fn typed_column(name: &str, ty: &str) -> (r: JsonMap<String, Value>)
    ensures
        json::object_entries(r) == typed_object(name@, ty@),
{
    let mut m = new_object();
    put(&mut m, "name", Json::Text(name.to_string()));
    put(&mut m, "type", Json::Text(ty.to_string()));
    m
}

/// A column of an event as an object.
pub open spec fn field_object(f: ArrowFieldView) -> Map<Seq<char>, JsonView> {
    json::no_entries().insert("name"@, JsonView::Text(f.name)).insert(
        "tag"@,
        JsonView::Number(f.tag as u64),
    ).insert("type"@, JsonView::Text(f.ty.name())).insert(
        "kind"@,
        JsonView::Text(kind_name(f.kind)),
    ).insert("cardinality"@, JsonView::Text(f.cardinality.name())).insert(
        "classification"@,
        JsonView::Text(f.classification.name()),
    )
}

/// A column of an event as an object.
fn field_column(f: &ArrowField) -> (r: JsonMap<String, Value>)
    ensures
        json::object_entries(r) == field_object(f@),
{
    let mut m = new_object();
    put(&mut m, "name", Json::Text(f.name.clone()));
    put(&mut m, "tag", Json::Number(f.tag as u64));
    put(&mut m, "type", Json::Text(f.ty.as_str().to_string()));
    put(&mut m, "kind", Json::Text(kind_str(f.kind).to_string()));
    put(&mut m, "cardinality", Json::Text(f.cardinality.as_str().to_string()));
    put(&mut m, "classification", Json::Text(f.classification.as_str().to_string()));
    m
}

/// The columns of an event as an object.
pub open spec fn event_object(e: ArrowEventView) -> Map<Seq<char>, JsonView> {
    json::no_entries().insert("full_name"@, JsonView::Text(e.full_name)).insert(
        "payload_column"@,
        JsonView::Text(e.payload_column),
    ).insert(
        "schema_hash"@,
        JsonView::Text("0x"@ + text::hex_digits(e.schema_hash as nat, 16)),
    ).insert(
        "fields"@,
        JsonView::List(e.fields.map_values(|f: ArrowFieldView| field_object(f))),
    )
}

/// The columns of an event as an object.
fn event_columns(e: &ArrowEventSchema) -> (r: JsonMap<String, Value>)
    ensures
        json::object_entries(r) == event_object(e@),
{
    let ghost goal = e@.fields.map_values(|f: ArrowFieldView| field_object(f));
    let mut columns: Vec<JsonMap<String, Value>> = Vec::new();
    let mut i: usize = 0;
    while i < e.fields.len()
        invariant
            i <= e.fields@.len(),
            goal == field_views(e.fields@).map_values(|f: ArrowFieldView| field_object(f)),
            json::objects(columns@) =~= goal.take(i as int),
        decreases e.fields@.len() - i,
    {
        let column = field_column(&e.fields[i]);
        let ghost was = columns@;
        let ghost new = json::object_entries(column);
        columns.push(column);
        proof {
            assert(json::objects(columns@) =~= json::objects(was).push(new));
        }
        i = i + 1;
    }
    proof {
        assert(goal.take(i as int) =~= goal);
    }
    let mut hash = String::new();
    hash.append("0x");
    push_hex(&mut hash, e.schema_hash, 16);
    proof {
        assert(hash@ =~= "0x"@ + text::hex_digits(e.schema_hash as nat, 16));
    }
    let mut m = new_object();
    put(&mut m, "full_name", Json::Text(e.full_name.clone()));
    put(&mut m, "payload_column", Json::Text(e.payload_column.clone()));
    put(&mut m, "schema_hash", Json::Text(hash));
    put(&mut m, "fields", Json::List(columns));
    m
}

/// The columns of every event as objects.
pub open spec fn envelope_objects() -> Seq<Map<Seq<char>, JsonView>> {
    ENVELOPE_COLUMNS@.map_values(
        |c: (&'static str, ArrowLeafType)| typed_object(c.0@, c.1.name()),
    )
}

/// The table as an object.
pub open spec fn model_object(events: Seq<ArrowEventView>) -> Map<Seq<char>, JsonView> {
    json::no_entries().insert("table"@, JsonView::Text("obs_events"@)).insert(
        "envelope"@,
        JsonView::List(envelope_objects()),
    ).insert("labels"@, JsonView::Object(typed_object("labels"@, "map<dict_utf8, utf8>"@))).insert(
        "attrs"@,
        JsonView::Object(typed_object("attrs"@, "map<dict_utf8, utf8>"@)),
    ).insert("payload_proto"@, JsonView::Object(typed_object("payload_proto"@, "binary"@))).insert(
        "events"@,
        JsonView::List(events.map_values(|e: ArrowEventView| event_object(e))),
    )
}

/// The columns of every event as objects.
fn envelope_columns() -> (r: Vec<JsonMap<String, Value>>)
    ensures
        json::objects(r@) == envelope_objects(),
{
    let columns = ENVELOPE_COLUMNS;
    let mut out: Vec<JsonMap<String, Value>> = Vec::new();
    let mut i: usize = 0;
    while i < 13
        invariant
            i <= 13,
            columns == ENVELOPE_COLUMNS,
            json::objects(out@) =~= envelope_objects().take(i as int),
        decreases 13 - i,
    {
        let (name, ty) = columns[i];
        let column = typed_column(name, ty.as_str());
        let ghost was = out@;
        let ghost new = json::object_entries(column);
        out.push(column);
        proof {
            assert(json::objects(out@) =~= json::objects(was).push(new));
            assert(envelope_objects()[i as int] == new);
        }
        i = i + 1;
    }
    proof {
        assert(envelope_objects().take(i as int) =~= envelope_objects());
    }
    out
}

impl ArrowSchemaModel {
    /// The table as JSON on several lines.
    ///
    /// # Errors
    ///
    /// There is none that can come.
    pub fn to_json(&self) -> (r: Result<String, serde_json::Error>)
        ensures
            r matches Ok(s) && s@ == json::object_lines(model_object(self@)),
    {
        let ghost goal = self@.map_values(|e: ArrowEventView| event_object(e));
        let mut events: Vec<JsonMap<String, Value>> = Vec::new();
        let mut i: usize = 0;
        while i < self.events.len()
            invariant
                i <= self.events@.len(),
                goal == self@.map_values(|e: ArrowEventView| event_object(e)),
                json::objects(events@) =~= goal.take(i as int),
            decreases self.events@.len() - i,
        {
            let event = event_columns(&self.events[i]);
            let ghost was = events@;
            let ghost new = json::object_entries(event);
            events.push(event);
            proof {
                assert(json::objects(events@) =~= json::objects(was).push(new));
                assert(self@[i as int] == self.events@[i as int]@);
            }
            i = i + 1;
        }
        proof {
            assert(goal.take(i as int) =~= goal);
        }
        let mut root = new_object();
        put(&mut root, "table", Json::Text("obs_events".to_string()));
        put(&mut root, "envelope", Json::List(envelope_columns()));
        put(&mut root, "labels", Json::Object(typed_column("labels", "map<dict_utf8, utf8>")));
        put(&mut root, "attrs", Json::Object(typed_column("attrs", "map<dict_utf8, utf8>")));
        put(&mut root, "payload_proto", Json::Object(typed_column("payload_proto", "binary")));
        put(&mut root, "events", Json::List(events));
        write_pretty(root)
    }
}

// ---------------------------------------------------------------------------
// What the columns are.
// ---------------------------------------------------------------------------
/// A field is declared as the kind of its role, from which the role comes back.
pub proof fn law_kinds_and_roles_agree(role: FieldRole)
    ensures
        crate::envelope::projection::role_of_kind(kind_of_role(role)) == role,
        kind_of_role(role) != FieldKind::Unspecified,
{
}

/// The type of a column follows from what the field is for: moments, durations
/// and counts are numbers of their kind, other measurements have fractions, and
/// the rest is text, of which labels with few values share theirs.
pub proof fn law_columns_have_types_by_role(meta: FieldMeta)
    ensures
        meta.role == FieldRole::TimestampNs <==> leaf_type(meta) == ArrowLeafType::TimestampNs,
        meta.role == FieldRole::DurationNs ==> leaf_type(meta) == ArrowLeafType::UInt64,
        meta.role == FieldRole::Measurement && names_a_count(meta.name@) ==> leaf_type(meta)
            == ArrowLeafType::UInt64,
        meta.role == FieldRole::Measurement && !names_a_count(meta.name@) <==> leaf_type(meta)
            == ArrowLeafType::Float64,
        leaf_type(meta) == ArrowLeafType::DictUtf8 <==> meta.role == FieldRole::Label && (
        meta.cardinality == Cardinality::Low || meta.cardinality == Cardinality::Medium),
        meta.role == FieldRole::TraceId || meta.role == FieldRole::SpanId || meta.role
            == FieldRole::ParentSpanId || meta.role == FieldRole::Attribute || meta.role
            == FieldRole::Forensic ==> leaf_type(meta) == ArrowLeafType::Utf8,
        meta.role == FieldRole::Label && (meta.cardinality == Cardinality::High
            || meta.cardinality == Cardinality::Unbounded || meta.cardinality
            == Cardinality::Unspecified) ==> leaf_type(meta) == ArrowLeafType::Utf8,
{
}

proof fn lemma_ends(front: Seq<char>, end: Seq<char>)
    ensures
        end.is_suffix_of(front + end),
{
    let s = front + end;
    assert(end =~= s.subrange(s.len() - end.len(), s.len() as int));
}

/// A measurement counts something where its name ends in one of eight ways.
pub proof fn law_eight_endings_name_a_count(front: Seq<char>, name: Seq<char>)
    ensures
        names_a_count(front + "_count"@),
        names_a_count(front + "_total"@),
        names_a_count(front + "_n"@),
        names_a_count(front + "_ms"@),
        names_a_count(front + "_us"@),
        names_a_count(front + "_ns"@),
        names_a_count(front + "_bytes"@),
        names_a_count(front + "_size"@),
        !"_count"@.is_suffix_of(name) && !"_total"@.is_suffix_of(name) && !"_n"@.is_suffix_of(name)
            && !"_ms"@.is_suffix_of(name) && !"_us"@.is_suffix_of(name) && !"_ns"@.is_suffix_of(
            name,
        ) && !"_bytes"@.is_suffix_of(name) && !"_size"@.is_suffix_of(name) ==> !names_a_count(name),
{
    lemma_ends(front, "_count"@);
    lemma_ends(front, "_total"@);
    lemma_ends(front, "_n"@);
    lemma_ends(front, "_ms"@);
    lemma_ends(front, "_us"@);
    lemma_ends(front, "_ns"@);
    lemma_ends(front, "_bytes"@);
    lemma_ends(front, "_size"@);
}

/// A column has the name, the number, the class and the cardinality of its
/// field.
pub proof fn law_a_column_is_that_of_its_field(meta: FieldMeta)
    ensures
        column_of(meta).name == meta.name@,
        column_of(meta).tag == meta.number,
        column_of(meta).ty == leaf_type(meta),
        column_of(meta).kind == kind_of_role(meta.role),
        column_of(meta).cardinality == meta.cardinality,
        column_of(meta).classification == meta.classification,
{
}

/// Dots become underscores; every other character stays in its place.
pub proof fn law_only_dots_change(s: Seq<char>, i: int)
    requires
        0 <= i < s.len(),
    ensures
        undotted(s).len() == s.len(),
        s[i] == '.' ==> undotted(s)[i] == '_',
        s[i] != '.' ==> undotted(s)[i] == s[i],
{
}

/// An event has a column for each of its fields, in their order, and one for its
/// payload, which is named after the event.
pub proof fn law_an_event_has_a_column_for_each_field(schema: SchemaView, i: int)
    ensures
        event_of(schema).full_name == schema.full_name,
        event_of(schema).schema_hash == schema.schema_hash,
        event_of(schema).fields.len() == schema.fields.len(),
        0 <= i < schema.fields.len() ==> event_of(schema).fields[i] == column_of(
            schema.fields[i],
        ),
        event_of(schema).payload_column == "payload_"@ + unicode_lower(undotted(schema.full_name)),
{
}

/// The kinds are told by their names; what has no kind is an attribute.
pub proof fn law_kinds_have_their_names()
    ensures
        kind_name(FieldKind::Label) == "LABEL"@,
        kind_name(FieldKind::Attribute) == "ATTRIBUTE"@,
        kind_name(FieldKind::Unspecified) == "ATTRIBUTE"@,
        kind_name(FieldKind::Measurement) == "MEASUREMENT"@,
        kind_name(FieldKind::TraceId) == "TRACE_ID"@,
        kind_name(FieldKind::SpanId) == "SPAN_ID"@,
        kind_name(FieldKind::ParentSpanId) == "PARENT_SPAN_ID"@,
        kind_name(FieldKind::TimestampNs) == "TIMESTAMP_NS"@,
        kind_name(FieldKind::DurationNs) == "DURATION_NS"@,
        kind_name(FieldKind::Forensic) == "FORENSIC"@,
        ArrowLeafType::Utf8.name() == "utf8"@,
        ArrowLeafType::DictUtf8.name() == "dict_utf8"@,
        ArrowLeafType::Int64.name() == "int64"@,
        ArrowLeafType::UInt64.name() == "uint64"@,
        ArrowLeafType::Float64.name() == "float64"@,
        ArrowLeafType::Bool.name() == "bool"@,
        ArrowLeafType::Binary.name() == "binary"@,
        ArrowLeafType::TimestampNs.name() == "timestamp_ns"@,
{
}

/// A column is told by its name, number, type, kind, cardinality and class.
pub proof fn law_a_column_is_told_whole(f: ArrowFieldView)
    ensures
        field_object(f).contains_pair("name"@, JsonView::Text(f.name)),
        field_object(f).contains_pair("tag"@, JsonView::Number(f.tag as u64)),
        field_object(f).contains_pair("type"@, JsonView::Text(f.ty.name())),
        field_object(f).contains_pair("kind"@, JsonView::Text(kind_name(f.kind))),
        field_object(f).contains_pair("cardinality"@, JsonView::Text(f.cardinality.name())),
        field_object(f).contains_pair("classification"@, JsonView::Text(f.classification.name())),
{
    reveal_strlit("name");
    reveal_strlit("tag");
    reveal_strlit("type");
    reveal_strlit("kind");
    reveal_strlit("cardinality");
    reveal_strlit("classification");
    assert("name"@[0] != "type"@[0] && "name"@[0] != "kind"@[0] && "type"@[0] != "kind"@[0]);
    assert("tag"@.len() == 3 && "cardinality"@.len() == 11 && "classification"@.len() == 14);
}

/// An event is told by its name, its payload column, its hash in sixteen digits
/// and its columns in their order.
pub proof fn law_an_event_is_told_whole(e: ArrowEventView, i: int)
    ensures
        event_object(e).contains_pair("full_name"@, JsonView::Text(e.full_name)),
        event_object(e).contains_pair("payload_column"@, JsonView::Text(e.payload_column)),
        event_object(e).contains_pair(
            "schema_hash"@,
            JsonView::Text("0x"@ + text::hex_digits(e.schema_hash as nat, 16)),
        ),
        event_object(e)["fields"@] matches JsonView::List(list) && list.len() == e.fields.len() && (
        0 <= i < list.len() ==> list[i] == field_object(e.fields[i])),
{
    reveal_strlit("full_name");
    reveal_strlit("payload_column");
    reveal_strlit("schema_hash");
    reveal_strlit("fields");
    assert("full_name"@.len() == 9 && "payload_column"@.len() == 14 && "schema_hash"@.len() == 11
        && "fields"@.len() == 6);
}

/// The table is told with the columns of every event first, then those that
/// each event has of its own, in their order.
pub proof fn law_the_table_is_told_whole(events: Seq<ArrowEventView>, i: int)
    ensures
        model_object(events).contains_pair("table"@, JsonView::Text("obs_events"@)),
        model_object(events).contains_pair("envelope"@, JsonView::List(envelope_objects())),
        model_object(events).contains_pair(
            "labels"@,
            JsonView::Object(typed_object("labels"@, "map<dict_utf8, utf8>"@)),
        ),
        model_object(events).contains_pair(
            "attrs"@,
            JsonView::Object(typed_object("attrs"@, "map<dict_utf8, utf8>"@)),
        ),
        model_object(events).contains_pair(
            "payload_proto"@,
            JsonView::Object(typed_object("payload_proto"@, "binary"@)),
        ),
        model_object(events)["events"@] matches JsonView::List(list) && list.len() == events.len()
            && (0 <= i < list.len() ==> list[i] == event_object(events[i])),
{
    reveal_strlit("table");
    reveal_strlit("envelope");
    reveal_strlit("labels");
    reveal_strlit("attrs");
    reveal_strlit("payload_proto");
    reveal_strlit("events");
    assert("table"@[0] == 't' && "attrs"@[0] == 'a');
    assert("labels"@[0] == 'l' && "events"@[0] == 'e');
    assert("envelope"@.len() == 8 && "payload_proto"@.len() == 13);
}

/// A column of every event is told by its name and its type, in the order of the
/// columns.
pub proof fn law_shared_columns_are_told_in_order(name: Seq<char>, ty: Seq<char>, i: int)
    ensures
        typed_object(name, ty).contains_pair("name"@, JsonView::Text(name)),
        typed_object(name, ty).contains_pair("type"@, JsonView::Text(ty)),
        envelope_objects().len() == 13,
        0 <= i < 13 ==> envelope_objects()[i] == typed_object(
            ENVELOPE_COLUMNS@[i].0@,
            ENVELOPE_COLUMNS@[i].1.name(),
        ),
{
    reveal_strlit("name");
    reveal_strlit("type");
    assert("name"@[0] != "type"@[0]);
}

} // verus!
