//! The emit sites that a process has seen, by their identifiers.

use std::collections::hash_map::RandomState;

use dashmap::DashMap;
use vstd::prelude::*;
use vstd::slice::slice_subrange;
use vstd::utf8::*;

use crate::digest::{self, digest, first_number, push_number};
use crate::types::Severity;

verus! {

// ---------------------------------------------------------------------------
// Identifiers.
// ---------------------------------------------------------------------------
/// What kind of emit site it is.
#[derive(Debug, Clone, Copy, PartialEq, Eq, Hash, Structural)]
pub enum CallsiteSource {
    /// An event of `tracing`.
    TracingEvent,
    /// A span of `tracing`.
    TracingSpan,
    /// A forensic emit.
    Forensic,
    /// A function that is watched.
    Instrument,
}

impl CallsiteSource {
    /// The name of the kind.
    pub open spec fn name(self) -> Seq<char> {
        match self {
            CallsiteSource::TracingEvent => "TRACING_EVENT"@,
            CallsiteSource::TracingSpan => "TRACING_SPAN"@,
            CallsiteSource::Forensic => "FORENSIC"@,
            CallsiteSource::Instrument => "INSTRUMENT"@,
        }
    }

    /// The number of the kind.
    pub open spec fn number(self) -> u8 {
        match self {
            CallsiteSource::TracingEvent => 1,
            CallsiteSource::TracingSpan => 2,
            CallsiteSource::Forensic => 3,
            CallsiteSource::Instrument => 4,
        }
    }

    /// The name of the kind.
    #[must_use]
    pub fn as_str(&self) -> (r: &'static str)
        ensures
            r@ == self.name(),
    {
        match self {
            CallsiteSource::TracingEvent => "TRACING_EVENT",
            CallsiteSource::TracingSpan => "TRACING_SPAN",
            CallsiteSource::Forensic => "FORENSIC",
            CallsiteSource::Instrument => "INSTRUMENT",
        }
    }

    /// The number of the kind.
    pub fn as_u8(&self) -> (r: u8)
        ensures
            r == self.number(),
    {
        match self {
            CallsiteSource::TracingEvent => 1,
            CallsiteSource::TracingSpan => 2,
            CallsiteSource::Forensic => 3,
            CallsiteSource::Instrument => 4,
        }
    }
}

/// The names of fields, each with a zero behind it.
pub open spec fn names_bytes(names: Seq<&str>) -> Seq<u8>
    decreases names.len(),
{
    if names.len() == 0 {
        Seq::empty()
    } else {
        names_bytes(names.drop_last()) + encode_utf8(names.last()@).push(0)
    }
}

/// What the identifier of an emit site is made from.
pub open spec fn site_bytes(
    source: CallsiteSource,
    target: Seq<char>,
    file: Seq<char>,
    line: Option<u32>,
    level: Severity,
    names: Seq<&str>,
    template: Seq<char>,
) -> Seq<u8> {
    let line = match line {
        Some(n) => n as nat,
        None => 0,
    };
    seq![source.number()] + encode_utf8(target) + encode_utf8(file) + digest::number_bytes(
        line,
        4,
    ).push(level.rank() as u8) + names_bytes(names) + encode_utf8(template)
}

/// An identifier other than zero, for a hash whose first eight bytes are zero:
/// the next eight, with the lowest bit set.
pub open spec fn perturbed(hash: Seq<u8>) -> u64 {
    if hash.len() >= 16 {
        digest::low_number(hash.subrange(8, 16)) | 1
    } else {
        1
    }
}

/// The identifier that a hash gives.
pub open spec fn id_of_hash(hash: Seq<u8>) -> u64 {
    if digest::low_number(hash) != 0 {
        digest::low_number(hash)
    } else {
        perturbed(hash)
    }
}

/// An identifier is never zero.
pub proof fn law_id_is_never_zero(hash: Seq<u8>)
    ensures
        perturbed(hash) != 0,
        id_of_hash(hash) != 0,
{
    let n = digest::low_number(hash.subrange(8, 16));
    assert(n | 1 != 0) by (bit_vector);
}

/// An identifier other than zero, for a hash whose first eight bytes are zero.
#[must_use]
pub fn perturb_to_nonzero(blake_bytes: &[u8]) -> (r: u64)
    ensures
        r == perturbed(blake_bytes@),
        r != 0,
{
    proof {
        law_id_is_never_zero(blake_bytes@);
    }
    if blake_bytes.len() < 16 {
        return 1;
    }
    first_number(slice_subrange(blake_bytes, 8, 16)) | 1
}

/// The identifier that a hash gives.
pub fn id_from_hash(hash: &[u8]) -> (r: u64)
    requires
        hash@.len() >= 8,
    ensures
        r == id_of_hash(hash@),
        r != 0,
{
    proof {
        law_id_is_never_zero(hash@);
    }
    let id: u64 = first_number(hash);
    if id != 0 {
        id
    } else {
        perturb_to_nonzero(hash)
    }
}

/// Appends the bytes of a text.
fn push_text(out: &mut Vec<u8>, s: &str)
    ensures
        final(out)@ == old(out)@ + encode_utf8(s@),
{
    out.extend_from_slice(s.as_bytes());
    proof {
        assert(out@ =~= old(out)@ + encode_utf8(s@));
    }
}

/// The identifier of an emit site, which is never zero.
#[must_use]
pub fn callsite_id(
    source: CallsiteSource,
    target: &str,
    file: &str,
    line: Option<u32>,
    level: Severity,
    field_names: &[&str],
    template: &str,
) -> (r: u64)
    ensures
        r == id_of_hash(
            digest::blake3_digest(
                site_bytes(source, target@, file@, line, level, field_names@, template@),
            ),
        ),
        r != 0,
{
    let mut input: Vec<u8> = Vec::new();
    input.push(source.as_u8());
    push_text(&mut input, target);
    push_text(&mut input, file);
    let number: u32 = match line {
        Some(n) => n,
        None => 0,
    };
    push_number(&mut input, number as u64, 4);
    input.push(level.level());
    let ghost head = seq![source.number()] + encode_utf8(target@) + encode_utf8(file@)
        + digest::number_bytes(number as nat, 4).push(level.rank() as u8);
    proof {
        assert(input@ =~= head);
        assert(field_names@.take(0) =~= Seq::<&str>::empty());
        assert(input@ =~= head + names_bytes(field_names@.take(0)));
    }
    let mut i: usize = 0;
    while i < field_names.len()
        invariant
            i <= field_names@.len(),
            input@ == head + names_bytes(field_names@.take(i as int)),
        decreases field_names@.len() - i,
    {
        push_text(&mut input, field_names[i]);
        input.push(0);
        proof {
            assert(field_names@.take(i + 1).drop_last() =~= field_names@.take(i as int));
            assert(input@ =~= head + names_bytes(field_names@.take(i + 1)));
        }
        i = i + 1;
    }
    push_text(&mut input, template);
    proof {
        assert(field_names@.take(i as int) =~= field_names@);
        assert(input@ == site_bytes(
            source,
            target@,
            file@,
            line,
            level,
            field_names@,
            template@,
        ));
    }
    let hash = digest(input.as_slice());
    id_from_hash(hash.as_slice())
}

// ---------------------------------------------------------------------------
// The registry.
// ---------------------------------------------------------------------------
/// What is known of an emit site.
#[derive(Debug)]
pub struct CallsiteRecord {
    /// The identifier.
    pub id: u64,
    /// The kind.
    pub source: CallsiteSource,
    /// What it is about.
    pub target: String,
    /// What it is called.
    pub name: String,
    /// The module that it stands in.
    pub module: String,
    /// The file that it stands in.
    pub file: String,
    /// The line that it stands on, where that is known.
    pub line: Option<u32>,
    /// The severity.
    pub sev: Severity,
    /// The names of the fields.
    pub field_names: Vec<String>,
    /// The text that values are put into.
    pub template: String,
    /// When it was registered, in nanoseconds since 1970.
    pub registered_ns: u64,
    /// How many events came from it since it was last told of.
    pub events_since_refresh: u64,
}

impl CallsiteRecord {
    /// Starts the count of the events over.
    pub fn reset_count(&mut self)
        ensures
            *final(self) == (CallsiteRecord { events_since_refresh: 0, ..*old(self) }),
    {
        self.events_since_refresh = 0;
    }

    /// Counts an event. Says how many there were.
    pub fn observe(&mut self) -> (n: u64)
        requires
            old(self).events_since_refresh < u64::MAX,
        ensures
            n == old(self).events_since_refresh + 1,
            *final(self) == (CallsiteRecord { events_since_refresh: n, ..*old(self) }),
    {
        self.events_since_refresh = self.events_since_refresh + 1;
        self.events_since_refresh
    }
}

/// `dashmap::DashMap`, a table that threads can share.
#[verifier::external_type_specification]
#[verifier::external_body]
#[verifier::reject_recursive_types(K)]
#[verifier::reject_recursive_types(V)]
#[verifier::reject_recursive_types(S)]
pub struct ExDashMap<K, V, S>(dashmap::DashMap<K, V, S>);

/// What a table of places holds.
pub uninterp spec fn table_entries(table: DashMap<u64, usize, RandomState>) -> Map<u64, usize>;

/// The entries of a table that holds nothing.
pub open spec fn no_places() -> Map<u64, usize> {
    Map::empty()
}

/// `dashmap::DashMap::new`: a table that holds nothing.
#[verifier::external_body]
fn new_table() -> (r: DashMap<u64, usize, RandomState>)
    ensures
        table_entries(r) == no_places(),
{
    DashMap::new()
}

/// `dashmap::DashMap::get`: the value of a key, where there is one.
#[verifier::external_body]
fn place_of(table: &DashMap<u64, usize, RandomState>, id: u64) -> (r: Option<usize>)
    ensures
        match r {
            Some(n) => table_entries(*table).contains_pair(id, n),
            None => !table_entries(*table).contains_key(id),
        },
{
    table.get(&id).map(|entry| *entry.value())
}

/// `dashmap::DashMap::insert`: gives a key a value, in place of the one it may
/// have had; the others stay as they are.
#[verifier::external_body]
fn set_place(table: &mut DashMap<u64, usize, RandomState>, id: u64, place: usize)
    ensures
        table_entries(*final(table)) == table_entries(*old(table)).insert(id, place),
{
    table.insert(id, place);
}

/// The emit sites that a process has seen.
#[derive(Debug)]
pub struct ObsCallsiteRegistry {
    by_id: DashMap<u64, usize, RandomState>,
    records: Vec<CallsiteRecord>,
}

/// Whether the table says where each record stands.
pub open spec fn in_step(table: Map<u64, usize>, records: Seq<CallsiteRecord>) -> bool {
    &&& forall|id: u64| #[trigger]
        table.contains_key(id) ==> table[id] < records.len() && records[table[id] as int].id == id
    &&& forall|i: int|
        0 <= i < records.len() ==> table.contains_pair(
            (#[trigger] records[i]).id,
            i as usize,
        )
    &&& records.len() <= usize::MAX
}

/// The records, by their identifiers.
pub open spec fn records_by_id(table: Map<u64, usize>, records: Seq<CallsiteRecord>) -> Map<
    u64,
    CallsiteRecord,
> {
    table.map_values(|place: usize| records[place as int])
}

/// The records, with the count of the events of one site set.
pub open spec fn counted(records: Map<u64, CallsiteRecord>, id: u64, n: u64) -> Map<
    u64,
    CallsiteRecord,
> {
    records.insert(id, CallsiteRecord { events_since_refresh: n, ..records[id] })
}

/// The records with one more, unless its identifier is known.
pub open spec fn registered(records: Map<u64, CallsiteRecord>, record: CallsiteRecord) -> Map<
    u64,
    CallsiteRecord,
> {
    if records.contains_key(record.id) {
        records
    } else {
        records.insert(record.id, record)
    }
}

impl View for ObsCallsiteRegistry {
    type V = Map<u64, CallsiteRecord>;

    closed spec fn view(&self) -> Map<u64, CallsiteRecord> {
        records_by_id(table_entries(self.by_id), self.records@)
    }
}

impl Default for ObsCallsiteRegistry {
    fn default() -> (r: Self)
        ensures
            r@ == Map::<u64, CallsiteRecord>::empty(),
    {
        ObsCallsiteRegistry::new()
    }
}

impl ObsCallsiteRegistry {
    #[verifier::type_invariant]
    spec fn well_formed(self) -> bool {
        in_step(table_entries(self.by_id), self.records@)
    }

    /// A registry that knows no emit site.
    #[must_use]
    pub fn new() -> (r: Self)
        ensures
            r@ == Map::<u64, CallsiteRecord>::empty(),
    {
        let r = ObsCallsiteRegistry { by_id: new_table(), records: Vec::new() };
        proof {
            assert(r@ =~= Map::<u64, CallsiteRecord>::empty());
        }
        r
    }

    /// How many emit sites it knows.
    #[must_use]
    pub fn len(&self) -> (n: usize)
        ensures
            n == self@.dom().len(),
            self@.dom().finite(),
    {
        proof {
            use_type_invariant(self);
            lemma_count(table_entries(self.by_id), self.records@);
            assert(self@.dom() =~= table_entries(self.by_id).dom());
        }
        self.records.len()
    }

    /// Whether it knows no emit site.
    #[must_use]
    pub fn is_empty(&self) -> (r: bool)
        ensures
            r == (self@ == Map::<u64, CallsiteRecord>::empty()),
    {
        proof {
            use_type_invariant(self);
            let table = table_entries(self.by_id);
            if self.records@.len() == 0 {
                assert forall|id: u64| !self@.contains_key(id) by {
                    if table.contains_key(id) {
                        assert(table[id] < self.records@.len());
                    }
                }
                assert(self@ =~= Map::<u64, CallsiteRecord>::empty());
            } else {
                assert(self@.contains_key(self.records@[0].id));
            }
        }
        self.records.len() == 0
    }

    /// Registers an emit site, unless one with its identifier is known. Gives
    /// the record that is known then, and whether it is the new one.
    pub fn insert_if_absent(&mut self, record: CallsiteRecord) -> (r: (&CallsiteRecord, bool))
        ensures
            r.1 == !old(self)@.contains_key(record.id),
            final(self)@ == (if r.1 {
                old(self)@.insert(record.id, record)
            } else {
                old(self)@
            }),
            *r.0 == final(self)@[record.id],
            final(self)@ == registered(old(self)@, record),
    {
        proof {
            use_type_invariant(&*self);
        }
        let id: u64 = record.id;
        if let Some(place) = place_of(&self.by_id, id) {
            return (&self.records[place], false);
        }
        let ghost table = table_entries(self.by_id);
        let ghost list = self.records@;
        let ghost new = record;
        let mut whole = ObsCallsiteRegistry::new();
        std::mem::swap(&mut whole, self);
        let ObsCallsiteRegistry { mut by_id, mut records } = whole;
        let place: usize = records.len();
        records.push(record);
        assert(place + 1 == records.len());
        set_place(&mut by_id, id, place);
        proof {
            lemma_added(table, list, new);
        }
        *self = ObsCallsiteRegistry { by_id, records };
        (&self.records[place], true)
    }

    /// The record with an identifier.
    #[must_use]
    pub fn get(&self, id: u64) -> (r: Option<&CallsiteRecord>)
        ensures
            match r {
                Some(record) => self@.contains_pair(id, *record),
                None => !self@.contains_key(id),
            },
    {
        proof {
            use_type_invariant(self);
        }
        match place_of(&self.by_id, id) {
            Some(place) => Some(&self.records[place]),
            None => None,
        }
    }

    /// Counts an event of a site. Says how many there were, where the site is
    /// known.
    pub fn observe(&mut self, id: u64) -> (r: Option<u64>)
        requires
            old(self)@.contains_key(id) ==> old(self)@[id].events_since_refresh < u64::MAX,
        ensures
            match r {
                Some(n) => {
                    &&& old(self)@.contains_key(id)
                    &&& n == old(self)@[id].events_since_refresh + 1
                    &&& final(self)@ == counted(old(self)@, id, n)
                },
                None => !old(self)@.contains_key(id) && final(self)@ == old(self)@,
            },
    {
        proof {
            use_type_invariant(&*self);
        }
        let place: usize = match place_of(&self.by_id, id) {
            Some(place) => place,
            None => return None,
        };
        let n: u64 = self.records[place].events_since_refresh + 1;
        self.set_count(id, place, n);
        Some(n)
    }

    /// Starts the count of the events of a site over, where it is known.
    pub fn reset_count(&mut self, id: u64)
        ensures
            final(self)@ == (if old(self)@.contains_key(id) {
                counted(old(self)@, id, 0)
            } else {
                old(self)@
            }),
    {
        proof {
            use_type_invariant(&*self);
        }
        if let Some(place) = place_of(&self.by_id, id) {
            self.set_count(id, place, 0);
        }
    }

    fn set_count(&mut self, id: u64, place: usize, n: u64)
        requires
            table_entries(old(self).by_id).contains_pair(id, place),
            place < old(self).records@.len(),
        ensures
            final(self)@ == counted(old(self)@, id, n),
    {
        proof {
            use_type_invariant(&*self);
        }
        let ghost before = self@;
        let ghost list = self.records@;
        let mut whole = ObsCallsiteRegistry::new();
        std::mem::swap(&mut whole, self);
        let ObsCallsiteRegistry { by_id, mut records } = whole;
        let mut record = records.remove(place);
        record.events_since_refresh = n;
        let ghost new = record;
        records.insert(place, record);
        proof {
            let table = table_entries(by_id);
            assert(records@ =~= list.update(place as int, new));
            assert forall|k: u64| #[trigger] table.contains_key(k) && k != id implies table[k]
                != place by {
                assert(list[table[k] as int].id == k);
            }
            assert(in_step(table, records@)) by {
                assert forall|i: int| 0 <= i < records@.len() implies table.contains_pair(
                    (#[trigger] records@[i]).id,
                    i as usize,
                ) by {
                    assert(table.contains_pair(list[i].id, i as usize));
                }
            }
            assert(records_by_id(table, records@) =~= counted(before, id, n));
        }
        *self = ObsCallsiteRegistry { by_id, records };
    }

    /// The records, each of them once.
    #[must_use]
    pub fn snapshot(&self) -> (r: &Vec<CallsiteRecord>)
        ensures
            forall|i: int|
                0 <= i < r@.len() ==> self@.contains_pair((#[trigger] r@[i]).id, r@[i]),
            forall|id: u64| #[trigger]
                self@.contains_key(id) ==> exists|i: int|
                    0 <= i < r@.len() && (#[trigger] r@[i]).id == id,
            forall|i: int, j: int|
                0 <= i < j < r@.len() ==> (#[trigger] r@[i]).id != (#[trigger] r@[j]).id,
    {
        proof {
            use_type_invariant(self);
            let table = table_entries(self.by_id);
            assert forall|id: u64| #[trigger] self@.contains_key(id) implies exists|i: int|
                0 <= i < self.records@.len() && (#[trigger] self.records@[i]).id == id by {
                assert(self.records@[table[id] as int].id == id);
            }
        }
        &self.records
    }
}

/// A record is added at the end.
proof fn lemma_added(table: Map<u64, usize>, list: Seq<CallsiteRecord>, new: CallsiteRecord)
    requires
        in_step(table, list),
        !table.contains_key(new.id),
        list.len() < usize::MAX,
    ensures
        in_step(table.insert(new.id, list.len() as usize), list.push(new)),
        records_by_id(table.insert(new.id, list.len() as usize), list.push(new)) == records_by_id(
            table,
            list,
        ).insert(new.id, new),
{
    let t = table.insert(new.id, list.len() as usize);
    let l = list.push(new);
    assert forall|id: u64| #[trigger] t.contains_key(id) implies t[id] < l.len()
        && l[t[id] as int].id == id by {
        if id != new.id {
            assert(table.contains_key(id));
        }
    }
    assert forall|i: int| 0 <= i < l.len() implies t.contains_pair(
        (#[trigger] l[i]).id,
        i as usize,
    ) by {
        if i < list.len() {
            assert(table.contains_pair(list[i].id, i as usize));
        }
    }
    assert(records_by_id(t, l) =~= records_by_id(table, list).insert(new.id, new)) by {
        assert forall|id: u64| #[trigger] table.contains_key(id) implies l[table[id] as int]
            == list[table[id] as int] by {}
    }
}

/// There are as many identifiers as records.
proof fn lemma_count(table: Map<u64, usize>, list: Seq<CallsiteRecord>)
    requires
        in_step(table, list),
    ensures
        table.dom().finite(),
        table.dom().len() == list.len(),
    decreases list.len(),
{
    if list.len() == 0 {
        assert forall|id: u64| !table.contains_key(id) by {}
        assert(table.dom() =~= Set::<u64>::empty());
    } else {
        let last = list.last();
        let front = list.drop_last();
        let rest = table.remove(last.id);
        assert(list[list.len() - 1] == last);
        assert forall|id: u64| #[trigger] rest.contains_key(id) implies rest[id] < front.len()
            && front[rest[id] as int].id == id by {
            assert(table.contains_key(id));
            assert(table.contains_pair(last.id, (list.len() - 1) as usize));
        }
        assert forall|i: int| 0 <= i < front.len() implies rest.contains_pair(
            (#[trigger] front[i]).id,
            i as usize,
        ) by {
            assert(front[i] == list[i]);
            assert(table.contains_pair(list[i].id, i as usize));
            assert(table.contains_pair(last.id, (list.len() - 1) as usize));
        }
        lemma_count(rest, front);
        assert(table.dom() =~= rest.dom().insert(last.id));
    }
}

// ---------------------------------------------------------------------------
// What tells emit sites apart.
// ---------------------------------------------------------------------------
/// The kinds have their names and numbers, and no two the same.
pub proof fn law_kinds_are_told_apart(a: CallsiteSource, b: CallsiteSource)
    ensures
        a.number() == b.number() ==> a == b,
        CallsiteSource::TracingEvent.number() == 1,
        CallsiteSource::TracingSpan.number() == 2,
        CallsiteSource::Forensic.number() == 3,
        CallsiteSource::Instrument.number() == 4,
        CallsiteSource::TracingEvent.name() == "TRACING_EVENT"@,
        CallsiteSource::TracingSpan.name() == "TRACING_SPAN"@,
        CallsiteSource::Forensic.name() == "FORENSIC"@,
        CallsiteSource::Instrument.name() == "INSTRUMENT"@,
{
}

proof fn lemma_texts_differ(a: Seq<char>, b: Seq<char>)
    ensures
        encode_utf8(a) == encode_utf8(b) ==> a == b,
{
    encode_utf8_decode_utf8(a);
    encode_utf8_decode_utf8(b);
}

proof fn lemma_same_ends(front: Seq<u8>, a: Seq<u8>, b: Seq<u8>, back: Seq<u8>)
    requires
        front + a + back == front + b + back,
    ensures
        a == b,
{
    let s = front + a + back;
    let t = front + b + back;
    assert(s.len() == t.len());
    assert(a =~= s.subrange(front.len() as int, s.len() - back.len()));
    assert(b =~= t.subrange(front.len() as int, t.len() - back.len()));
}

/// Sites that differ in one thing have different identities: in the kind, the
/// target, the file, the line, the level or the template.
pub proof fn law_every_part_of_a_site_counts(
    source: CallsiteSource,
    target: Seq<char>,
    file: Seq<char>,
    line: Option<u32>,
    level: Severity,
    names: Seq<&str>,
    template: Seq<char>,
    source2: CallsiteSource,
    target2: Seq<char>,
    file2: Seq<char>,
    line2: Option<u32>,
    level2: Severity,
    template2: Seq<char>,
)
    ensures
        site_bytes(source, target, file, line, level, names, template) == site_bytes(
            source2,
            target,
            file,
            line,
            level,
            names,
            template,
        ) ==> source == source2,
        site_bytes(source, target, file, line, level, names, template) == site_bytes(
            source,
            target2,
            file,
            line,
            level,
            names,
            template,
        ) ==> target == target2,
        site_bytes(source, target, file, line, level, names, template) == site_bytes(
            source,
            target,
            file2,
            line,
            level,
            names,
            template,
        ) ==> file == file2,
        site_bytes(source, target, file, line, level, names, template) == site_bytes(
            source,
            target,
            file,
            line2,
            level,
            names,
            template,
        ) ==> (line is Some && line2 is Some ==> line == line2),
        site_bytes(source, target, file, line, level, names, template) == site_bytes(
            source,
            target,
            file,
            line,
            level2,
            names,
            template,
        ) ==> level == level2,
        site_bytes(source, target, file, line, level, names, template) == site_bytes(
            source,
            target,
            file,
            line,
            level,
            names,
            template2,
        ) ==> template == template2,
{
    let n = match line {
        Some(n) => n as nat,
        None => 0,
    };
    let n2 = match line2 {
        Some(n) => n as nat,
        None => 0,
    };
    let k = seq![source.number()];
    let k2 = seq![source2.number()];
    let t = encode_utf8(target);
    let t2 = encode_utf8(target2);
    let f = encode_utf8(file);
    let f2 = encode_utf8(file2);
    let l = digest::number_bytes(n, 4);
    let l2 = digest::number_bytes(n2, 4);
    let v = seq![level.rank() as u8];
    let v2 = seq![level2.rank() as u8];
    let r = names_bytes(names);
    let m = encode_utf8(template);
    let m2 = encode_utf8(template2);
    lemma_parts(k, t, f, l, level.rank() as u8, r, m);
    let s = site_bytes(source, target, file, line, level, names, template);
    if s == site_bytes(source2, target, file, line, level, names, template) {
        lemma_parts(k2, t, f, l, level.rank() as u8, r, m);
        lemma_same_ends(Seq::empty(), k, k2, t + f + l + v + r + m);
        assert(k[0] == k2[0]);
    }
    if s == site_bytes(source, target2, file, line, level, names, template) {
        lemma_parts(k, t2, f, l, level.rank() as u8, r, m);
        lemma_same_ends(k, t, t2, f + l + v + r + m);
        lemma_texts_differ(target, target2);
    }
    if s == site_bytes(source, target, file2, line, level, names, template) {
        lemma_parts(k, t, f2, l, level.rank() as u8, r, m);
        lemma_same_ends(k + t, f, f2, l + v + r + m);
        lemma_texts_differ(file, file2);
    }
    if s == site_bytes(source, target, file, line2, level, names, template) {
        lemma_parts(k, t, f, l2, level.rank() as u8, r, m);
        lemma_same_ends(k + t + f, l, l2, v + r + m);
        digest::law_four_bytes_tell_numbers_apart(n as u32, n2 as u32);
    }
    if s == site_bytes(source, target, file, line, level2, names, template) {
        lemma_parts(k, t, f, l, level2.rank() as u8, r, m);
        lemma_same_ends(k + t + f + l, v, v2, r + m);
        assert(v[0] == v2[0]);
    }
    if s == site_bytes(source, target, file, line, level, names, template2) {
        lemma_parts(k, t, f, l, level.rank() as u8, r, m2);
        lemma_same_ends(k + t + f + l + v + r, m, m2, Seq::empty());
        lemma_texts_differ(template, template2);
    }
}

/// Seven runs of bytes, each with what stands before and behind it.
proof fn lemma_parts(
    k: Seq<u8>,
    t: Seq<u8>,
    f: Seq<u8>,
    l: Seq<u8>,
    b: u8,
    r: Seq<u8>,
    m: Seq<u8>,
)
    ensures
        ({
            let s = k + t + f + l.push(b) + r + m;
            let v = seq![b];
            &&& s == Seq::<u8>::empty() + k + (t + f + l + v + r + m)
            &&& s == k + t + (f + l + v + r + m)
            &&& s == (k + t) + f + (l + v + r + m)
            &&& s == (k + t + f) + l + (v + r + m)
            &&& s == (k + t + f + l) + v + (r + m)
            &&& s == (k + t + f + l + v + r) + m + Seq::<u8>::empty()
        }),
{
    let s = k + t + f + l.push(b) + r + m;
    let v = seq![b];
    assert(s =~= Seq::<u8>::empty() + k + (t + f + l + v + r + m));
    assert(s =~= k + t + (f + l + v + r + m));
    assert(s =~= (k + t) + f + (l + v + r + m));
    assert(s =~= (k + t + f) + l + (v + r + m));
    assert(s =~= (k + t + f + l) + v + (r + m));
    assert(s =~= (k + t + f + l + v + r) + m + Seq::<u8>::empty());
}

/// The name of each field counts, with a zero behind it.
pub proof fn law_every_name_counts(names: Seq<&str>, a: &str, b: &str)
    ensures
        names_bytes(names.push(a)) == names_bytes(names) + encode_utf8(a@).push(0),
        names_bytes(names.push(a)) == names_bytes(names.push(b)) ==> a@ == b@,
{
    assert(names.push(a).drop_last() =~= names);
    assert(names.push(b).drop_last() =~= names);
    let front = names_bytes(names);
    let x = encode_utf8(a@);
    let y = encode_utf8(b@);
    if front + x.push(0) == front + y.push(0) {
        assert(front + x.push(0) =~= front + x + seq![0u8]);
        assert(front + y.push(0) =~= front + y + seq![0u8]);
        lemma_same_ends(front, x, y, seq![0u8]);
        lemma_texts_differ(a@, b@);
    }
}

/// An identifier is the first eight bytes of the hash where these are not all
/// zero, and otherwise the next eight with the lowest bit set.
pub proof fn law_an_identifier_is_taken_from_the_hash(hash: Seq<u8>)
    ensures
        digest::low_number(hash) != 0 ==> id_of_hash(hash) == digest::low_number(hash),
        digest::low_number(hash) == 0 && hash.len() >= 16 ==> {
            &&& id_of_hash(hash) % 2 == 1
            &&& id_of_hash(hash) / 2 == digest::low_number(hash.subrange(8, 16)) / 2
        },
        digest::low_number(hash) == 0 && hash.len() < 16 ==> id_of_hash(hash) == 1,
{
    let n = digest::low_number(hash.subrange(8, 16));
    assert((n | 1) % 2 == 1 && (n | 1) / 2 == n / 2) by (bit_vector);
}

/// Counting an event of a site changes its count and nothing else.
pub proof fn law_counting_changes_the_count(
    records: Map<u64, CallsiteRecord>,
    id: u64,
    n: u64,
    other: u64,
)
    requires
        records.contains_key(id),
    ensures
        counted(records, id, n)[id].events_since_refresh == n,
        counted(records, id, n)[id] == (CallsiteRecord { events_since_refresh: n, ..records[id] }),
        other != id ==> counted(records, id, n)[other] == records[other],
        counted(records, id, n).dom() == records.dom(),
{
    assert(counted(records, id, n).dom() =~= records.dom());
}

/// The first record of an identifier stays, whatever is registered after it.
pub proof fn law_the_first_record_stays(
    records: Map<u64, CallsiteRecord>,
    first: CallsiteRecord,
    second: CallsiteRecord,
    other: u64,
)
    requires
        first.id == second.id,
    ensures
        registered(records, first).contains_key(first.id),
        !records.contains_key(first.id) ==> registered(records, first)[first.id] == first,
        registered(registered(records, first), second) == registered(records, first),
        records.contains_key(other) ==> registered(records, first).contains_pair(
            other,
            records[other],
        ),
        other != first.id ==> registered(records, first).contains_key(other)
            == records.contains_key(other),
{
}

} // verus!
