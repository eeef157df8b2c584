//! Schemas, and what they make of a payload.

pub mod arrow;
pub mod callsite_registry;
pub mod erased;
pub mod payload_decode;
pub mod scrubbed;
pub mod scrubber;

use std::collections::HashMap;

use vstd::prelude::*;
use vstd::std_specs::hash::*;

pub use erased::{DecodeError, EventSchemaErased, SchemaView, ScrubError, Sealed};
pub use scrubbed::ScrubbedEnvelope;
pub use scrubber::scrub_payload;

use crate::envelope::ObsEnvelope;
use crate::text::text_eq;
use crate::text_map::{self, TextMap};

verus! {

broadcast use group_hash_axioms;

/// The last of the schemas with this name.
pub open spec fn last_named(schemas: Seq<SchemaView>, name: Seq<char>) -> Option<int>
    decreases schemas.len(),
{
    if schemas.len() == 0 {
        None
    } else if schemas.last().full_name == name {
        Some(schemas.len() - 1)
    } else {
        last_named(schemas.drop_last(), name)
    }
}

/// The last of the schemas with this hash.
pub open spec fn last_hashed(schemas: Seq<SchemaView>, hash: u64) -> Option<int>
    decreases schemas.len(),
{
    if schemas.len() == 0 {
        None
    } else if schemas.last().schema_hash == hash {
        Some(schemas.len() - 1)
    } else {
        last_hashed(schemas.drop_last(), hash)
    }
}

/// The schema of an event: by the hash, else by the name.
pub open spec fn schema_for(schemas: Seq<SchemaView>, hash: u64, name: Seq<char>) -> Option<
    SchemaView,
> {
    match last_hashed(schemas, hash) {
        Some(i) => Some(schemas[i]),
        None => match last_named(schemas, name) {
            Some(i) => Some(schemas[i]),
            None => None,
        },
    }
}

/// The first of the schemas with this hash and another name.
pub open spec fn first_clash(schemas: Seq<SchemaView>, hash: u64, name: Seq<char>) -> Option<int>
    decreases schemas.len(),
{
    if schemas.len() == 0 {
        None
    } else if schemas[0].schema_hash == hash && schemas[0].full_name != name {
        Some(0)
    } else {
        match first_clash(schemas.skip(1), hash, name) {
            Some(i) => Some(i + 1),
            None => None,
        }
    }
}

/// The schemas that share their hash with an earlier one of another name: the
/// hash, the name of the first such one, and their own.
pub open spec fn clashes(schemas: Seq<SchemaView>) -> Seq<(u64, Seq<char>, Seq<char>)>
    decreases schemas.len(),
{
    if schemas.len() == 0 {
        Seq::empty()
    } else {
        let front = schemas.drop_last();
        let last = schemas.last();
        match first_clash(front, last.schema_hash, last.full_name) {
            Some(i) => clashes(front).push((last.schema_hash, front[i].full_name, last.full_name)),
            None => clashes(front),
        }
    }
}

/// The schemas that are known, by name and by hash. A schema takes the place
/// of an earlier one of the same name or hash.
#[derive(Debug)]
pub struct SchemaRegistry {
    schemas: Vec<EventSchemaErased>,
    by_name: TextMap<usize>,
    by_hash: HashMap<u64, usize>,
}

/// What schemas say.
pub open spec fn schema_views(list: Seq<EventSchemaErased>) -> Seq<SchemaView> {
    list.map_values(|s: EventSchemaErased| s@)
}

impl View for SchemaRegistry {
    type V = Seq<SchemaView>;

    closed spec fn view(&self) -> Seq<SchemaView> {
        schema_views(self.schemas@)
    }
}

spec fn indexed(
    schemas: Seq<SchemaView>,
    by_name: Map<Seq<char>, usize>,
    by_hash: Map<u64, usize>,
) -> bool {
    &&& forall|name: Seq<char>|
        #![trigger by_name.contains_key(name)]
        #![trigger last_named(schemas, name)]
        match last_named(schemas, name) {
            Some(i) => by_name.contains_pair(name, i as usize) && 0 <= i <= usize::MAX,
            None => !by_name.contains_key(name),
        }
    &&& forall|hash: u64|
        #![trigger by_hash.contains_key(hash)]
        #![trigger last_hashed(schemas, hash)]
        match last_hashed(schemas, hash) {
            Some(i) => by_hash.contains_pair(hash, i as usize) && 0 <= i <= usize::MAX,
            None => !by_hash.contains_key(hash),
        }
}

proof fn lemma_last(schemas: Seq<SchemaView>, name: Seq<char>, hash: u64)
    ensures
        last_named(schemas, name) matches Some(i) ==> 0 <= i < schemas.len()
            && schemas[i].full_name == name,
        last_hashed(schemas, hash) matches Some(i) ==> 0 <= i < schemas.len()
            && schemas[i].schema_hash == hash,
    decreases schemas.len(),
{
    if schemas.len() > 0 {
        lemma_last(schemas.drop_last(), name, hash);
    }
}

impl Clone for SchemaRegistry {
    fn clone(&self) -> (r: Self)
        ensures
            r@ == self@,
    {
        let mut list: Vec<EventSchemaErased> = Vec::new();
        let mut i: usize = 0;
        while i < self.schemas.len()
            invariant
                i <= self.schemas@.len(),
                schema_views(list@) =~= schema_views(self.schemas@).take(i as int),
            decreases self.schemas@.len() - i,
        {
            let s = self.schemas[i].clone();
            let ghost was = list@;
            let ghost new = s@;
            list.push(s);
            proof {
                assert(schema_views(list@) =~= schema_views(was).push(new));
            }
            i = i + 1;
        }
        proof {
            assert(schema_views(list@) =~= self@);
        }
        SchemaRegistry::from_schemas(list)
    }
}

impl SchemaRegistry {
    #[verifier::type_invariant]
    spec fn well_formed(self) -> bool {
        indexed(self@, self.by_name@, self.by_hash@)
    }

    /// A registry of these schemas.
    pub fn from_schemas(list: Vec<EventSchemaErased>) -> (r: Self)
        ensures
            r@ == schema_views(list@),
    {
        let mut by_name: TextMap<usize> = TextMap::new();
        let mut by_hash: HashMap<u64, usize> = HashMap::new();
        let ghost views = schema_views(list@);
        let mut i: usize = 0;
        proof {
            assert(views.take(0) =~= Seq::<SchemaView>::empty());
        }
        while i < list.len()
            invariant
                i <= list@.len(),
                views == schema_views(list@),
                indexed(views.take(i as int), by_name@, by_hash@),
            decreases list@.len() - i,
        {
            let ghost was_names = by_name@;
            let ghost was_hashes = by_hash@;
            let ghost name = views[i as int].full_name;
            let ghost hash = views[i as int].schema_hash;
            by_name.insert(list[i].full_name().to_string(), i);
            by_hash.insert(list[i].schema_hash(), i);
            proof {
                assert(views.take(i + 1).drop_last() =~= views.take(i as int));
                assert(views.take(i + 1).last() == views[i as int]);
                assert(by_name@ == was_names.insert(name, i));
                assert(by_hash@ == was_hashes.insert(hash, i));
            }
            i = i + 1;
        }
        proof {
            assert(views.take(i as int) =~= views);
        }
        SchemaRegistry { schemas: list, by_name, by_hash }
    }

    /// A registry of no schemas.
    #[must_use]
    pub fn empty() -> (r: Self)
        ensures
            r@ == Seq::<SchemaView>::empty(),
    {
        let list: Vec<EventSchemaErased> = Vec::new();
        proof {
            assert(schema_views(list@) =~= Seq::<SchemaView>::empty());
        }
        SchemaRegistry::from_schemas(list)
    }

    /// The schema of an envelope: by the hash, else by the name.
    #[must_use]
    pub fn lookup(&self, env: &ObsEnvelope) -> (r: Option<&EventSchemaErased>)
        ensures
            match schema_for(self@, env@.schema_hash, env@.full_name) {
                Some(s) => r matches Some(schema) && schema@ == s,
                None => r is None,
            },
    {
        proof {
            use_type_invariant(self);
            lemma_last(self@, env@.full_name, env@.schema_hash);
            let h = last_hashed(self@, env@.schema_hash);
            let n = last_named(self@, env@.full_name);
        }
        if let Some(i) = self.by_hash.get(&env.schema_hash) {
            return Some(&self.schemas[*i]);
        }
        if let Some(i) = self.by_name.get(env.full_name.as_str()) {
            return Some(&self.schemas[*i]);
        }
        None
    }

    /// How many names there are.
    #[must_use]
    pub fn len(&self) -> (n: usize)
        ensures
            n == names_of(self@).len(),
            n == 0 <==> self@.len() == 0,
    {
        proof {
            use_type_invariant(self);
            lemma_names(self@, self.by_name@, self.by_hash@);
        }
        self.by_name.len()
    }

    /// The schemas that share their hash with an earlier one of another name:
    /// the hash, the name of the first such one, and their own.
    pub fn hash_collisions(&self) -> (r: Vec<(u64, &'static str, &'static str)>)
        ensures
            clash_views(r@) == clashes(self@),
    {
        let mut out: Vec<(u64, &'static str, &'static str)> = Vec::new();
        let mut n: usize = 0;
        proof {
            assert(self@.take(0) =~= Seq::<SchemaView>::empty());
            assert(clash_views(out@) =~= clashes(self@.take(0)));
        }
        while n < self.schemas.len()
            invariant
                n <= self.schemas@.len(),
                clash_views(out@) == clashes(self@.take(n as int)),
            decreases self.schemas@.len() - n,
        {
            let ghost now = self@.take(n + 1);
            let ghost front = self@.take(n as int);
            let schema = &self.schemas[n];
            let hash: u64 = schema.schema_hash();
            let name = schema.full_name();
            proof {
                assert(now.drop_last() =~= front);
                assert(now.last() == schema@);
            }
            let mut i: usize = 0;
            let mut found: Option<usize> = None;
            proof {
                assert(front.skip(0) =~= front);
            }
            while i < n && found.is_none()
                invariant
                    i <= n <= self.schemas@.len(),
                    front == self@.take(n as int),
                    match found {
                        Some(k) => k < n && first_clash(front, hash, name@) == Some(k as int),
                        None => first_clash(front, hash, name@) == match first_clash(
                            front.skip(i as int),
                            hash,
                            name@,
                        ) {
                            Some(k) => Some(k + i as int),
                            None => None::<int>,
                        },
                    },
                decreases n - i,
            {
                let other = &self.schemas[i];
                proof {
                    assert(front.skip(i as int)[0] == other@);
                    assert(front.skip(i as int).skip(1) =~= front.skip(i + 1));
                }
                if other.schema_hash() == hash && !text_eq(other.full_name(), name) {
                    found = Some(i);
                }
                i = i + 1;
            }
            if let Some(k) = found {
                let ghost was = out@;
                let first = self.schemas[k].full_name();
                out.push((hash, first, name));
                proof {
                    assert(front[k as int].full_name == first@);
                    assert(clash_views(out@) =~= clash_views(was).push((hash, first@, name@)));
                }
            }
            n = n + 1;
        }
        proof {
            assert(self@.take(n as int) =~= self@);
        }
        out
    }

    /// Whether there are no schemas.
    #[must_use]
    pub fn is_empty(&self) -> (r: bool)
        ensures
            r == (self@.len() == 0),
    {
        self.len() == 0
    }

    /// The schemas in the order of their names, the last one of each name.
    pub fn iter(&self) -> (r: Vec<&EventSchemaErased>)
        ensures
            r@.len() == names_of(self@).len(),
            forall|i: int|
                0 <= i < r@.len() ==> ({
                    let s = (#[trigger] r@[i])@;
                    last_named(self@, s.full_name) matches Some(k) && self@[k] == s
                }),
            forall|i: int, j: int|
                0 <= i < j < r@.len() ==> text_map::text_before(
                    (#[trigger] r@[i])@.full_name,
                    (#[trigger] r@[j])@.full_name,
                ),
    {
        proof {
            use_type_invariant(self);
            lemma_names(self@, self.by_name@, self.by_hash@);
        }
        let mut out: Vec<&EventSchemaErased> = Vec::new();
        let n: usize = self.by_name.len();
        let mut i: usize = 0;
        while i < n
            invariant
                i <= n,
                n == self.by_name.pairs().len(),
                indexed(self@, self.by_name@, self.by_hash@),
                text_map::entries_in_order(self.by_name@, self.by_name.pairs()),
                out@.len() == i,
                forall|k: int|
                    0 <= k < i ==> (#[trigger] out@[k])@.full_name == self.by_name.pairs()[k].0,
                forall|k: int|
                    0 <= k < i ==> ({
                        let s = (#[trigger] out@[k])@;
                        last_named(self@, s.full_name) matches Some(j) && self@[j] == s
                    }),
            decreases n - i,
        {
            let (name, index) = self.by_name.at(i);
            proof {
                assert(self.by_name@.contains_key(name@));
                lemma_last(self@, name@, 0);
            }
            out.push(&self.schemas[*index]);
            i = i + 1;
        }
        out
    }
}

/// What clashes hold.
pub open spec fn clash_views(list: Seq<(u64, &'static str, &'static str)>) -> Seq<(u64, Seq<char>, Seq<char>)> {
    list.map_values(|c: (u64, &'static str, &'static str)| (c.0, c.1@, c.2@))
}

/// The names of schemas.
pub open spec fn names_of(schemas: Seq<SchemaView>) -> Set<Seq<char>> {
    schemas.map_values(|s: SchemaView| s.full_name).to_set()
}

proof fn lemma_names(
    schemas: Seq<SchemaView>,
    by_name: Map<Seq<char>, usize>,
    by_hash: Map<u64, usize>,
)
    requires
        indexed(schemas, by_name, by_hash),
    ensures
        by_name.dom() == names_of(schemas),
        schemas.len() == 0 <==> by_name == Map::<Seq<char>, usize>::empty(),
{
    let names = schemas.map_values(|s: SchemaView| s.full_name);
    assert forall|name: Seq<char>| #[trigger] by_name.contains_key(name) <==> names_of(
        schemas,
    ).contains(name) by {
        lemma_last(schemas, name, 0);
        if let Some(i) = last_named(schemas, name) {
            assert(names[i] == name);
        }
        if names_of(schemas).contains(name) {
            let i = choose|i: int| 0 <= i < names.len() && names[i] == name;
            lemma_named(schemas, i);
        }
    }
    assert(by_name.dom() =~= names_of(schemas));
    if schemas.len() > 0 {
        lemma_named(schemas, 0);
        assert(by_name.contains_key(schemas[0].full_name));
    } else {
        assert forall|name: Seq<char>| !(#[trigger] by_name.contains_key(name)) by {
            assert(last_named(schemas, name) is None);
        }
        assert(by_name =~= Map::<Seq<char>, usize>::empty());
    }
}

proof fn lemma_named(schemas: Seq<SchemaView>, i: int)
    requires
        0 <= i < schemas.len(),
    ensures
        last_named(schemas, schemas[i].full_name) is Some,
    decreases schemas.len(),
{
    if i < schemas.len() - 1 {
        lemma_named(schemas.drop_last(), i);
    }
}

// ---------------------------------------------------------------------------
// Which schema counts.
// ---------------------------------------------------------------------------
/// The schema of a name is the last one that has it.
pub proof fn law_the_last_of_a_name_counts(schemas: Seq<SchemaView>, name: Seq<char>, i: int)
    requires
        -1 <= i < schemas.len(),
        i >= 0 ==> schemas[i].full_name == name,
        forall|j: int| i < j < schemas.len() ==> (#[trigger] schemas[j]).full_name != name,
    ensures
        last_named(schemas, name) == (if i >= 0 {
            Some(i)
        } else {
            None
        }),
    decreases schemas.len(),
{
    if schemas.len() > 0 && i < schemas.len() - 1 {
        assert(schemas.last() == schemas[schemas.len() - 1]);
        let front = schemas.drop_last();
        assert forall|j: int| i < j < front.len() implies (#[trigger] front[j]).full_name
            != name by {
            assert(front[j] == schemas[j]);
        }
        law_the_last_of_a_name_counts(front, name, i);
    }
}

/// The schema of a hash is the last one that has it.
pub proof fn law_the_last_of_a_hash_counts(schemas: Seq<SchemaView>, hash: u64, i: int)
    requires
        -1 <= i < schemas.len(),
        i >= 0 ==> schemas[i].schema_hash == hash,
        forall|j: int| i < j < schemas.len() ==> (#[trigger] schemas[j]).schema_hash != hash,
    ensures
        last_hashed(schemas, hash) == (if i >= 0 {
            Some(i)
        } else {
            None
        }),
    decreases schemas.len(),
{
    if schemas.len() > 0 && i < schemas.len() - 1 {
        assert(schemas.last() == schemas[schemas.len() - 1]);
        let front = schemas.drop_last();
        assert forall|j: int| i < j < front.len() implies (#[trigger] front[j]).schema_hash
            != hash by {
            assert(front[j] == schemas[j]);
        }
        law_the_last_of_a_hash_counts(front, hash, i);
    }
}

/// The schema of an event is the last one with its hash; only where none has
/// that is it the last one with its name.
pub proof fn law_the_hash_goes_before_the_name(
    schemas: Seq<SchemaView>,
    hash: u64,
    name: Seq<char>,
    h: int,
    n: int,
)
    requires
        -1 <= h < schemas.len(),
        h >= 0 ==> schemas[h].schema_hash == hash,
        forall|j: int| h < j < schemas.len() ==> (#[trigger] schemas[j]).schema_hash != hash,
        -1 <= n < schemas.len(),
        n >= 0 ==> schemas[n].full_name == name,
        forall|j: int| n < j < schemas.len() ==> (#[trigger] schemas[j]).full_name != name,
    ensures
        h >= 0 ==> schema_for(schemas, hash, name) == Some(schemas[h]),
        h < 0 && n >= 0 ==> schema_for(schemas, hash, name) == Some(schemas[n]),
        h < 0 && n < 0 ==> schema_for(schemas, hash, name) is None,
{
    law_the_last_of_a_hash_counts(schemas, hash, h);
    law_the_last_of_a_name_counts(schemas, name, n);
}

/// A schema clashes where an earlier one of another name has its hash. The first
/// such one is told, and clashes among the earlier ones are told before.
pub proof fn law_a_shared_hash_is_told(schemas: Seq<SchemaView>, s: SchemaView, i: int)
    requires
        0 <= i <= schemas.len(),
        i < schemas.len() ==> schemas[i].schema_hash == s.schema_hash && schemas[i].full_name
            != s.full_name,
        forall|j: int|
            0 <= j < i ==> (#[trigger] schemas[j]).schema_hash != s.schema_hash
                || schemas[j].full_name == s.full_name,
    ensures
        clashes(schemas.push(s)) == (if i < schemas.len() {
            clashes(schemas).push((s.schema_hash, schemas[i].full_name, s.full_name))
        } else {
            clashes(schemas)
        }),
{
    let all = schemas.push(s);
    assert(all.drop_last() =~= schemas);
    assert(all.last() == s);
    lemma_first_clash(schemas, s.schema_hash, s.full_name, i);
}

proof fn lemma_first_clash(schemas: Seq<SchemaView>, hash: u64, name: Seq<char>, i: int)
    requires
        0 <= i <= schemas.len(),
        i < schemas.len() ==> schemas[i].schema_hash == hash && schemas[i].full_name != name,
        forall|j: int|
            0 <= j < i ==> (#[trigger] schemas[j]).schema_hash != hash || schemas[j].full_name
                == name,
    ensures
        first_clash(schemas, hash, name) == (if i < schemas.len() {
            Some(i)
        } else {
            None
        }),
    decreases schemas.len(),
{
    if schemas.len() > 0 && i > 0 {
        assert(schemas[0].schema_hash != hash || schemas[0].full_name == name);
        let tail = schemas.skip(1);
        assert forall|j: int| 0 <= j < i - 1 implies (#[trigger] tail[j]).schema_hash != hash
            || tail[j].full_name == name by {
            assert(tail[j] == schemas[j + 1]);
        }
        lemma_first_clash(tail, hash, name, i - 1);
    }
}

/// Schemas are counted by their names: another one of a name that is known adds
/// nothing.
pub proof fn law_names_are_counted_once(schemas: Seq<SchemaView>, s: SchemaView)
    ensures
        names_of(schemas.push(s)) == names_of(schemas).insert(s.full_name),
        names_of(Seq::empty()) == Set::<Seq<char>>::empty(),
{
    let names = schemas.map_values(|v: SchemaView| v.full_name);
    let all = schemas.push(s).map_values(|v: SchemaView| v.full_name);
    assert(all =~= names.push(s.full_name));
    assert forall|n: Seq<char>| #[trigger] all.contains(n) <==> names.contains(n) || n
        == s.full_name by {
        if names.contains(n) {
            let i = choose|i: int| 0 <= i < names.len() && names[i] == n;
            assert(all[i] == n);
        }
        if n == s.full_name {
            assert(all[names.len() as int] == n);
        }
    }
    assert(names_of(schemas.push(s)) =~= names_of(schemas).insert(s.full_name));
    assert(names_of(Seq::empty()) =~= Set::<Seq<char>>::empty());
}

} // verus!
