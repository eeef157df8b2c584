//! A map from text, kept in the order of its keys.

use vstd::prelude::*;

use crate::sampling::Rate;
use crate::text::chars_of;

verus! {

/// Whether `a` comes before `b`: at the first place where they differ the
/// smaller code point decides, and a prefix comes before what it begins.
pub open spec fn text_before(a: Seq<char>, b: Seq<char>) -> bool
    decreases a.len(),
{
    b.len() > 0 && (a.len() == 0 || a[0] < b[0] || (a[0] == b[0] && text_before(
        a.skip(1),
        b.skip(1),
    )))
}

/// How two texts stand to each other.
#[derive(Debug, Clone, Copy, PartialEq, Eq, Structural)]
pub enum TextOrder {
    Before,
    Same,
    After,
}

/// Compares two texts.
pub fn text_order(a: &str, b: &str) -> (r: TextOrder)
    ensures
        r == TextOrder::Before <==> text_before(a@, b@),
        r == TextOrder::Same <==> a@ == b@,
        r == TextOrder::After <==> text_before(b@, a@),
{
    let x = chars_of(a);
    let y = chars_of(b);
    let mut i: usize = 0;
    proof {
        lemma_before_order(a@, b@);
        assert(a@.skip(0) =~= a@);
        assert(b@.skip(0) =~= b@);
    }
    while i < x.len() && i < y.len() && x[i] == y[i]
        invariant
            x@ == a@,
            y@ == b@,
            i <= x@.len(),
            i <= y@.len(),
            a@.take(i as int) == b@.take(i as int),
            text_before(a@, b@) == text_before(a@.skip(i as int), b@.skip(i as int)),
            text_before(b@, a@) == text_before(b@.skip(i as int), a@.skip(i as int)),
        decreases x@.len() - i,
    {
        proof {
            assert(a@.skip(i as int).skip(1) =~= a@.skip(i + 1));
            assert(b@.skip(i as int).skip(1) =~= b@.skip(i + 1));
            assert(a@.take(i + 1) =~= a@.take(i as int).push(a@[i as int]));
            assert(b@.take(i + 1) =~= b@.take(i as int).push(b@[i as int]));
        }
        i = i + 1;
    }
    if i == x.len() && i == y.len() {
        proof {
            assert(a@.take(i as int) =~= a@);
            assert(b@.take(i as int) =~= b@);
        }
        return TextOrder::Same;
    }
    if i == x.len() {
        return TextOrder::Before;
    }
    if i == y.len() {
        return TextOrder::After;
    }
    if x[i] < y[i] {
        TextOrder::Before
    } else {
        TextOrder::After
    }
}

/// Of two texts, exactly one comes first, or they are the same.
pub proof fn lemma_before_order(a: Seq<char>, b: Seq<char>)
    ensures
        !text_before(a, a),
        !(text_before(a, b) && text_before(b, a)),
        a != b ==> text_before(a, b) || text_before(b, a),
    decreases a.len(),
{
    if a.len() > 0 {
        lemma_before_order(a.skip(1), a.skip(1));
    }
    if a.len() > 0 && b.len() > 0 {
        lemma_before_order(a.skip(1), b.skip(1));
        if a[0] == b[0] && a.skip(1) == b.skip(1) {
            assert(a =~= seq![a[0]] + a.skip(1));
            assert(b =~= seq![b[0]] + b.skip(1));
        }
    } else if a.len() == 0 && b.len() == 0 {
        assert(a =~= b);
    }
}

/// The order is transitive.
pub proof fn lemma_before_transitive(a: Seq<char>, b: Seq<char>, c: Seq<char>)
    requires
        text_before(a, b),
        text_before(b, c),
    ensures
        text_before(a, c),
    decreases a.len(),
{
    if a.len() > 0 && a[0] == b[0] && b[0] == c[0] {
        lemma_before_transitive(a.skip(1), b.skip(1), c.skip(1));
    }
}

/// Whether the keys of `items` stand in order, each once.
pub open spec fn in_order<V>(items: Seq<(String, V)>) -> bool {
    forall|i: int, j: int|
        0 <= i < j < items.len() ==> text_before(#[trigger] items[i].0@, #[trigger] items[j].0@)
}

/// The map that `items` spell.
pub open spec fn map_of<V>(items: Seq<(String, V)>) -> Map<Seq<char>, V> {
    Map::new(
        |k: Seq<char>| exists|i: int| 0 <= i < items.len() && (#[trigger] items[i]).0@ == k,
        |k: Seq<char>| items[choose|i: int| 0 <= i < items.len() && (#[trigger] items[i]).0@ == k].1,
    )
}

/// Whether `pairs` are the entries of `m`, each once, in the order of their
/// keys.
pub open spec fn entries_in_order<V>(m: Map<Seq<char>, V>, pairs: Seq<(Seq<char>, V)>) -> bool {
    &&& forall|i: int, j: int|
        0 <= i < j < pairs.len() ==> text_before((#[trigger] pairs[i]).0, (#[trigger] pairs[j]).0)
    &&& forall|i: int|
        0 <= i < pairs.len() ==> m.contains_pair((#[trigger] pairs[i]).0, pairs[i].1)
    &&& forall|k: Seq<char>| #[trigger]
        m.contains_key(k) ==> exists|i: int| 0 <= i < pairs.len() && (#[trigger] pairs[i]).0 == k
}

/// The entries of a map, in the order of their keys.
pub open spec fn ordered<V>(m: Map<Seq<char>, V>) -> Seq<(Seq<char>, V)> {
    choose|pairs: Seq<(Seq<char>, V)>| entries_in_order(m, pairs)
}

/// There is one way to list the entries of a map in order.
proof fn lemma_one_order<V>(
    m: Map<Seq<char>, V>,
    a: Seq<(Seq<char>, V)>,
    b: Seq<(Seq<char>, V)>,
)
    requires
        entries_in_order(m, a),
        entries_in_order(m, b),
    ensures
        a == b,
    decreases a.len(),
{
    if a.len() == 0 {
        if b.len() > 0 {
            assert(m.contains_key(b[0].0));
        }
        assert(a =~= b);
    } else {
        let k = a[0].0;
        assert(m.contains_key(k));
        let j = choose|j: int| 0 <= j < b.len() && (#[trigger] b[j]).0 == k;
        let first = b[0].0;
        assert(m.contains_key(first));
        let i = choose|i: int| 0 <= i < a.len() && (#[trigger] a[i]).0 == first;
        lemma_before_order(k, first);
        assert(j == 0);
        lemma_rest_in_order(m, a);
        lemma_rest_in_order(m, b);
        lemma_one_order(m.remove(k), a.skip(1), b.skip(1));
        assert(a =~= seq![a[0]] + a.skip(1));
        assert(b =~= seq![b[0]] + b.skip(1));
    }
}

/// Without the first entry the others are still in order.
proof fn lemma_rest_in_order<V>(m: Map<Seq<char>, V>, a: Seq<(Seq<char>, V)>)
    requires
        entries_in_order(m, a),
        a.len() > 0,
    ensures
        entries_in_order(m.remove(a[0].0), a.skip(1)),
{
    let rest = m.remove(a[0].0);
    let tail = a.skip(1);
    assert forall|i: int| 0 <= i < tail.len() implies rest.contains_pair(
        (#[trigger] tail[i]).0,
        tail[i].1,
    ) by {
        assert(tail[i] == a[i + 1]);
        assert(text_before(a[0].0, a[i + 1].0));
        lemma_before_order(a[0].0, a[0].0);
    }
    assert forall|k: Seq<char>| #[trigger] rest.contains_key(k) implies exists|i: int|
        0 <= i < tail.len() && (#[trigger] tail[i]).0 == k by {
        assert(m.contains_key(k));
        let i = choose|i: int| 0 <= i < a.len() && (#[trigger] a[i]).0 == k;
        assert(i > 0);
        assert(tail[i - 1].0 == k);
    }
}

/// Entries that stand in order are the ordered entries.
pub proof fn lemma_ordered<V>(m: Map<Seq<char>, V>, pairs: Seq<(Seq<char>, V)>)
    requires
        entries_in_order(m, pairs),
    ensures
        ordered(m) == pairs,
{
    lemma_one_order(m, ordered(m), pairs);
}

/// A map from text to `V`, which is walked in the order of its keys.
#[derive(Debug)]
pub struct TextMap<V> {
    items: Vec<(String, V)>,
}

impl<V> View for TextMap<V> {
    type V = Map<Seq<char>, V>;

    closed spec fn view(&self) -> Map<Seq<char>, V> {
        map_of(self.items@)
    }
}

impl<V> TextMap<V> {
    #[verifier::type_invariant]
    spec fn well_formed(self) -> bool {
        in_order(self.items@)
    }

    /// The entries, in the order of their keys.
    pub closed spec fn pairs(self) -> Seq<(Seq<char>, V)> {
        self.items@.map_values(|p: (String, V)| (p.0@, p.1))
    }

    /// An empty map.
    pub fn new() -> (r: Self)
        ensures
            r@ == Map::<Seq<char>, V>::empty(),
            r.pairs() == Seq::<(Seq<char>, V)>::empty(),
    {
        let r = TextMap { items: Vec::new() };
        proof {
            assert(r@ =~= Map::<Seq<char>, V>::empty());
            assert(r.pairs() =~= Seq::<(Seq<char>, V)>::empty());
        }
        r
    }

    /// How many entries there are. The entries are those of the map, in the
    /// order of their keys.
    pub fn len(&self) -> (n: usize)
        ensures
            n == self.pairs().len(),
            n == self@.dom().len(),
            n == 0 <==> self@ == Map::<Seq<char>, V>::empty(),
            entries_in_order(self@, self.pairs()),
    {
        proof {
            use_type_invariant(self);
            lemma_entries(self.items@);
            if self.items@.len() > 0 {
                assert(self@.contains_key(self.items@[0].0@));
            } else {
                assert(self@ =~= Map::<Seq<char>, V>::empty());
            }
        }
        self.items.len()
    }

    /// Whether there are no entries.
    pub fn is_empty(&self) -> (r: bool)
        ensures
            r == (self.pairs().len() == 0),
            r <==> self@ == Map::<Seq<char>, V>::empty(),
    {
        self.len() == 0
    }

    /// The entry at place `i` in the order of the keys.
    pub fn at(&self, i: usize) -> (r: (&String, &V))
        requires
            i < self.pairs().len(),
        ensures
            r.0@ == self.pairs()[i as int].0,
            *r.1 == self.pairs()[i as int].1,
            self@.contains_pair(r.0@, *r.1),
    {
        proof {
            use_type_invariant(self);
            lemma_at(self.items@, i as int);
        }
        let item = &self.items[i];
        (&item.0, &item.1)
    }

    /// Where `key` stands, or where it would have to stand.
    fn place(&self, key: &str) -> (r: (bool, usize))
        ensures
            r.1 <= self.items@.len(),
            r.0 ==> r.1 < self.items@.len() && self.items@[r.1 as int].0@ == key@,
            !r.0 ==> !self@.contains_key(key@),
            forall|k: int| 0 <= k < r.1 ==> text_before(#[trigger] self.items@[k].0@, key@),
            !r.0 ==> forall|k: int|
                r.1 <= k < self.items@.len() ==> text_before(key@, #[trigger] self.items@[k].0@),
    {
        proof {
            use_type_invariant(self);
        }
        let mut i: usize = 0;
        while i < self.items.len()
            invariant
                i <= self.items@.len(),
                in_order(self.items@),
                forall|k: int| 0 <= k < i ==> text_before(#[trigger] self.items@[k].0@, key@),
            decreases self.items@.len() - i,
        {
            match text_order(self.items[i].0.as_str(), key) {
                TextOrder::Before => {
                    i = i + 1;
                },
                TextOrder::Same => {
                    return (true, i);
                },
                TextOrder::After => {
                    proof {
                        assert forall|k: int| i <= k < self.items@.len() implies text_before(
                            key@,
                            #[trigger] self.items@[k].0@,
                        ) by {
                            if k > i {
                                lemma_before_transitive(
                                    key@,
                                    self.items@[i as int].0@,
                                    self.items@[k].0@,
                                );
                            }
                        }
                        assert forall|k: int| 0 <= k < self.items@.len() implies (
                        #[trigger] self.items@[k]).0@ != key@ by {
                            lemma_before_order(self.items@[k].0@, key@);
                        }
                    }
                    return (false, i);
                },
            }
        }
        proof {
            assert forall|k: int| 0 <= k < self.items@.len() implies (
            #[trigger] self.items@[k]).0@ != key@ by {
                lemma_before_order(self.items@[k].0@, key@);
            }
        }
        (false, i)
    }

    /// The value of `key`.
    pub fn get(&self, key: &str) -> (r: Option<&V>)
        ensures
            match r {
                Some(v) => self@.contains_pair(key@, *v),
                None => !self@.contains_key(key@),
            },
    {
        let (found, i) = self.place(key);
        if found {
            proof {
                use_type_invariant(self);
                lemma_at(self.items@, i as int);
            }
            Some(&self.items[i].1)
        } else {
            None
        }
    }

    /// Whether `key` has a value.
    pub fn contains_key(&self, key: &str) -> (r: bool)
        ensures
            r == self@.contains_key(key@),
    {
        match self.get(key) {
            Some(_) => true,
            None => false,
        }
    }

    /// Gives `key` the value `value`, in place of the one it may have had.
    pub fn insert(&mut self, key: String, value: V)
        ensures
            final(self)@ == old(self)@.insert(key@, value),
    {
        proof {
            use_type_invariant(&*self);
        }
        let (found, i) = self.place(key.as_str());
        let ghost before = self.items@;
        let ghost name = key@;
        let mut items: Vec<(String, V)> = Vec::new();
        std::mem::swap(&mut items, &mut self.items);
        if found {
            let gone = items.remove(i);
        }
        items.insert(i, (key, value));
        proof {
            let item = (key, value);
            assert(items@ =~= with_item(before, i as int, found, item));
            lemma_inserted_in_order(before, i as int, found, item);
            lemma_inserted_map(before, i as int, found, item);
        }
        self.items = items;
    }
}

/// The values of a map, as text.
pub open spec fn text_values(m: Map<Seq<char>, String>) -> Map<Seq<char>, Seq<char>> {
    m.map_values(|s: String| s@)
}

/// The entries of a map, as text.
pub open spec fn text_pairs(pairs: Seq<(Seq<char>, String)>) -> Seq<(Seq<char>, Seq<char>)> {
    pairs.map_values(|p: (Seq<char>, String)| (p.0, p.1@))
}

/// The entries of a map of texts, as text, are its ordered entries.
pub proof fn lemma_text_ordered(m: Map<Seq<char>, String>, pairs: Seq<(Seq<char>, String)>)
    requires
        entries_in_order(m, pairs),
    ensures
        ordered(text_values(m)) == text_pairs(pairs),
        entries_in_order(text_values(m), text_pairs(pairs)),
{
    let texts = text_pairs(pairs);
    assert forall|k: Seq<char>| #[trigger] text_values(m).contains_key(k) implies exists|i: int|
        0 <= i < texts.len() && (#[trigger] texts[i]).0 == k by {
        assert(m.contains_key(k));
        let i = choose|i: int| 0 <= i < pairs.len() && (#[trigger] pairs[i]).0 == k;
        assert(texts[i].0 == k);
    }
    assert forall|i: int| 0 <= i < texts.len() implies text_values(m).contains_pair(
        (#[trigger] texts[i]).0,
        texts[i].1,
    ) by {
        assert(m.contains_pair(pairs[i].0, pairs[i].1));
    }
    lemma_ordered(text_values(m), texts);
}

impl TextMap<String> {
    /// The text of `key`.
    pub fn text(&self, key: &str) -> (r: Option<&str>)
        ensures
            match r {
                Some(v) => text_values(self@).contains_pair(key@, v@),
                None => !text_values(self@).contains_key(key@),
            },
    {
        match self.get(key) {
            Some(v) => Some(v.as_str()),
            None => None,
        }
    }

    /// Gives `key` the text `value`, in place of the one it may have had.
    pub fn set_text(&mut self, key: String, value: String)
        ensures
            text_values(final(self)@) == text_values(old(self)@).insert(key@, value@),
    {
        let ghost before = self@;
        let ghost k = key@;
        let ghost v = value;
        self.insert(key, value);
        proof {
            assert(text_values(before.insert(k, v)) =~= text_values(before).insert(k, v@));
        }
    }
}

impl Clone for TextMap<String> {
    fn clone(&self) -> (r: Self)
        ensures
            r@ == self@,
            r.pairs() == self.pairs(),
    {
        proof {
            use_type_invariant(self);
        }
        let mut items: Vec<(String, String)> = Vec::new();
        let mut i: usize = 0;
        while i < self.items.len()
            invariant
                i <= self.items@.len(),
                items@ =~= self.items@.take(i as int),
            decreases self.items@.len() - i,
        {
            let item = &self.items[i];
            items.push((item.0.clone(), item.1.clone()));
            i = i + 1;
        }
        proof {
            assert(items@ =~= self.items@);
        }
        TextMap { items }
    }
}

impl Clone for TextMap<Rate> {
    fn clone(&self) -> (r: Self)
        ensures
            r@ == self@,
            r.pairs() == self.pairs(),
    {
        proof {
            use_type_invariant(self);
        }
        let mut items: Vec<(String, Rate)> = Vec::new();
        let mut i: usize = 0;
        while i < self.items.len()
            invariant
                i <= self.items@.len(),
                items@ =~= self.items@.take(i as int),
            decreases self.items@.len() - i,
        {
            let item = &self.items[i];
            items.push((item.0.clone(), item.1.clone()));
            i = i + 1;
        }
        proof {
            assert(items@ =~= self.items@);
        }
        TextMap { items }
    }
}

proof fn lemma_at<V>(items: Seq<(String, V)>, i: int)
    requires
        in_order(items),
        0 <= i < items.len(),
    ensures
        map_of(items).contains_pair(items[i].0@, items[i].1),
{
    let k = items[i].0@;
    let j = choose|j: int| 0 <= j < items.len() && (#[trigger] items[j]).0@ == k;
    lemma_before_order(k, k);
    assert(items[i].0@ == k);
    assert(items[j].0@ == k);
    assert(i == j);
}

proof fn lemma_entries<V>(items: Seq<(String, V)>)
    requires
        in_order(items),
    ensures
        map_of(items).dom().len() == items.len(),
        entries_in_order(map_of(items), items.map_values(|p: (String, V)| (p.0@, p.1))),
{
    let pairs = items.map_values(|p: (String, V)| (p.0@, p.1));
    let keys = items.map_values(|p: (String, V)| p.0@);
    assert forall|i: int| 0 <= i < pairs.len() implies map_of(items).contains_pair(
        (#[trigger] pairs[i]).0,
        pairs[i].1,
    ) by {
        lemma_at(items, i);
    }
    assert forall|k: Seq<char>| #[trigger] map_of(items).contains_key(k) implies exists|i: int|
        0 <= i < pairs.len() && (#[trigger] pairs[i]).0 == k by {
        let i = choose|i: int| 0 <= i < items.len() && (#[trigger] items[i]).0@ == k;
        assert(pairs[i].0 == k);
    }
    assert forall|i: int, j: int| 0 <= i < keys.len() && 0 <= j < keys.len() && i != j implies keys[i]
        != keys[j] by {
        lemma_before_order(items[i].0@, items[j].0@);
        if i < j {
            assert(text_before(items[i].0@, items[j].0@));
        } else {
            assert(text_before(items[j].0@, items[i].0@));
        }
        lemma_before_order(keys[i], keys[i]);
    }
    keys.unique_seq_to_set();
    assert forall|k: Seq<char>| map_of(items).dom().contains(k) <==> keys.to_set().contains(k) by {
        if map_of(items).dom().contains(k) {
            let i = choose|i: int| 0 <= i < items.len() && (#[trigger] items[i]).0@ == k;
            assert(keys[i] == k);
        }
        if keys.to_set().contains(k) {
            let i = choose|i: int| 0 <= i < keys.len() && keys[i] == k;
            assert(items[i].0@ == k);
        }
    }
    assert(map_of(items).dom() =~= keys.to_set());
}

/// The entries after one was set at place `i`.
spec fn with_item<V>(before: Seq<(String, V)>, i: int, found: bool, item: (String, V)) -> Seq<
    (String, V),
> {
    if found {
        before.update(i, item)
    } else {
        before.insert(i, item)
    }
}

proof fn lemma_inserted_in_order<V>(
    before: Seq<(String, V)>,
    i: int,
    found: bool,
    item: (String, V),
)
    requires
        in_order(before),
        0 <= i <= before.len(),
        found ==> i < before.len() && before[i].0@ == item.0@,
        forall|k: int| 0 <= k < i ==> text_before(#[trigger] before[k].0@, item.0@),
        !found ==> forall|k: int|
            i <= k < before.len() ==> text_before(item.0@, #[trigger] before[k].0@),
    ensures
        in_order(with_item(before, i, found, item)),
{
    let after = with_item(before, i, found, item);
    assert forall|a: int, b: int| 0 <= a < b < after.len() implies text_before(
        #[trigger] after[a].0@,
        #[trigger] after[b].0@,
    ) by {
        if found {
            assert(text_before(before[a].0@, before[b].0@));
        } else {
            let a0 = if a < i { a } else { a - 1 };
            let b0 = if b < i { b } else { b - 1 };
            if a != i && b != i {
                assert(after[a] == before[a0] && after[b] == before[b0]);
            } else if a == i {
                assert(after[b] == before[b0]);
            } else {
                assert(after[a] == before[a0]);
            }
        }
    }
}

proof fn lemma_inserted_map<V>(before: Seq<(String, V)>, i: int, found: bool, item: (String, V))
    requires
        in_order(before),
        in_order(with_item(before, i, found, item)),
        0 <= i <= before.len(),
        found ==> i < before.len() && before[i].0@ == item.0@,
    ensures
        map_of(with_item(before, i, found, item)) == map_of(before).insert(item.0@, item.1),
{
    let after = with_item(before, i, found, item);
    let m = map_of(before).insert(item.0@, item.1);
    lemma_at(after, i);
    assert forall|k: Seq<char>| #[trigger]
        map_of(after).contains_key(k) <==> m.contains_key(k) by {
        if map_of(after).contains_key(k) && k != item.0@ {
            let j = choose|j: int| 0 <= j < after.len() && (#[trigger] after[j]).0@ == k;
            let j0 = if found || j < i { j } else { j - 1 };
            assert(before[j0] == after[j]);
        }
        if m.contains_key(k) && k != item.0@ {
            let j = choose|j: int| 0 <= j < before.len() && (#[trigger] before[j]).0@ == k;
            let j1 = if found || j < i { j } else { j + 1 };
            assert(after[j1] == before[j]);
        }
    }
    assert forall|k: Seq<char>| #[trigger] map_of(after).contains_key(k) implies map_of(after)[k]
        == m[k] by {
        if k != item.0@ {
            let j = choose|j: int| 0 <= j < after.len() && (#[trigger] after[j]).0@ == k;
            let j0 = if found || j < i { j } else { j - 1 };
            assert(before[j0] == after[j]);
            lemma_at(after, j);
            lemma_at(before, j0);
        }
    }
    assert(map_of(after) =~= m);
}

/// A text comes before another where it is a front of it and shorter, and where
/// at the first place at which they differ it has the smaller character.
pub proof fn law_order_is_by_the_first_difference(
    front: Seq<char>,
    x: char,
    y: char,
    a: Seq<char>,
    b: Seq<char>,
)
    ensures
        text_before(front, front + seq![x] + a),
        !text_before(front + seq![x] + a, front),
        x < y ==> text_before(front + seq![x] + a, front + seq![y] + b),
        x > y ==> !text_before(front + seq![x] + a, front + seq![y] + b),
        !text_before(front, front),
    decreases front.len(),
{
    let s = front + seq![x] + a;
    let t = front + seq![y] + b;
    if front.len() == 0 {
        assert(s[0] == x);
        assert(t[0] == y);
    } else {
        let tail = front.skip(1);
        assert(s.skip(1) =~= tail + seq![x] + a);
        assert(t.skip(1) =~= tail + seq![y] + b);
        law_order_is_by_the_first_difference(tail, x, y, a, b);
    }
}

/// Entries in order are those of the map, and each key comes once.
pub proof fn law_ordered_lists_every_entry<V>(m: Map<Seq<char>, V>, pairs: Seq<(Seq<char>, V)>)
    requires
        entries_in_order(m, pairs),
    ensures
        forall|i: int, j: int|
            0 <= i < j < pairs.len() ==> (#[trigger] pairs[i]).0 != (#[trigger] pairs[j]).0,
        forall|k: Seq<char>, v: V|
            #![trigger m.contains_pair(k, v)]
            m.contains_pair(k, v) <==> pairs.contains((k, v)),
{
    assert forall|i: int, j: int| 0 <= i < j < pairs.len() implies (#[trigger] pairs[i]).0 != (
    #[trigger] pairs[j]).0 by {
        lemma_before_order(pairs[i].0, pairs[j].0);
    }
    assert forall|k: Seq<char>, v: V|
        #![trigger m.contains_pair(k, v)]
        m.contains_pair(k, v) <==> pairs.contains((k, v)) by {
        if m.contains_pair(k, v) {
            assert(m.contains_key(k));
            let i = choose|i: int| 0 <= i < pairs.len() && (#[trigger] pairs[i]).0 == k;
            assert(m.contains_pair(pairs[i].0, pairs[i].1));
            assert(pairs[i] == (k, v));
        }
        if pairs.contains((k, v)) {
            let i = choose|i: int| 0 <= i < pairs.len() && pairs[i] == (k, v);
            assert(m.contains_pair(pairs[i].0, pairs[i].1));
        }
    }
}

} // verus!
