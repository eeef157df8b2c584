//! Files in the order of their age.

use vstd::prelude::*;

use crate::text::{self, chars_of, has_prefix, has_suffix};

verus! {

/// Whether the item at `i` goes before that at `j`: its key is smaller, or the
/// keys are the same and it came first.
pub open spec fn goes_first(keys: Seq<i128>, i: int, j: int) -> bool {
    keys[i] < keys[j] || (keys[i] == keys[j] && i < j)
}

/// Whether `order` lists the item at `k`.
pub open spec fn lists(order: Seq<usize>, k: int) -> bool {
    exists|i: int| 0 <= i < order.len() && #[trigger] order[i] == k
}

/// Whether `order` lists every item once, each before those that it goes
/// before.
pub open spec fn is_stable_order(keys: Seq<i128>, order: Seq<usize>) -> bool {
    &&& forall|i: int| 0 <= i < order.len() ==> (#[trigger] order[i]) < keys.len()
    &&& forall|i: int, j: int|
        0 <= i < j < order.len() ==> goes_first(
            keys,
            #[trigger] order[i] as int,
            #[trigger] order[j] as int,
        )
    &&& forall|k: int| 0 <= k < keys.len() ==> #[trigger] lists(order, k)
}

/// The items by their keys, those with the same key as they came.
pub open spec fn stable_of(keys: Seq<i128>) -> Seq<usize> {
    choose|order: Seq<usize>| is_stable_order(keys, order)
}

proof fn lemma_agree(keys: Seq<i128>, a: Seq<usize>, b: Seq<usize>, i: int)
    requires
        is_stable_order(keys, a),
        is_stable_order(keys, b),
        0 <= i < a.len(),
        forall|k: int| 0 <= k < i ==> k < b.len() && a[k] == b[k],
    ensures
        i < b.len(),
        a[i] == b[i],
{
    assert(lists(b, a[i] as int));
    let j = choose|j: int| 0 <= j < b.len() && #[trigger] b[j] == a[i] as int;
    if j < i {
        assert(a[j] == b[j]);
        assert(goes_first(keys, a[j] as int, a[i] as int));
    }
    assert(i < b.len());
    assert(lists(a, b[i] as int));
    let k = choose|k: int| 0 <= k < a.len() && #[trigger] a[k] == b[i] as int;
    if k < i {
        assert(a[k] == b[k]);
        assert(goes_first(keys, b[k] as int, b[i] as int));
    }
    if j > i {
        assert(goes_first(keys, b[i] as int, b[j] as int));
        if k > i {
            assert(goes_first(keys, a[i] as int, a[k] as int));
        }
    }
}

proof fn lemma_agree_below(keys: Seq<i128>, a: Seq<usize>, b: Seq<usize>, n: int)
    requires
        is_stable_order(keys, a),
        is_stable_order(keys, b),
        0 <= n <= a.len(),
    ensures
        n <= b.len(),
        forall|k: int| 0 <= k < n ==> a[k] == b[k],
    decreases n,
{
    if n > 0 {
        lemma_agree_below(keys, a, b, n - 1);
        lemma_agree(keys, a, b, n - 1);
    }
}

/// There is one such order.
pub proof fn law_one_stable_order(keys: Seq<i128>, order: Seq<usize>)
    requires
        is_stable_order(keys, order),
    ensures
        stable_of(keys) == order,
{
    let other = stable_of(keys);
    lemma_agree_below(keys, order, other, order.len() as int);
    lemma_agree_below(keys, other, order, other.len() as int);
    assert(other =~= order);
}

/// The items by their keys, those with the same key as they came.
pub fn stable_order(keys: &Vec<i128>) -> (r: Vec<usize>)
    ensures
        r@ == stable_of(keys@),
        is_stable_order(keys@, r@),
        r@.len() == keys@.len(),
{
    let mut order: Vec<usize> = Vec::new();
    let mut n: usize = 0;
    while n < keys.len()
        invariant
            n <= keys@.len(),
            order@.len() == n,
            is_stable_order(keys@.take(n as int), order@),
        decreases keys@.len() - n,
    {
        let mut at: usize = order.len();
        while at > 0 && keys[order[at - 1]] > keys[n]
            invariant
                at <= order@.len(),
                order@.len() == n,
                n < keys@.len(),
                is_stable_order(keys@.take(n as int), order@),
                forall|k: int|
                    at <= k < order@.len() ==> keys@[(#[trigger] order@[k]) as int]
                        > keys@[n as int],
            decreases at,
        {
            at = at - 1;
        }
        let ghost was = order@;
        let ghost before = keys@.take(n as int);
        let ghost now = keys@.take(n + 1);
        order.insert(at, n);
        proof {
            lemma_inserted(before, was, now, order@, at as int);
        }
        n = n + 1;
    }
    proof {
        assert(keys@.take(n as int) =~= keys@);
        law_one_stable_order(keys@, order@);
    }
    order
}

/// A newest item is put in its place.
proof fn lemma_inserted(
    before: Seq<i128>,
    was: Seq<usize>,
    now: Seq<i128>,
    order: Seq<usize>,
    at: int,
)
    requires
        is_stable_order(before, was),
        was.len() == before.len(),
        before.len() <= usize::MAX,
        now.len() == before.len() + 1,
        forall|k: int| 0 <= k < before.len() ==> now[k] == before[k],
        0 <= at <= was.len(),
        order == was.insert(at, before.len() as usize),
        forall|k: int|
            at <= k < was.len() ==> now[(#[trigger] was[k]) as int] > now[before.len() as int],
        at > 0 ==> now[was[at - 1] as int] <= now[before.len() as int],
    ensures
        is_stable_order(now, order),
{
    let n = before.len() as int;
    assert forall|i: int, j: int| 0 <= i < j < order.len() implies goes_first(
        now,
        #[trigger] order[i] as int,
        #[trigger] order[j] as int,
    ) by {
        let a = if i < at {
            i
        } else {
            i - 1
        };
        let b = if j < at {
            j
        } else {
            j - 1
        };
        if i != at && j != at {
            assert(order[i] == was[a]);
            assert(order[j] == was[b]);
            assert(goes_first(before, was[a] as int, was[b] as int));
        } else if i == at {
            assert(order[j] == was[b]);
        } else {
            assert(order[i] == was[i]);
            if i < at - 1 {
                assert(goes_first(before, was[i] as int, was[at - 1] as int));
            }
        }
    }
    assert forall|i: int| 0 <= i < order.len() implies (#[trigger] order[i]) < now.len() by {
        if i < at {
            assert(order[i] == was[i]);
        } else if i > at {
            assert(order[i] == was[i - 1]);
        }
    }
    assert forall|k: int| 0 <= k < now.len() implies #[trigger] lists(order, k) by {
        if k == n {
            assert(order[at] == k);
        } else {
            assert(lists(was, k));
            let i = choose|i: int| 0 <= i < was.len() && #[trigger] was[i] == k;
            if i < at {
                assert(order[i] == k);
            } else {
                assert(order[i + 1] == k);
            }
        }
    }
}

/// The places of the names with this front and this end, in their order.
pub open spec fn chosen(names: Seq<Seq<char>>, prefix: Seq<char>, suffix: Seq<char>) -> Seq<int>
    decreases names.len(),
{
    if names.len() == 0 {
        Seq::empty()
    } else {
        let front = chosen(names.drop_last(), prefix, suffix);
        if prefix.is_prefix_of(names.last()) && suffix.is_suffix_of(names.last()) {
            front.push(names.len() - 1)
        } else {
            front
        }
    }
}

/// The keys of the places that were chosen.
pub open spec fn keys_at(keys: Seq<i128>, places: Seq<int>) -> Seq<i128> {
    places.map_values(|i: int| keys[i])
}

/// The places of the names with this front and this end, those with the
/// smallest key first.
pub open spec fn chosen_by_age(
    names: Seq<Seq<char>>,
    keys: Seq<i128>,
    prefix: Seq<char>,
    suffix: Seq<char>,
) -> Seq<int> {
    let places = chosen(names, prefix, suffix);
    stable_of(keys_at(keys, places)).map_values(|p: usize| places[p as int])
}

/// Places, as whole numbers.
pub open spec fn places(list: Seq<usize>) -> Seq<int> {
    list.map_values(|i: usize| i as int)
}

/// The places of the names with this front and this end, the oldest first.
/// `modified` says when each was last changed.
pub fn matching_by_age(
    names: &Vec<String>,
    modified: &Vec<i128>,
    prefix: &str,
    suffix: &str,
) -> (r: Vec<usize>)
    requires
        names@.len() == modified@.len(),
    ensures
        places(r@) == chosen_by_age(text::texts(names@), modified@, prefix@, suffix@),
{
    let front = chars_of(prefix);
    let end = chars_of(suffix);
    let ghost texts = text::texts(names@);
    let mut found: Vec<usize> = Vec::new();
    let mut keys: Vec<i128> = Vec::new();
    let mut i: usize = 0;
    proof {
        assert(texts.take(0) =~= Seq::<Seq<char>>::empty());
        assert(places(found@) =~= chosen(texts.take(0), prefix@, suffix@));
        assert(keys@ =~= keys_at(modified@, places(found@)));
    }
    while i < names.len()
        invariant
            i <= names@.len(),
            names@.len() == modified@.len(),
            texts == text::texts(names@),
            front@ == prefix@,
            end@ == suffix@,
            places(found@) == chosen(texts.take(i as int), prefix@, suffix@),
            keys@ == keys_at(modified@, places(found@)),
        decreases names@.len() - i,
    {
        let name = chars_of(names[i].as_str());
        proof {
            let now = texts.take(i + 1);
            assert(now.drop_last() =~= texts.take(i as int));
            assert(now.last() == name@);
        }
        if has_prefix(name.as_slice(), front.as_slice()) && has_suffix(
            name.as_slice(),
            end.as_slice(),
        ) {
            let ghost was = found@;
            found.push(i);
            keys.push(modified[i]);
            proof {
                assert(places(found@) =~= places(was).push(i as int));
                assert(keys@ =~= keys_at(modified@, places(found@)));
            }
        }
        i = i + 1;
    }
    proof {
        assert(texts.take(i as int) =~= texts);
    }
    let order = stable_order(&keys);
    let ghost all = places(found@);
    let ghost goal = chosen_by_age(texts, modified@, prefix@, suffix@);
    let mut out: Vec<usize> = Vec::new();
    let mut j: usize = 0;
    while j < order.len()
        invariant
            j <= order@.len(),
            is_stable_order(keys@, order@),
            keys@.len() == found@.len(),
            all == places(found@),
            goal == order@.map_values(|p: usize| all[p as int]),
            places(out@) =~= goal.take(j as int),
        decreases order@.len() - j,
    {
        let ghost was = out@;
        out.push(found[order[j]]);
        proof {
            assert(places(out@) =~= places(was).push(goal[j as int]));
        }
        j = j + 1;
    }
    proof {
        assert(goal.take(j as int) =~= goal);
    }
    out
}

// ---------------------------------------------------------------------------
// The oldest beyond a number.
// ---------------------------------------------------------------------------
/// Whether the name at `i` has this front and this end.
pub open spec fn fits(names: Seq<Seq<char>>, prefix: Seq<char>, suffix: Seq<char>, i: int) -> bool {
    0 <= i < names.len() && prefix.is_prefix_of(names[i]) && suffix.is_suffix_of(names[i])
}

/// Of the names with this front and this end, the places of the oldest beyond
/// the number kept. Where no number is set, all are kept.
pub open spec fn beyond(
    names: Seq<Seq<char>>,
    keys: Seq<i128>,
    prefix: Seq<char>,
    suffix: Seq<char>,
    keep: Option<usize>,
) -> Seq<int> {
    let files = chosen_by_age(names, keys, prefix, suffix);
    match keep {
        Some(n) => if files.len() > n {
            files.take(files.len() - n)
        } else {
            Seq::empty()
        },
        None => Seq::empty(),
    }
}

/// Of the names with this front and this end, the places of those that stay.
pub open spec fn within(
    names: Seq<Seq<char>>,
    keys: Seq<i128>,
    prefix: Seq<char>,
    suffix: Seq<char>,
    keep: Option<usize>,
) -> Seq<int> {
    chosen_by_age(names, keys, prefix, suffix).skip(
        beyond(names, keys, prefix, suffix, keep).len() as int,
    )
}

/// Where an item with this key goes among those that are in order.
proof fn lemma_place_for(keys: Seq<i128>, order: Seq<usize>, key: i128, at: int) -> (r: int)
    requires
        is_stable_order(keys, order),
        0 <= at <= order.len(),
        forall|k: int| at <= k < order.len() ==> keys[(#[trigger] order[k]) as int] > key,
    ensures
        0 <= r <= order.len(),
        forall|k: int| r <= k < order.len() ==> keys[(#[trigger] order[k]) as int] > key,
        r > 0 ==> keys[order[r - 1] as int] <= key,
    decreases at,
{
    if at > 0 && keys[order[at - 1] as int] > key {
        lemma_place_for(keys, order, key, at - 1)
    } else {
        at
    }
}

proof fn lemma_stable_order_exists(keys: Seq<i128>)
    requires
        keys.len() <= usize::MAX,
    ensures
        is_stable_order(keys, stable_of(keys)),
        stable_of(keys).len() == keys.len(),
    decreases keys.len(),
{
    if keys.len() == 0 {
        let none = Seq::<usize>::empty();
        assert(is_stable_order(keys, none));
        law_one_stable_order(keys, none);
    } else {
        let before = keys.drop_last();
        let was = stable_of(before);
        lemma_stable_order_exists(before);
        let at = lemma_place_for(before, was, keys.last(), was.len() as int);
        let order = was.insert(at, before.len() as usize);
        lemma_inserted(before, was, keys, order, at);
        law_one_stable_order(keys, order);
    }
}

proof fn lemma_chosen(names: Seq<Seq<char>>, prefix: Seq<char>, suffix: Seq<char>)
    ensures
        forall|i: int| #[trigger] chosen(names, prefix, suffix).contains(i) <==> fits(
            names,
            prefix,
            suffix,
            i,
        ),
        forall|a: int, b: int|
            0 <= a < b < chosen(names, prefix, suffix).len() ==> chosen(names, prefix, suffix)[a]
                < chosen(names, prefix, suffix)[b],
        chosen(names, prefix, suffix).len() <= names.len(),
    decreases names.len(),
{
    if names.len() > 0 {
        let front = names.drop_last();
        let was = chosen(front, prefix, suffix);
        let now = chosen(names, prefix, suffix);
        lemma_chosen(front, prefix, suffix);
        assert forall|a: int| 0 <= a < was.len() implies 0 <= #[trigger] was[a] < front.len() by {
            assert(was.contains(was[a]));
        }
        assert forall|i: int| #[trigger] now.contains(i) <==> fits(names, prefix, suffix, i) by {
            assert(was.contains(i) <==> fits(front, prefix, suffix, i));
            if now.contains(i) {
                let a = choose|a: int| 0 <= a < now.len() && now[a] == i;
                if a < was.len() {
                    assert(was[a] == i);
                }
            }
            if fits(names, prefix, suffix, i) {
                if i < front.len() {
                    assert(front[i] == names[i]);
                    let a = choose|a: int| 0 <= a < was.len() && was[a] == i;
                    assert(now[a] == i);
                } else {
                    assert(now[was.len() as int] == i);
                }
            }
        }
    }
}

proof fn lemma_chosen_by_age(
    names: Seq<Seq<char>>,
    keys: Seq<i128>,
    prefix: Seq<char>,
    suffix: Seq<char>,
)
    requires
        names.len() == keys.len() <= usize::MAX,
    ensures
        ({
            let files = chosen_by_age(names, keys, prefix, suffix);
            &&& forall|i: int| #[trigger] files.contains(i) <==> fits(names, prefix, suffix, i)
            &&& forall|a: int, b: int|
                0 <= a < b < files.len() ==> goes_first(keys, #[trigger] files[a], #[trigger] files[b])
        }),
{
    let places = chosen(names, prefix, suffix);
    let own = keys_at(keys, places);
    let order = stable_of(own);
    let files = chosen_by_age(names, keys, prefix, suffix);
    lemma_chosen(names, prefix, suffix);
    lemma_stable_order_exists(own);
    assert forall|i: int| #[trigger] files.contains(i) <==> fits(names, prefix, suffix, i) by {
        assert(places.contains(i) <==> fits(names, prefix, suffix, i));
        if files.contains(i) {
            let a = choose|a: int| 0 <= a < files.len() && files[a] == i;
            assert(order[a] < own.len());
            assert(places[order[a] as int] == i);
        }
        if fits(names, prefix, suffix, i) {
            let p = choose|p: int| 0 <= p < places.len() && places[p] == i;
            assert(lists(order, p));
            let a = choose|a: int| 0 <= a < order.len() && #[trigger] order[a] == p;
            assert(files[a] == i);
        }
    }
    assert forall|a: int, b: int| 0 <= a < b < files.len() implies goes_first(
        keys,
        #[trigger] files[a],
        #[trigger] files[b],
    ) by {
        assert(goes_first(own, order[a] as int, order[b] as int));
        assert(files[a] == places[order[a] as int]);
        assert(files[b] == places[order[b] as int]);
    }
}

/// What stays are the names with this front and this end that were changed
/// last, as many as are kept: every such name stays or goes, not both, and
/// none that goes was changed after one that stays.
pub proof fn law_latest_stay(
    names: Seq<Seq<char>>,
    keys: Seq<i128>,
    prefix: Seq<char>,
    suffix: Seq<char>,
    keep: Option<usize>,
)
    requires
        names.len() == keys.len() <= usize::MAX,
    ensures
        ({
            let gone = beyond(names, keys, prefix, suffix, keep);
            let left = within(names, keys, prefix, suffix, keep);
            &&& forall|i: int|
                #[trigger] fits(names, prefix, suffix, i) <==> (gone.contains(i) || left.contains(i))
            &&& forall|i: int, j: int| #[trigger]
                gone.contains(i) && #[trigger] left.contains(j) ==> goes_first(keys, i, j)
            &&& left.no_duplicates()
            &&& match keep {
                Some(n) => left.len() <= n && (gone.len() > 0 ==> left.len() == n),
                None => gone.len() == 0,
            }
        }),
{
    let files = chosen_by_age(names, keys, prefix, suffix);
    let gone = beyond(names, keys, prefix, suffix, keep);
    let left = within(names, keys, prefix, suffix, keep);
    let m = gone.len() as int;
    lemma_chosen_by_age(names, keys, prefix, suffix);
    assert(gone =~= files.take(m));
    assert forall|i: int|
        #[trigger] fits(names, prefix, suffix, i) <==> (gone.contains(i) || left.contains(i)) by {
        assert(files.contains(i) <==> fits(names, prefix, suffix, i));
        if files.contains(i) {
            let a = choose|a: int| 0 <= a < files.len() && files[a] == i;
            if a < m {
                assert(gone[a] == i);
            } else {
                assert(left[a - m] == i);
            }
        }
        if gone.contains(i) {
            let a = choose|a: int| 0 <= a < gone.len() && gone[a] == i;
            assert(files[a] == i);
        }
        if left.contains(i) {
            let a = choose|a: int| 0 <= a < left.len() && left[a] == i;
            assert(files[a + m] == i);
        }
    }
    assert forall|i: int, j: int| #[trigger]
        gone.contains(i) && #[trigger] left.contains(j) implies goes_first(keys, i, j) by {
        let a = choose|a: int| 0 <= a < gone.len() && gone[a] == i;
        let b = choose|b: int| 0 <= b < left.len() && left[b] == j;
        assert(files[a] == i);
        assert(files[b + m] == j);
    }
    assert forall|a: int, b: int| 0 <= a < left.len() && 0 <= b < left.len() && a != b implies left[a]
        != left[b] by {
        assert(left[a] == files[a + m] && left[b] == files[b + m]);
    }
}

/// The one with the smaller key goes first, and of two with the same key the
/// earlier one.
pub proof fn law_the_older_goes_first(keys: Seq<i128>, i: int, j: int)
    ensures
        keys[i] < keys[j] ==> goes_first(keys, i, j) && !goes_first(keys, j, i),
        keys[i] == keys[j] && i < j ==> goes_first(keys, i, j) && !goes_first(keys, j, i),
        !goes_first(keys, i, i),
{
}

/// The names with this front and this end are listed once each, the oldest
/// first.
pub proof fn law_names_are_listed_by_age(
    names: Seq<Seq<char>>,
    keys: Seq<i128>,
    prefix: Seq<char>,
    suffix: Seq<char>,
    a: int,
    b: int,
    i: int,
)
    requires
        names.len() == keys.len() <= usize::MAX,
    ensures
        ({
            let files = chosen_by_age(names, keys, prefix, suffix);
            &&& files.contains(i) <==> fits(names, prefix, suffix, i)
            &&& 0 <= a < b < files.len() ==> keys[files[a]] <= keys[files[b]]
            &&& 0 <= a < b < files.len() ==> files[a] != files[b]
            &&& 0 <= a < b < files.len() && keys[files[a]] == keys[files[b]] ==> files[a]
                < files[b]
        }),
{
    lemma_chosen_by_age(names, keys, prefix, suffix);
    let files = chosen_by_age(names, keys, prefix, suffix);
    assert(fits(names, prefix, suffix, i) <==> files.contains(i));
    if 0 <= a < b < files.len() {
        assert(goes_first(keys, files[a], files[b]));
    }
}

} // verus!
