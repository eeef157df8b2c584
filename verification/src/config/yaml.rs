//! Single values set in a configuration that is a YAML value.

use serde_yaml::{Mapping, Value};
use vstd::prelude::*;
use vstd::slice::slice_subrange;

use crate::text;

verus! {

/// `serde_yaml::Value`, a YAML value.
#[verifier::external_type_specification]
#[verifier::external_body]
pub struct ExYamlValue(serde_yaml::Value);

/// `serde_yaml::Mapping`, the entries of a YAML mapping.
#[verifier::external_type_specification]
#[verifier::external_body]
pub struct ExYamlMapping(serde_yaml::Mapping);

/// The value that a text is read as, where it is YAML.
pub uninterp spec fn yaml_value(text: Seq<char>) -> Option<Value>;

/// The value that is just a text.
pub uninterp spec fn yaml_string(text: Seq<char>) -> Value;

/// What a mapping holds under keys that are texts.
pub uninterp spec fn mapping_entries(m: Mapping) -> Map<Seq<char>, Value>;

/// What a value holds under keys that are texts, where it is a mapping, with
/// or without a tag.
pub uninterp spec fn value_entries(v: Value) -> Option<Map<Seq<char>, Value>>;

/// `serde_yaml::from_str` reads a text as a value, or fails.
#[verifier::external_body]
fn read_yaml(text: &str) -> (r: Option<Value>)
    ensures
        r == yaml_value(text@),
{
    serde_yaml::from_str(text).ok()
}

/// `serde_yaml::Value::String` is the value that is just a text.
#[verifier::external_body]
fn text_value(text: &str) -> (r: Value)
    ensures
        r == yaml_string(text@),
{
    Value::String(text.to_string())
}

/// `serde_yaml::Mapping::new` has no entries. This is it, as a value.
#[verifier::external_body]
fn empty_mapping() -> (r: Value)
    ensures
        value_entries(r) == Some(Map::<Seq<char>, Value>::empty()),
{
    Value::Mapping(Mapping::new())
}

/// `serde_yaml::Value::is_mapping` says whether a value is a mapping, with or
/// without a tag.
#[verifier::external_body]
fn is_mapping(v: &Value) -> (r: bool)
    ensures
        r == value_entries(*v) is Some,
{
    v.is_mapping()
}

/// `serde_yaml::Value::as_mapping_mut` gives the entries of a value that is a
/// mapping, with or without a tag, to change them. It leaves any other value
/// alone.
#[verifier::external_body]
fn mapping_mut(v: &mut Value) -> (r: Option<&mut Mapping>)
    ensures
        match r {
            Some(m) => {
                &&& value_entries(*old(v)) == Some(mapping_entries(*m))
                &&& value_entries(*final(v)) == Some(mapping_entries(*final(m)))
            },
            None => value_entries(*old(v)) is None && *final(v) == *old(v),
        },
{
    v.as_mapping_mut()
}

/// `serde_yaml::Mapping::insert` gives a key a value, in place of the one it
/// may have had.
#[verifier::external_body]
fn put_entry(m: &mut Mapping, key: &str, value: Value)
    ensures
        mapping_entries(*final(m)) == mapping_entries(*old(m)).insert(key@, value),
{
    m.insert(Value::String(key.to_string()), value);
}

/// `serde_yaml::Mapping::entry` and `Entry::or_insert` give the value of a key,
/// to change it. A key that has none gets `other` first.
#[verifier::external_body]
fn entry_or<'a>(m: &'a mut Mapping, key: &str, other: Value) -> (r: &'a mut Value)
    ensures
        *r == (if mapping_entries(*old(m)).contains_key(key@) {
            mapping_entries(*old(m))[key@]
        } else {
            other
        }),
        mapping_entries(*final(m)) == mapping_entries(*old(m)).insert(key@, *final(r)),
{
    m.entry(Value::String(key.to_string())).or_insert(other)
}

/// The value that a text stands for: what it is read as, so that numbers and
/// truth values come out as such, and the text itself where it is no YAML.
pub open spec fn override_of(text: Seq<char>) -> Value {
    match yaml_value(text) {
        Some(v) => v,
        None => yaml_string(text),
    }
}

/// The value that a text stands for, from what it was read as.
pub fn read_or_text(read: Option<Value>, text: &str) -> (r: Value)
    ensures
        r == (match read {
            Some(v) => v,
            None => yaml_string(text@),
        }),
{
    match read {
        Some(v) => v,
        None => text_value(text),
    }
}

/// The value that a text stands for: what it is read as, or the text itself
/// where it is no YAML.
pub fn override_value(text: &str) -> (r: Value)
    ensures
        r == override_of(text@),
{
    read_or_text(read_yaml(text), text)
}

/// What a value holds; one that is no mapping holds nothing.
pub open spec fn entries_or_none(v: Value) -> Map<Seq<char>, Value> {
    match value_entries(v) {
        Some(e) => e,
        None => Map::empty(),
    }
}

/// What the value under a key holds; a key without a value holds nothing.
pub open spec fn entries_under(e: Map<Seq<char>, Value>, key: Seq<char>) -> Map<Seq<char>, Value> {
    if e.contains_key(key) {
        entries_or_none(e[key])
    } else {
        Map::empty()
    }
}

/// Whether `after` is a mapping of what `e` holds, with the value at `path`
/// set. On the way, a value that is no mapping makes room for one, and every
/// other entry stays.
pub open spec fn is_set_at(
    e: Map<Seq<char>, Value>,
    path: Seq<Seq<char>>,
    value: Value,
    after: Value,
) -> bool
    decreases path.len(),
{
    &&& path.len() > 0
    &&& value_entries(after) matches Some(a)
    &&& a.contains_key(path[0])
    &&& a == e.insert(path[0], a[path[0]])
    &&& if path.len() == 1 {
        a[path[0]] == value
    } else {
        is_set_at(entries_under(e, path[0]), path.skip(1), value, a[path[0]])
    }
}

/// The value at `path`.
pub open spec fn at_path(v: Value, path: Seq<Seq<char>>) -> Option<Value>
    decreases path.len(),
{
    if path.len() == 0 {
        Some(v)
    } else {
        let e = entries_or_none(v);
        if e.contains_key(path[0]) {
            at_path(e[path[0]], path.skip(1))
        } else {
            None
        }
    }
}

/// Sets the value at `path` to what a text stands for. The empty path sets
/// nothing.
pub fn apply_yaml_path(root: &mut Value, path: &[String], value: &str)
    ensures
        path@.len() == 0 ==> *final(root) == *old(root),
        path@.len() > 0 ==> is_set_at(
            entries_or_none(*old(root)),
            text::texts(path@),
            override_of(value@),
            *final(root),
        ),
    decreases path@.len(),
{
    if path.len() == 0 {
        return;
    }
    let ghost e = entries_or_none(*root);
    let ghost names = text::texts(path@);
    if !is_mapping(root) {
        *root = empty_mapping();
    }
    let head = path[0].as_str();
    let tail = slice_subrange(path, 1, path.len());
    proof {
        assert(text::texts(tail@) =~= names.skip(1));
        assert(names[0] == head@);
    }
    if let Some(map) = mapping_mut(root) {
        if tail.len() == 0 {
            put_entry(map, head, override_value(value));
        } else {
            let entry = entry_or(map, head, empty_mapping());
            apply_yaml_path(entry, tail, value);
        }
    }
    proof {
        let a = value_entries(*root)->Some_0;
        assert(a =~= e.insert(names[0], a[names[0]]));
    }
}

/// A value that was set is found at its path.
pub proof fn law_set_value_is_found(
    e: Map<Seq<char>, Value>,
    path: Seq<Seq<char>>,
    value: Value,
    after: Value,
)
    requires
        is_set_at(e, path, value, after),
    ensures
        at_path(after, path) == Some(value),
    decreases path.len(),
{
    reveal_with_fuel(at_path, 2);
    if path.len() > 1 {
        let a = value_entries(after)->Some_0;
        law_set_value_is_found(entries_under(e, path[0]), path.skip(1), value, a[path[0]]);
    }
}

/// What stands at a path that parts from the one that was set stays as it was.
pub proof fn law_other_paths_stay(
    before: Value,
    path: Seq<Seq<char>>,
    value: Value,
    after: Value,
    other: Seq<Seq<char>>,
    k: int,
)
    requires
        is_set_at(entries_or_none(before), path, value, after),
        0 <= k < path.len(),
        k < other.len(),
        forall|i: int| 0 <= i < k ==> path[i] == other[i],
        path[k] != other[k],
    ensures
        at_path(after, other) == at_path(before, other),
    decreases path.len(),
{
    let e = entries_or_none(before);
    let a = value_entries(after)->Some_0;
    if k > 0 {
        assert(path[0] == other[0]);
        assert(path.len() > 1);
        let child = a[path[0]];
        let rest = other.skip(1);
        assert forall|i: int| 0 <= i < k - 1 implies path.skip(1)[i] == rest[i] by {
            assert(path[i + 1] == other[i + 1]);
        }
        assert(path.skip(1)[k - 1] == path[k]);
        assert(rest[k - 1] == other[k]);
        if e.contains_key(path[0]) {
            law_other_paths_stay(e[path[0]], path.skip(1), value, child, rest, k - 1);
        } else {
            lemma_nothing_stays(path.skip(1), value, child, rest, k - 1);
        }
    }
}

/// Nothing stands at a path that parts from the only one that was set.
proof fn lemma_nothing_stays(
    path: Seq<Seq<char>>,
    value: Value,
    after: Value,
    other: Seq<Seq<char>>,
    k: int,
)
    requires
        is_set_at(Map::empty(), path, value, after),
        0 <= k < path.len(),
        k < other.len(),
        forall|i: int| 0 <= i < k ==> path[i] == other[i],
        path[k] != other[k],
    ensures
        at_path(after, other) is None,
    decreases path.len(),
{
    let a = value_entries(after)->Some_0;
    if k > 0 {
        assert(path[0] == other[0]);
        let rest = other.skip(1);
        assert forall|i: int| 0 <= i < k - 1 implies path.skip(1)[i] == rest[i] by {
            assert(path[i + 1] == other[i + 1]);
        }
        assert(path.skip(1)[k - 1] == path[k]);
        assert(rest[k - 1] == other[k]);
        lemma_nothing_stays(path.skip(1), value, a[path[0]], rest, k - 1);
    }
}

/// A text that is YAML stands for what it is read as, and any other for itself.
pub proof fn law_yaml_is_read_and_other_text_kept(text: Seq<char>, v: Value)
    ensures
        yaml_value(text) == Some(v) ==> override_of(text) == v,
        yaml_value(text) is None ==> override_of(text) == yaml_string(text),
{
}

/// A value is found by the names of its path, one after another from the
/// outside in.
pub proof fn law_paths_lead_inwards(v: Value, name: Seq<char>, rest: Seq<Seq<char>>)
    ensures
        at_path(v, Seq::empty()) == Some(v),
        value_entries(v) is None ==> at_path(v, seq![name] + rest) is None,
        value_entries(v) matches Some(e) ==> at_path(v, seq![name] + rest) == (if e.contains_key(
            name,
        ) {
            at_path(e[name], rest)
        } else {
            None
        }),
{
    let path = seq![name] + rest;
    assert(path.skip(1) =~= rest);
    assert(path[0] == name);
}

} // verus!
