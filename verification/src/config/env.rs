//! The environment in a configuration: references to variables in the text,
//! and variables that override single values.

use vstd::prelude::*;
use vstd::slice::slice_subrange;

use crate::text::{self, ascii_lower, chars_eq, chars_of, push_chars, text_of};
use crate::text_map::{self, TextMap};

verus! {

/// Where `c` first stands in `s`.
pub open spec fn index_of(s: Seq<char>, c: char) -> Option<int>
    decreases s.len(),
{
    if s.len() == 0 {
        None
    } else if s[0] == c {
        Some(0)
    } else {
        match index_of(s.skip(1), c) {
            Some(n) => Some(n + 1),
            None => None,
        }
    }
}

/// Where the two characters `a` and `b` first stand side by side in `s`.
pub open spec fn index_of_pair(s: Seq<char>, a: char, b: char) -> Option<int>
    decreases s.len(),
{
    if s.len() < 2 {
        None
    } else if s[0] == a && s[1] == b {
        Some(0)
    } else {
        match index_of_pair(s.skip(1), a, b) {
            Some(n) => Some(n + 1),
            None => None,
        }
    }
}

/// What a reference stands for: the variable, else the default behind `:-`.
pub open spec fn resolved(
    inner: Seq<char>,
    env: Map<Seq<char>, Seq<char>>,
) -> Option<Seq<char>> {
    match index_of_pair(inner, ':', '-') {
        Some(n) => {
            let name = inner.take(n as int);
            if env.contains_key(name) {
                Some(env[name])
            } else {
                Some(inner.skip(n + 2))
            }
        },
        None => if env.contains_key(inner) {
            Some(env[inner])
        } else {
            None
        },
    }
}

/// The length of what stands between the braces of a reference at the front
/// of `s`.
pub open spec fn reference_len(s: Seq<char>) -> Option<int> {
    if s.len() >= 2 && s[0] == '$' && s[1] == '{' {
        index_of(s.skip(2), '}')
    } else {
        None
    }
}

/// `s` with its references replaced. One that stands for nothing is left as
/// it is, and so is what stands between references.
pub open spec fn expanded(s: Seq<char>, env: Map<Seq<char>, Seq<char>>) -> Seq<char>
    decreases s.len(),
{
    if s.len() == 0 {
        Seq::empty()
    } else {
        match reference_len(s) {
            Some(n) => if 0 <= n && n + 3 <= s.len() {
                let value = match resolved(s.subrange(2, n + 2), env) {
                    Some(v) => v,
                    None => s.take(n + 3),
                };
                value + expanded(s.skip(n + 3), env)
            } else {
                arbitrary()
            },
            None => seq![s[0]] + expanded(s.skip(1), env),
        }
    }
}

pub(crate) fn find_char(s: &[char], c: char) -> (r: Option<usize>)
    ensures
        match (index_of(s@, c), r) {
            (Some(n), Some(i)) => i == n && i < s@.len(),
            (None, None) => true,
            _ => false,
        },
{
    let mut i: usize = 0;
    proof {
        assert(s@.skip(0) =~= s@);
    }
    while i < s.len()
        invariant
            i <= s@.len(),
            index_of(s@, c) == match index_of(s@.skip(i as int), c) {
                Some(n) => Some(n + i as int),
                None => None::<int>,
            },
        decreases s@.len() - i,
    {
        if s[i] == c {
            return Some(i);
        }
        proof {
            assert(s@.skip(i as int).skip(1) =~= s@.skip(i + 1));
        }
        i = i + 1;
    }
    None
}

fn find_pair(s: &[char], a: char, b: char) -> (r: Option<usize>)
    ensures
        match (index_of_pair(s@, a, b), r) {
            (Some(n), Some(i)) => i == n && i + 2 <= s@.len(),
            (None, None) => true,
            _ => false,
        },
{
    let mut i: usize = 0;
    proof {
        assert(s@.skip(0) =~= s@);
    }
    while i < s.len() && s.len() - i >= 2
        invariant
            i <= s@.len(),
            index_of_pair(s@, a, b) == match index_of_pair(s@.skip(i as int), a, b) {
                Some(n) => Some(n + i as int),
                None => None::<int>,
            },
        decreases s@.len() - i,
    {
        if s[i] == a && s[i + 1] == b {
            return Some(i);
        }
        proof {
            assert(s@.skip(i as int).skip(1) =~= s@.skip(i + 1));
        }
        i = i + 1;
    }
    None
}

/// Replaces `${NAME}` and `${NAME:-default}` by the variable of that name.
pub fn expand_env_vars(input: &str, env: &TextMap<String>) -> (r: String)
    ensures
        r@ == expanded(input@, text_map::text_values(env@)),
{
    let s = chars_of(input);
    let ghost vars = text_map::text_values(env@);
    let mut out = String::new();
    let mut i: usize = 0;
    proof {
        assert(s@.skip(0) =~= s@);
        assert(out@ + expanded(s@, vars) =~= expanded(s@, vars));
    }
    while i < s.len()
        invariant
            i <= s@.len(),
            vars == text_map::text_values(env@),
            out@ + expanded(s@.skip(i as int), vars) == expanded(s@, vars),
        decreases s@.len() - i,
    {
        let rest = slice_subrange(s.as_slice(), i, s.len());
        let ghost before = out@;
        let ghost left = s@.skip(i as int);
        proof {
            assert(rest@ =~= left);
        }
        let found = if rest.len() >= 2 && rest[0] == '$' && rest[1] == '{' {
            find_char(slice_subrange(rest, 2, rest.len()), '}')
        } else {
            None
        };
        match found {
            Some(n) => {
                proof {
                    assert(left.subrange(2, left.len() as int) =~= left.skip(2));
                }
                let inner = slice_subrange(rest, 2, n + 2);
                let value: Option<String> = match find_pair(inner, ':', '-') {
                    Some(k) => {
                        let name = text_of(slice_subrange(inner, 0, k));
                        proof {
                            assert(inner@.subrange(0, k as int) =~= inner@.take(k as int));
                            assert(inner@.subrange(k + 2, inner@.len() as int) =~= inner@.skip(
                                k + 2,
                            ));
                        }
                        match env.text(name.as_str()) {
                            Some(v) => Some(v.to_string()),
                            None => Some(text_of(slice_subrange(inner, k + 2, inner.len()))),
                        }
                    },
                    None => {
                        let name = text_of(inner);
                        match env.text(name.as_str()) {
                            Some(v) => Some(v.to_string()),
                            None => None,
                        }
                    },
                };
                match value {
                    Some(v) => out.append(v.as_str()),
                    None => push_chars(&mut out, slice_subrange(rest, 0, n + 3)),
                }
                proof {
                    assert(left.subrange(0, n + 3) =~= left.take(n + 3));
                    assert(left.skip(n + 3) =~= s@.skip(i + n + 3));
                    let mid = match resolved(inner@, vars) {
                        Some(v) => v,
                        None => left.take(n + 3),
                    };
                    assert(before + (mid + expanded(s@.skip(i + n + 3), vars)) =~= (before + mid)
                        + expanded(s@.skip(i + n + 3), vars));
                }
                i = i + n + 3;
            },
            None => {
                out.push(s[i]);
                proof {
                    assert(left.subrange(2, left.len() as int) =~= left.skip(2));
                    assert(left.skip(1) =~= s@.skip(i + 1));
                    assert(before + (seq![left[0]] + expanded(s@.skip(i + 1), vars)) =~= before.push(
                        left[0],
                    ) + expanded(s@.skip(i + 1), vars));
                }
                i = i + 1;
            },
        }
    }
    proof {
        assert(out@ + expanded(s@.skip(i as int), vars) =~= out@);
    }
    out
}

proof fn lemma_index_is_inside(s: Seq<char>, c: char)
    ensures
        index_of(s, c) matches Some(n) ==> 0 <= n < s.len(),
    decreases s.len(),
{
    if s.len() > 0 && s[0] != c {
        lemma_index_is_inside(s.skip(1), c);
    }
}

/// A text without references stays as it is.
pub proof fn law_other_text_stays(s: Seq<char>, env: Map<Seq<char>, Seq<char>>)
    requires
        index_of_pair(s, '$', '{') is None,
    ensures
        expanded(s, env) == s,
    decreases s.len(),
{
    if s.len() > 0 {
        if s.len() < 2 {
            assert(index_of_pair(s.skip(1), '$', '{') is None);
        }
        law_other_text_stays(s.skip(1), env);
        assert(seq![s[0]] + s.skip(1) =~= s);
    }
}

/// A text stays as it is where none of its references stands for anything.
pub proof fn law_unknown_references_stay(s: Seq<char>, env: Map<Seq<char>, Seq<char>>)
    requires
        forall|i: int, j: int|
            0 <= i <= j <= s.len() ==> resolved(#[trigger] s.subrange(i, j), env) is None,
    ensures
        expanded(s, env) == s,
    decreases s.len(),
{
    if s.len() > 0 {
        if s.len() >= 2 {
            lemma_index_is_inside(s.skip(2), '}');
        }
        let k: int = match reference_len(s) {
            Some(n) => n + 3,
            None => 1,
        };
        let rest = s.skip(k);
        assert forall|i: int, j: int| 0 <= i <= j <= rest.len() implies resolved(
            #[trigger] rest.subrange(i, j),
            env,
        ) is None by {
            assert(rest.subrange(i, j) =~= s.subrange(i + k, j + k));
        }
        law_unknown_references_stay(rest, env);
        assert(s.take(k) + rest =~= s);
        assert(seq![s[0]] =~= s.take(1));
    }
}

// ---------------------------------------------------------------------------
// Overrides.
// ---------------------------------------------------------------------------
/// `c`, a small ASCII letter turned into its capital.
pub open spec fn upper(c: char) -> char {
    if 'a' <= c <= 'z' {
        (c as nat - 32) as char
    } else {
        c
    }
}

/// What the names of overriding variables begin with: the prefix in capitals,
/// and an underscore.
pub open spec fn override_prefix(prefix: Seq<char>) -> Seq<char> {
    Seq::new(prefix.len(), |i: int| upper(prefix[i])).push('_')
}

/// `s` cut at each double underscore, from the left.
pub open spec fn path_segments(s: Seq<char>) -> Seq<Seq<char>>
    decreases s.len(),
{
    match index_of_pair(s, '_', '_') {
        Some(n) => if 0 <= n && n + 2 <= s.len() {
            seq![s.take(n as int)] + path_segments(s.skip(n + 2))
        } else {
            arbitrary()
        },
        None => seq![s],
    }
}

/// The path that a variable overrides, where its name begins with the prefix.
pub open spec fn override_path(key: Seq<char>, prefix: Seq<char>) -> Option<Seq<Seq<char>>> {
    let p = override_prefix(prefix);
    if p.is_prefix_of(key) {
        Some(path_segments(key.skip(p.len() as int)).map_values(|s: Seq<char>| text::lowered(s)))
    } else {
        None
    }
}

fn ascii_upper(c: char) -> (r: char)
    ensures
        r == upper(c),
{
    if 'a' <= c && c <= 'z' {
        (c as u8 - 32) as char
    } else {
        c
    }
}

fn lower_text(s: &[char]) -> (r: String)
    ensures
        r@ == text::lowered(s@),
{
    let mut out = String::new();
    let mut i: usize = 0;
    while i < s.len()
        invariant
            i <= s@.len(),
            out@ =~= text::lowered(s@).take(i as int),
        decreases s@.len() - i,
    {
        out.push(ascii_lower(s[i]));
        i = i + 1;
    }
    proof {
        assert(text::lowered(s@).take(i as int) =~= text::lowered(s@));
    }
    out
}

/// The path of the value that the variable `key` overrides: `OBS_AUDIT__SPOOL_DIR`
/// overrides `audit.spool_dir` under the prefix `obs`. Other variables override
/// nothing.
pub fn env_override_path(key: &str, prefix: &str) -> (r: Option<Vec<String>>)
    ensures
        match override_path(key@, prefix@) {
            Some(path) => r matches Some(list) && text::texts(list@) == path,
            None => r is None,
        },
{
    let name = chars_of(key);
    let p = chars_of(prefix);
    let ghost goal = override_prefix(prefix@);
    let mut head: Vec<char> = Vec::new();
    let mut i: usize = 0;
    while i < p.len()
        invariant
            i <= p@.len(),
            p@ == prefix@,
            goal == override_prefix(prefix@),
            head@ =~= goal.take(i as int),
        decreases p@.len() - i,
    {
        head.push(ascii_upper(p[i]));
        i = i + 1;
    }
    head.push('_');
    proof {
        assert(head@ =~= goal);
    }
    if name.len() < head.len() || !chars_eq(
        slice_subrange(name.as_slice(), 0, head.len()),
        head.as_slice(),
    ) {
        proof {
            if goal.is_prefix_of(key@) {
                assert(name@.subrange(0, goal.len() as int) =~= goal);
            }
        }
        return None;
    }
    proof {
        assert(goal.is_prefix_of(key@)) by {
            assert(key@.subrange(0, goal.len() as int) =~= goal);
        }
    }
    let mut out: Vec<String> = Vec::new();
    let mut rest = slice_subrange(name.as_slice(), head.len(), name.len());
    let ghost body = key@.skip(goal.len() as int);
    let ghost whole = override_path(key@, prefix@)->Some_0;
    proof {
        assert(rest@ =~= body);
        assert(text::texts(out@) + path_segments(rest@).map_values(|s: Seq<char>| text::lowered(s))
            =~= whole);
    }
    loop
        invariant
            text::texts(out@) + path_segments(rest@).map_values(|s: Seq<char>| text::lowered(s))
                == whole,
            override_path(key@, prefix@) == Some(whole),
        decreases rest@.len(),
    {
        let ghost was = out@;
        let ghost before = rest@;
        match find_pair(rest, '_', '_') {
            Some(n) => {
                let size: usize = rest.len();
                let segment = slice_subrange(rest, 0, n);
                let text = lower_text(segment);
                let ghost t = text@;
                out.push(text);
                rest = slice_subrange(rest, n + 2, size);
                proof {
                    assert(segment@ =~= before.take(n as int));
                    assert(rest@ =~= before.skip(n + 2));
                    assert(text::texts(out@) =~= text::texts(was).push(t));
                    let tail = path_segments(rest@);
                    assert((seq![segment@] + tail).map_values(|s: Seq<char>| text::lowered(s))
                        =~= seq![t] + tail.map_values(|s: Seq<char>| text::lowered(s)));
                    assert(text::texts(was) + (seq![t] + tail.map_values(
                        |s: Seq<char>| text::lowered(s),
                    )) =~= text::texts(out@) + tail.map_values(|s: Seq<char>| text::lowered(s)));
                }
            },
            None => {
                let text = lower_text(rest);
                let ghost t = text@;
                out.push(text);
                proof {
                    assert(text::texts(out@) =~= text::texts(was).push(t));
                    assert(seq![before].map_values(|s: Seq<char>| text::lowered(s)) =~= seq![t]);
                    assert(text::texts(was) + seq![t] =~= text::texts(out@));
                }
                return Some(out);
            },
        }
    }
}

// ---------------------------------------------------------------------------
// What a text and a variable say.
// ---------------------------------------------------------------------------
/// A character is found where it first stands, and only there.
pub proof fn law_the_first_one_is_found(s: Seq<char>, c: char, n: int)
    requires
        0 <= n <= s.len(),
        forall|j: int| 0 <= j < n ==> #[trigger] s[j] != c,
        n < s.len() ==> s[n] == c,
    ensures
        index_of(s, c) == (if n < s.len() {
            Some(n)
        } else {
            None
        }),
    decreases s.len(),
{
    if s.len() > 0 && n > 0 {
        assert(s[0] != c);
        let tail = s.skip(1);
        assert forall|j: int| 0 <= j < n - 1 implies #[trigger] tail[j] != c by {
            assert(tail[j] == s[j + 1]);
        }
        law_the_first_one_is_found(tail, c, n - 1);
    }
}

/// Whether two characters stand side by side at `j`.
pub open spec fn pair_at(s: Seq<char>, a: char, b: char, j: int) -> bool {
    0 <= j && j + 1 < s.len() && s[j] == a && s[j + 1] == b
}

/// Two characters are found where they first stand side by side, and only
/// there.
pub proof fn law_the_first_pair_is_found(s: Seq<char>, a: char, b: char, n: int)
    requires
        0 <= n <= s.len(),
        forall|j: int| 0 <= j < n ==> !#[trigger] pair_at(s, a, b, j),
        n < s.len() ==> pair_at(s, a, b, n),
    ensures
        index_of_pair(s, a, b) == (if n < s.len() {
            Some(n)
        } else {
            None
        }),
    decreases s.len(),
{
    if s.len() > 0 && n > 0 {
        assert(!pair_at(s, a, b, 0));
        if s.len() >= 2 {
            let tail = s.skip(1);
            assert forall|j: int| 0 <= j < n - 1 implies !#[trigger] pair_at(tail, a, b, j) by {
                assert(!pair_at(s, a, b, j + 1));
            }
            law_the_first_pair_is_found(tail, a, b, n - 1);
        }
    }
}

/// Whether a character stands nowhere in a text.
pub open spec fn lacks(s: Seq<char>, c: char) -> bool {
    forall|j: int| 0 <= j < s.len() ==> #[trigger] s[j] != c
}

proof fn lemma_plain_front(front: Seq<char>, tail: Seq<char>, env: Map<Seq<char>, Seq<char>>)
    requires
        lacks(front, '$'),
    ensures
        expanded(front + tail, env) == front + expanded(tail, env),
    decreases front.len(),
{
    let s = front + tail;
    if front.len() == 0 {
        assert(s =~= tail);
        assert(front + expanded(tail, env) =~= expanded(tail, env));
    } else {
        assert(s[0] == front[0]);
        assert(s.skip(1) =~= front.skip(1) + tail);
        assert forall|j: int| 0 <= j < front.skip(1).len() implies #[trigger] front.skip(1)[j]
            != '$' by {
            assert(front.skip(1)[j] == front[j + 1]);
        }
        lemma_plain_front(front.skip(1), tail, env);
        assert(seq![s[0]] + (front.skip(1) + expanded(tail, env)) =~= front + expanded(tail, env));
    }
}

proof fn lemma_reference(inner: Seq<char>, rest: Seq<char>, env: Map<Seq<char>, Seq<char>>)
    requires
        lacks(inner, '}'),
    ensures
        expanded("${"@ + inner + "}"@ + rest, env) == (match resolved(inner, env) {
            Some(v) => v,
            None => "${"@ + inner + "}"@,
        }) + expanded(rest, env),
{
    reveal_strlit("${");
    reveal_strlit("}");
    let s = "${"@ + inner + "}"@ + rest;
    let n = inner.len() as int;
    let tail = s.skip(2);
    assert forall|j: int| 0 <= j < n implies #[trigger] tail[j] != '}' by {
        assert(tail[j] == inner[j]);
    }
    assert(tail[n] == '}');
    law_the_first_one_is_found(tail, '}', n);
    assert(s.subrange(2, n + 2) =~= inner);
    assert(s.skip(n + 3) =~= rest);
    assert(s.take(n + 3) =~= "${"@ + inner + "}"@);
}

/// A reference gives the text of its variable; one to a variable that is not
/// set is left as it is. What stands before it stays, and what follows is read
/// in the same way.
pub proof fn law_a_reference_gives_its_variable(
    before: Seq<char>,
    name: Seq<char>,
    rest: Seq<char>,
    env: Map<Seq<char>, Seq<char>>,
)
    requires
        lacks(before, '$'),
        lacks(name, '}'),
        lacks(name, ':'),
    ensures
        env.contains_key(name) ==> expanded(before + ("${"@ + name + "}"@ + rest), env) == before + (
        env[name] + expanded(rest, env)),
        !env.contains_key(name) ==> expanded(before + ("${"@ + name + "}"@ + rest), env) == before
            + ("${"@ + name + "}"@ + expanded(rest, env)),
{
    assert forall|j: int| 0 <= j < name.len() implies !#[trigger] pair_at(name, ':', '-', j) by {
        assert(name[j] != ':');
    }
    law_the_first_pair_is_found(name, ':', '-', name.len() as int);
    lemma_plain_front(before, "${"@ + name + "}"@ + rest, env);
    lemma_reference(name, rest, env);
}

/// A reference with a default gives the text of its variable, and the default
/// only where the variable is not set.
pub proof fn law_a_default_stands_in_for_a_missing_variable(
    before: Seq<char>,
    name: Seq<char>,
    default: Seq<char>,
    rest: Seq<char>,
    env: Map<Seq<char>, Seq<char>>,
)
    requires
        lacks(before, '$'),
        lacks(name, '}'),
        lacks(name, ':'),
        lacks(default, '}'),
    ensures
        expanded(before + ("${"@ + (name + ":-"@ + default) + "}"@ + rest), env) == before + ((
        if env.contains_key(name) {
            env[name]
        } else {
            default
        }) + expanded(rest, env)),
{
    reveal_strlit(":-");
    let inner = name + ":-"@ + default;
    let n = name.len() as int;
    assert forall|j: int| 0 <= j < inner.len() implies #[trigger] inner[j] != '}' by {
        if j < n {
            assert(inner[j] == name[j]);
        } else if j >= n + 2 {
            assert(inner[j] == default[j - n - 2]);
        }
    }
    assert forall|j: int| 0 <= j < n implies !#[trigger] pair_at(inner, ':', '-', j) by {
        assert(inner[j] == name[j]);
    }
    assert(pair_at(inner, ':', '-', n));
    law_the_first_pair_is_found(inner, ':', '-', n);
    assert(inner.take(n) =~= name);
    assert(inner.skip(n + 2) =~= default);
    lemma_plain_front(before, "${"@ + inner + "}"@ + rest, env);
    lemma_reference(inner, rest, env);
}

/// Whether a character of a variable is that of the prefix in capitals.
pub open spec fn is_capital_of(c: char, p: char) -> bool {
    if 'a' <= p <= 'z' {
        c as nat + 32 == p as nat
    } else {
        c == p
    }
}

proof fn lemma_upper(c: char, p: char)
    ensures
        is_capital_of(c, p) <==> c == upper(p),
{
    if 'a' <= p <= 'z' {
        assert((p as nat - 32) as char as nat == p as nat - 32);
    }
}

/// A variable whose name is the prefix in capitals, an underscore and a rest
/// overrides a value: the rest spells its path, in small letters.
pub proof fn law_a_prefixed_variable_overrides(key: Seq<char>, prefix: Seq<char>, rest: Seq<char>)
    requires
        key.len() == prefix.len() + 1 + rest.len(),
        forall|i: int| 0 <= i < prefix.len() ==> is_capital_of(#[trigger] key[i], prefix[i]),
        key[prefix.len() as int] == '_',
        key.skip(prefix.len() as int + 1) == rest,
    ensures
        override_path(key, prefix) matches Some(path) && path.len() == path_segments(rest).len()
            && forall|k: int|
            0 <= k < path.len() ==> #[trigger] path[k] == text::lowered(path_segments(rest)[k]),
{
    let p = override_prefix(prefix);
    assert forall|i: int| 0 <= i < prefix.len() implies p[i] == key[i] by {
        lemma_upper(key[i], prefix[i]);
    }
    assert(p =~= key.take(p.len() as int));
}

/// A variable whose name parts from the prefix overrides nothing.
pub proof fn law_other_variables_override_nothing(key: Seq<char>, prefix: Seq<char>, i: int)
    requires
        0 <= i <= prefix.len(),
        i < key.len() ==> if i == prefix.len() {
            key[i] != '_'
        } else {
            !is_capital_of(key[i], prefix[i])
        },
    ensures
        override_path(key, prefix) is None,
{
    let p = override_prefix(prefix);
    if i < prefix.len() && i < key.len() {
        lemma_upper(key[i], prefix[i]);
    }
    if p.is_prefix_of(key) {
        assert(p[i] == key[i]);
    }
}

/// A path is cut at the first double underscore, and then again in what is
/// left; without one it is whole. Single underscores stay.
pub proof fn law_double_underscores_part_a_path(front: Seq<char>, rest: Seq<char>)
    requires
        forall|j: int| 0 <= j < front.len() ==> !#[trigger] pair_at(front, '_', '_', j),
    ensures
        path_segments(front) == seq![front],
        front.len() == 0 || front.last() != '_' ==> path_segments(front + "__"@ + rest)
            == seq![front] + path_segments(rest),
{
    reveal_strlit("__");
    law_the_first_pair_is_found(front, '_', '_', front.len() as int);
    let s = front + "__"@ + rest;
    let n = front.len() as int;
    if front.len() == 0 || front.last() != '_' {
        assert forall|j: int| 0 <= j < n implies !#[trigger] pair_at(s, '_', '_', j) by {
            assert(!pair_at(front, '_', '_', j));
            assert(s[j] == front[j]);
            if j + 1 < n {
                assert(s[j + 1] == front[j + 1]);
            }
        }
        assert(pair_at(s, '_', '_', n));
        law_the_first_pair_is_found(s, '_', '_', n);
        assert(s.take(n) =~= front);
        assert(s.skip(n + 2) =~= rest);
    }
}

} // verus!
