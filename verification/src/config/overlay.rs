//! What variables of the environment override in a configuration.

use serde_yaml::Value;
use vstd::prelude::*;

use super::env::{self, env_override_path};
use super::yaml::{self, apply_yaml_path};

verus! {

/// Variables and their texts.
pub open spec fn var_texts(vars: Seq<(String, String)>) -> Seq<(Seq<char>, Seq<char>)> {
    vars.map_values(|p: (String, String)| (p.0@, p.1@))
}

/// Whether `after` is the value with what one variable overrides.
pub open spec fn is_overridden(
    before: Value,
    var: (Seq<char>, Seq<char>),
    prefix: Seq<char>,
    after: Value,
) -> bool {
    match env::override_path(var.0, prefix) {
        Some(path) => yaml::is_set_at(
            yaml::entries_or_none(before),
            path,
            yaml::override_of(var.1),
            after,
        ),
        None => after == before,
    }
}

/// Whether `after` is the value with what the variables override, one after
/// another.
pub open spec fn is_overlaid(
    before: Value,
    vars: Seq<(Seq<char>, Seq<char>)>,
    prefix: Seq<char>,
    after: Value,
) -> bool
    decreases vars.len(),
{
    if vars.len() == 0 {
        after == before
    } else {
        exists|mid: Value|
            is_overlaid(before, vars.drop_last(), prefix, mid) && #[trigger] is_overridden(
                mid,
                vars.last(),
                prefix,
                after,
            )
    }
}

/// The configuration with what the variables override whose names begin with
/// the prefix. Where two override the same value the later one counts.
pub fn merged_with_env(root: Value, vars: &Vec<(String, String)>, prefix: &str) -> (r: Value)
    ensures
        is_overlaid(root, var_texts(vars@), prefix@, r),
{
    let ghost start = root;
    let ghost all = var_texts(vars@);
    let mut root = root;
    let mut i: usize = 0;
    proof {
        assert(all.take(0).len() == 0);
    }
    while i < vars.len()
        invariant
            i <= vars@.len(),
            all == var_texts(vars@),
            is_overlaid(start, all.take(i as int), prefix@, root),
        decreases vars@.len() - i,
    {
        let ghost mid = root;
        let var = &vars[i];
        if let Some(path) = env_override_path(var.0.as_str(), prefix) {
            proof {
                lemma_path_is_not_empty(var.0@, prefix@);
            }
            apply_yaml_path(&mut root, path.as_slice(), var.1.as_str());
        }
        proof {
            let now = all.take(i + 1);
            assert(now.drop_last() =~= all.take(i as int));
            assert(now.last() == (var.0@, var.1@));
            assert(is_overridden(mid, now.last(), prefix@, root));
        }
        i = i + 1;
    }
    proof {
        assert(all.take(i as int) =~= all);
    }
    root
}

proof fn lemma_pair_is_inside(s: Seq<char>, a: char, b: char)
    ensures
        env::index_of_pair(s, a, b) matches Some(n) ==> 0 <= n && n + 2 <= s.len(),
    decreases s.len(),
{
    if s.len() >= 2 && !(s[0] == a && s[1] == b) {
        lemma_pair_is_inside(s.skip(1), a, b);
    }
}

proof fn lemma_path_is_not_empty(key: Seq<char>, prefix: Seq<char>)
    ensures
        env::override_path(key, prefix) matches Some(path) ==> path.len() > 0,
{
    if let Some(path) = env::override_path(key, prefix) {
        let rest = key.skip(env::override_prefix(prefix).len() as int);
        lemma_pair_is_inside(rest, '_', '_');
        assert(env::path_segments(rest).len() > 0);
    }
}

/// A variable sets the value at its path, whatever other variables said of it
/// before.
pub proof fn law_last_variable_counts(
    before: Value,
    vars: Seq<(Seq<char>, Seq<char>)>,
    prefix: Seq<char>,
    key: Seq<char>,
    text: Seq<char>,
    after: Value,
)
    requires
        is_overlaid(before, vars.push((key, text)), prefix, after),
    ensures
        env::override_path(key, prefix) matches Some(path) ==> yaml::at_path(after, path) == Some(
            yaml::override_of(text),
        ),
{
    if let Some(path) = env::override_path(key, prefix) {
        let all = vars.push((key, text));
        assert(all.drop_last() =~= vars);
        let mid = choose|mid: Value|
            is_overlaid(before, all.drop_last(), prefix, mid) && #[trigger] is_overridden(
                mid,
                all.last(),
                prefix,
                after,
            );
        yaml::law_set_value_is_found(
            yaml::entries_or_none(mid),
            path,
            yaml::override_of(text),
            after,
        );
    }
}

/// Variables whose names say nothing of the prefix leave the configuration as
/// it is.
pub proof fn law_unnamed_variables_change_nothing(
    before: Value,
    vars: Seq<(Seq<char>, Seq<char>)>,
    prefix: Seq<char>,
    after: Value,
)
    requires
        is_overlaid(before, vars, prefix, after),
        forall|i: int|
            0 <= i < vars.len() ==> env::override_path((#[trigger] vars[i]).0, prefix) is None,
    ensures
        after == before,
    decreases vars.len(),
{
    if vars.len() > 0 {
        let mid = choose|mid: Value|
            is_overlaid(before, vars.drop_last(), prefix, mid) && #[trigger] is_overridden(
                mid,
                vars.last(),
                prefix,
                after,
            );
        assert(vars.last() == vars[vars.len() - 1]);
        assert forall|i: int| 0 <= i < vars.drop_last().len() implies env::override_path(
            (#[trigger] vars.drop_last()[i]).0,
            prefix,
        ) is None by {
            assert(vars.drop_last()[i] == vars[i]);
        }
        law_unnamed_variables_change_nothing(before, vars.drop_last(), prefix, mid);
    }
}

/// A variable leaves what stands at other paths as the variables before it left
/// it.
pub proof fn law_a_variable_changes_one_path(
    before: Value,
    vars: Seq<(Seq<char>, Seq<char>)>,
    prefix: Seq<char>,
    after: Value,
    other: Seq<Seq<char>>,
    k: int,
) -> (mid: Value)
    requires
        vars.len() > 0,
        is_overlaid(before, vars, prefix, after),
        env::override_path(vars.last().0, prefix) matches Some(path) && 0 <= k < path.len() && k
            < other.len() && path[k] != other[k] && forall|i: int|
            0 <= i < k ==> #[trigger] path[i] == other[i],
    ensures
        is_overlaid(before, vars.drop_last(), prefix, mid),
        yaml::at_path(after, other) == yaml::at_path(mid, other),
{
    let path = env::override_path(vars.last().0, prefix)->Some_0;
    let mid = choose|mid: Value|
        is_overlaid(before, vars.drop_last(), prefix, mid) && #[trigger] is_overridden(
            mid,
            vars.last(),
            prefix,
            after,
        );
    yaml::law_other_paths_stay(mid, path, yaml::override_of(vars.last().1), after, other, k);
    mid
}

} // verus!
