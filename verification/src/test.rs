//! What tests ask of the envelopes that were emitted.

use vstd::prelude::*;

use crate::envelope::{EnvelopeView, ObsEnvelope};
use crate::registry::payload_decode::{self, PayloadJson};
use crate::registry::{self, SchemaRegistry};
use crate::scope::frame;
use crate::sink::stdout::{self, compact_labels};
use crate::text::{self, chars_of, has_suffix, push_decimal, text_eq};
use crate::text_map::{self, TextMap};

verus! {

/// The line of an envelope.
pub open spec fn emitted_line(i: nat, env: EnvelopeView) -> Seq<char> {
    ("  ["@ + text::decimal(i) + "] "@ + env.full_name + " labels="@ + (seq!['{']
        + stdout::listed_labels(text_map::ordered(env.labels)).push('}'))).push('\n')
}

/// The lines of envelopes.
pub open spec fn emitted_lines(list: Seq<EnvelopeView>) -> Seq<char>
    decreases list.len(),
{
    if list.len() == 0 {
        Seq::empty()
    } else {
        emitted_lines(list.drop_last()) + emitted_line((list.len() - 1) as nat, list.last())
    }
}

/// The first envelopes, at most `cap` of them, each on a line of its own.
#[must_use]
pub fn render_emitted(emitted: &Vec<ObsEnvelope>, cap: usize) -> (r: String)
    ensures
        r@ == emitted_lines(
            frame::envelope_views(emitted@).take(
                if emitted@.len() <= cap {
                    emitted@.len() as int
                } else {
                    cap as int
                },
            ),
        ),
{
    let ghost views = frame::envelope_views(emitted@);
    let n: usize = if emitted.len() <= cap {
        emitted.len()
    } else {
        cap
    };
    let mut out = String::new();
    let mut i: usize = 0;
    proof {
        assert(views.take(0) =~= Seq::<EnvelopeView>::empty());
    }
    while i < n
        invariant
            i <= n <= emitted@.len(),
            views == frame::envelope_views(emitted@),
            out@ == emitted_lines(views.take(i as int)),
        decreases n - i,
    {
        let ghost start = out@;
        let env = &emitted[i];
        out.append("  [");
        push_decimal(&mut out, i as u64);
        out.append("] ");
        out.append(env.full_name.as_str());
        out.append(" labels=");
        out.append(compact_labels(env).as_str());
        out.push('\n');
        proof {
            let now = views.take(i + 1);
            assert(now.drop_last() =~= views.take(i as int));
            assert(now.last() == env@);
            assert(out@ =~= start + emitted_line(i as nat, env@));
        }
        i = i + 1;
    }
    out
}

/// The fields of an envelope's payload, where it has one whose schema is known
/// and that can be read.
#[must_use]
pub fn render_envelope_payload_json(env: &ObsEnvelope, registry: &SchemaRegistry) -> (r: Option<
    Vec<(&'static str, PayloadJson)>,
>)
    ensures
        ({
            let schema = registry::schema_for(registry@, env@.schema_hash, env@.full_name);
            let walked = payload_decode::walk(env@.payload, 0);
            if env@.payload.len() > 0 && schema is Some && walked.fault is None {
                r matches Some(list) && payload_decode::json_view(list@)
                    == payload_decode::json_entries(
                    payload_decode::declared(schema->Some_0.fields, walked.fields),
                )
            } else {
                r is None
            }
        }),
{
    if env.payload.len() == 0 {
        return None;
    }
    match registry.lookup(env) {
        Some(schema) => {
            let mut out: Vec<(&'static str, PayloadJson)> = Vec::new();
            match schema.render_json(env.payload.as_slice(), &mut out) {
                Ok(()) => {
                    proof {
                        let fields = payload_decode::json_entries(
                            payload_decode::declared(
                                schema@.fields,
                                payload_decode::walk(env@.payload, 0).fields,
                            ),
                        );
                        let none: Seq<(&'static str, PayloadJson)> = Seq::empty();
                        assert(payload_decode::json_view(none) + fields =~= fields);
                    }
                    Some(out)
                },
                Err(_) => None,
            }
        },
        None => None,
    }
}

/// The fields of a payload as text, where they are known.
pub open spec fn payload_texts(payload: Option<TextMap<String>>) -> Option<
    Map<Seq<char>, Seq<char>>,
> {
    match payload {
        Some(m) => Some(text_map::text_values(m@)),
        None => None,
    }
}

/// Whether an envelope is of a type, by the last part of its name, and each
/// field that is asked for stands with its value among the labels or, as text,
/// among the fields of the payload.
pub open spec fn is_match(
    env: EnvelopeView,
    event_type: Seq<char>,
    asked: Seq<(&str, &str)>,
    payload: Option<Map<Seq<char>, Seq<char>>>,
) -> bool {
    &&& (seq!['.'] + event_type).is_suffix_of(env.full_name)
    &&& forall|i: int|
        0 <= i < asked.len() ==> {
            let (k, v) = (#[trigger] asked[i]);
            env.labels.contains_pair(k@, v@) || (payload matches Some(p) && p.contains_pair(
                k@,
                v@,
            ))
        }
}

/// Whether an envelope is of a type, by the last part of its name, and has
/// each field that is asked for.
pub fn matches_emitted(
    env: &ObsEnvelope,
    event_type: &str,
    asked: &Vec<(&str, &str)>,
    payload: &Option<TextMap<String>>,
) -> (r: bool)
    ensures
        r == is_match(
            env@,
            event_type@,
            asked@,
            payload_texts(*payload),
        ),
{
    let ghost fields = payload_texts(*payload);
    let mut end = String::new();
    end.push('.');
    end.append(event_type);
    assert(end@ =~= seq!['.'] + event_type@);
    let suffix = chars_of(end.as_str());
    let name = chars_of(env.full_name.as_str());
    if !has_suffix(name.as_slice(), suffix.as_slice()) {
        return false;
    }
    let mut i: usize = 0;
    while i < asked.len()
        invariant
            i <= asked@.len(),
            fields == payload_texts(*payload),
            forall|k: int|
                0 <= k < i ==> env@.labels.contains_pair((#[trigger] asked@[k]).0@, asked@[k].1@)
                    || (fields matches Some(p) && p.contains_pair(asked@[k].0@, asked@[k].1@)),
        decreases asked@.len() - i,
    {
        let (k, v) = asked[i];
        let labelled = match env.label(k) {
            Some(actual) => text_eq(actual, v),
            None => false,
        };
        if !labelled {
            let in_payload = match payload {
                Some(m) => match m.text(k) {
                    Some(actual) => text_eq(actual, v),
                    None => false,
                },
                None => false,
            };
            if !in_payload {
                assert(asked@[i as int] == (k, v));
                return false;
            }
        }
        i = i + 1;
    }
    true
}

/// What is said where no envelope matched. `asked` says whether fields were
/// asked for.
pub open spec fn miss_text(event_type: Seq<char>, asked: bool, captured: Seq<char>) -> Seq<char> {
    "assert_emitted!: no envelope matched `"@ + event_type + (if asked {
        "` with the supplied label fields.\nCaptured envelopes:\n"@
    } else {
        "`.\nCaptured envelopes:\n"@
    }) + captured
}

/// What is said where no envelope matched: the type that was asked for and the
/// first envelopes that were captured.
#[must_use]
pub fn miss_message(event_type: &str, asked: bool, emitted: &Vec<ObsEnvelope>) -> (r: String)
    ensures
        r@ == miss_text(
            event_type@,
            asked,
            emitted_lines(
                frame::envelope_views(emitted@).take(
                    if emitted@.len() <= 16 {
                        emitted@.len() as int
                    } else {
                        16
                    },
                ),
            ),
        ),
{
    let mut out = String::new();
    out.append("assert_emitted!: no envelope matched `");
    out.append(event_type);
    if asked {
        out.append("` with the supplied label fields.\nCaptured envelopes:\n");
    } else {
        out.append("`.\nCaptured envelopes:\n");
    }
    let captured = render_emitted(emitted, 16);
    out.append(captured.as_str());
    assert(out@ =~= miss_text(event_type@, asked, captured@));
    out
}

/// Envelopes are told in their order, each on a line that begins with its place
/// and its name.
pub proof fn law_envelopes_are_told_in_order(list: Seq<EnvelopeView>, env: EnvelopeView)
    ensures
        emitted_lines(list.push(env)) == emitted_lines(list) + emitted_line(list.len(), env),
        emitted_lines(Seq::empty()).len() == 0,
        ("  ["@ + text::decimal(list.len()) + "] "@ + env.full_name).is_prefix_of(
            emitted_line(list.len(), env),
        ),
        emitted_line(list.len(), env).last() == '\n',
{
    assert(list.push(env).drop_last() =~= list);
    let head = "  ["@ + text::decimal(list.len()) + "] "@ + env.full_name;
    let line = emitted_line(list.len(), env);
    assert(line.take(head.len() as int) =~= head);
}

/// An envelope matches by the part of its name behind a dot, and has to have
/// every field that is asked for.
pub proof fn law_a_match_has_all_that_is_asked(
    env: EnvelopeView,
    front: Seq<char>,
    event_type: Seq<char>,
    asked: Seq<(&str, &str)>,
    payload: Option<Map<Seq<char>, Seq<char>>>,
    key: &str,
    value: &str,
)
    ensures
        env.full_name == front + "."@ + event_type ==> is_match(
            env,
            event_type,
            Seq::empty(),
            payload,
        ),
        is_match(env, event_type, asked, payload) ==> exists|f: Seq<char>|
            env.full_name == #[trigger] (f + ("."@ + event_type)),
        env.labels.contains_pair(key@, value@) ==> (is_match(
            env,
            event_type,
            asked.push((key, value)),
            payload,
        ) <==> is_match(env, event_type, asked, payload)),
        (payload matches Some(p) && p.contains_pair(key@, value@)) ==> (is_match(
            env,
            event_type,
            asked.push((key, value)),
            payload,
        ) <==> is_match(env, event_type, asked, payload)),
        !env.labels.contains_pair(key@, value@) && !(payload matches Some(p) && p.contains_pair(
            key@,
            value@,
        )) ==> !is_match(env, event_type, asked.push((key, value)), payload),
{
    reveal_strlit(".");
    let end = seq!['.'] + event_type;
    assert("."@ + event_type =~= end);
    if env.full_name == front + "."@ + event_type {
        let s = env.full_name;
        assert(end =~= s.subrange(s.len() - end.len(), s.len() as int));
    }
    if is_match(env, event_type, asked, payload) {
        let s = env.full_name;
        let f = s.take(s.len() - end.len());
        assert(s =~= f + ("."@ + event_type));
    }
    let more = asked.push((key, value));
    assert(more[asked.len() as int] == (key, value));
    assert forall|i: int| 0 <= i < asked.len() implies #[trigger] more[i] == asked[i] by {}
    if is_match(env, event_type, more, payload) {
        assert forall|i: int| 0 <= i < asked.len() implies {
            let (k, v) = (#[trigger] asked[i]);
            env.labels.contains_pair(k@, v@) || (payload matches Some(p) && p.contains_pair(
                k@,
                v@,
            ))
        } by {
            assert(more[i] == asked[i]);
        }
    }
}

/// What is said where nothing matched names the type, and ends with what was
/// captured.
pub proof fn law_a_miss_names_the_type(event_type: Seq<char>, asked: bool, captured: Seq<char>)
    ensures
        ("assert_emitted!: no envelope matched `"@ + event_type + "`"@).is_prefix_of(
            miss_text(event_type, asked, captured),
        ),
        captured.is_suffix_of(miss_text(event_type, asked, captured)),
        miss_text(event_type, true, captured).len() > miss_text(event_type, false, captured).len(),
{
    reveal_strlit("`");
    reveal_strlit("` with the supplied label fields.\nCaptured envelopes:\n");
    reveal_strlit("`.\nCaptured envelopes:\n");
    let all = miss_text(event_type, asked, captured);
    let head = "assert_emitted!: no envelope matched `"@ + event_type + "`"@;
    assert(head =~= all.take(head.len() as int));
    assert(captured =~= all.subrange(all.len() - captured.len(), all.len() as int));
}

} // verus!
