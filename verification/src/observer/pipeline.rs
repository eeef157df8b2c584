//! What happens to an envelope between the emit and the sink.

use vstd::prelude::*;

use crate::config::{self, EventsConfig};
use crate::envelope::{record, EnvelopeView, ObsEnvelope};
use crate::filter::{self, Filter, FilterView};
use crate::sampling::{self, decide as sample_decide, Draws, SamplingDecision};
use crate::scope::{
    self, auto_fill_envelope, frame, guard, inbound_traceparent_sampled,
    mark_error_on_active_scopes, push_tail_buffer, FrameView, ScopeStack,
};
use crate::self_events;
use crate::text;
use crate::text_map;
use crate::types::{EnumValue, SamplingReason, Severity};

verus! {

// ---------------------------------------------------------------------------
// What becomes of an envelope.
// ---------------------------------------------------------------------------
/// What became of an envelope that was emitted.
#[derive(Debug)]
pub enum EmitOutcome {
    /// It goes on to its sink.
    Forward,
    /// The innermost scope holds it back.
    Held,
    /// Its payload is too large: this many bytes.
    OversizedPayload {
        size: u64,
    },
    /// One of its labels is too large: this one, of this many bytes.
    OversizedLabel {
        label: String,
        size: u64,
    },
    /// The filter does not let it pass.
    Filtered,
    /// The sampler dropped it.
    Unsampled,
}

/// What became of an envelope that was emitted.
pub enum OutcomeView {
    Forward,
    Held,
    OversizedPayload { size: nat },
    OversizedLabel { label: Seq<char>, size: nat },
    Filtered,
    Unsampled,
}

impl View for EmitOutcome {
    type V = OutcomeView;

    open spec fn view(&self) -> OutcomeView {
        match *self {
            EmitOutcome::Forward => OutcomeView::Forward,
            EmitOutcome::Held => OutcomeView::Held,
            EmitOutcome::OversizedPayload { size } => OutcomeView::OversizedPayload {
                size: size as nat,
            },
            EmitOutcome::OversizedLabel { label, size } => OutcomeView::OversizedLabel {
                label: label@,
                size: size as nat,
            },
            EmitOutcome::Filtered => OutcomeView::Filtered,
            EmitOutcome::Unsampled => OutcomeView::Unsampled,
        }
    }
}

/// The event that tells what was too large in an envelope.
pub open spec fn oversized_event(full_name: Seq<char>, outcome: OutcomeView) -> Option<
    EnvelopeView,
> {
    let named = self_events::labelled(
        self_events::base("obs.runtime.v1.ObsOversizedDropped"@, Severity::Warn),
        "full_name"@,
        full_name,
    );
    match outcome {
        OutcomeView::OversizedPayload { size } => Some(
            self_events::labelled(named, "size_bytes"@, text::decimal(size)),
        ),
        OutcomeView::OversizedLabel { label, size } => Some(
            self_events::labelled(
                self_events::labelled(
                    self_events::labelled(named, "label_name"@, label),
                    "size_bytes"@,
                    text::decimal(size),
                ),
                "reason"@,
                "label"@,
            ),
        ),
        _ => None,
    }
}

/// An event that may be missing.
pub open spec fn opt_event(event: Option<ObsEnvelope>) -> Option<EnvelopeView> {
    match event {
        Some(e) => Some(e@),
        None => None,
    }
}

impl EmitOutcome {
    /// Whether the envelope goes on.
    pub fn is_kept(&self) -> (r: bool)
        ensures
            r == (self@ is Forward),
    {
        match self {
            EmitOutcome::Forward => true,
            _ => false,
        }
    }

    /// The event that tells of an envelope with this name that was too large.
    pub fn event(&self, full_name: &str) -> (r: Option<ObsEnvelope>)
        ensures
            opt_event(r) == oversized_event(full_name@, self@),
    {
        match self {
            EmitOutcome::OversizedPayload { size } => Some(
                self_events::oversized_dropped(full_name, *size),
            ),
            EmitOutcome::OversizedLabel { label, size } => Some(
                self_events::oversized_label_dropped(full_name, label.as_str(), *size),
            ),
            _ => None,
        }
    }
}

/// Whether a label is too large.
pub open spec fn is_long(labels: Map<Seq<char>, Seq<char>>, max: nat, k: Seq<char>) -> bool {
    labels.contains_key(k) && text::byte_len(labels[k]) > max
}

/// Whether some label is too large.
pub open spec fn has_long(labels: Map<Seq<char>, Seq<char>>, max: nat) -> bool {
    exists|k: Seq<char>| #[trigger] is_long(labels, max, k)
}

/// Whether this is the first label, in the order of the keys, that is too
/// large.
pub open spec fn is_first_long(labels: Map<Seq<char>, Seq<char>>, max: nat, k: Seq<char>) -> bool {
    &&& is_long(labels, max, k)
    &&& forall|o: Seq<char>| #[trigger]
        is_long(labels, max, o) ==> o == k || text_map::text_before(k, o)
}

/// The first label, in the order of the keys, that is too large.
pub open spec fn first_long(labels: Map<Seq<char>, Seq<char>>, max: nat) -> Seq<char> {
    choose|k: Seq<char>| is_first_long(labels, max, k)
}

/// There is one first label.
proof fn lemma_first_long(labels: Map<Seq<char>, Seq<char>>, max: nat, k: Seq<char>)
    requires
        is_first_long(labels, max, k),
    ensures
        has_long(labels, max),
        first_long(labels, max) == k,
{
    let c = first_long(labels, max);
    assert(is_long(labels, max, c));
    assert(is_long(labels, max, k));
    if c != k {
        text_map::lemma_before_order(c, k);
    }
}

/// Whether the reason for which an envelope was made lets it pass the sampler.
pub open spec fn bypasses(reason: EnumValue<SamplingReason>) -> bool {
    match record::known_reason(reason) {
        SamplingReason::Forensic => true,
        SamplingReason::Audit => true,
        SamplingReason::Override => true,
        _ => false,
    }
}

/// What the sampler decides, and the state of its generator after that.
pub open spec fn sampled(
    cfg: config::SamplingConfig,
    full_name: Seq<char>,
    sev: Severity,
    inbound: Option<bool>,
    draws: u64,
) -> (SamplingDecision, u64) {
    match sampling::decided(cfg, full_name, sev, inbound) {
        Some(d) => (d, draws),
        None => (
            sampling::drawn(
                sampling::rate_of(cfg, full_name),
                (sampling::xorshift(draws) >> 11u64) as nat,
            ),
            sampling::xorshift(draws),
        ),
    }
}

/// An envelope on its way, with what it changes on the way.
pub struct Passage {
    /// What became of it.
    pub outcome: OutcomeView,
    /// The envelope.
    pub env: EnvelopeView,
    /// The open scopes.
    pub frames: Seq<FrameView>,
    /// The state of the generator that the sampler draws from.
    pub draws: u64,
}

/// What happens to an envelope that passed the sampler: one that is only
/// interesting where something goes wrong is held back by the innermost scope
/// if that does so, and an error marks the open scopes.
pub open spec fn after_sampler(
    env: EnvelopeView,
    sev: Severity,
    frames: Seq<FrameView>,
    draws: u64,
) -> Passage {
    if sev == Severity::Trace || sev == Severity::Debug {
        Passage {
            outcome: if scope::top_buffers(frames) {
                OutcomeView::Held
            } else {
                OutcomeView::Forward
            },
            env,
            frames: scope::tail_pushed(frames, env),
            draws,
        }
    } else if sev.rank() >= Severity::Error.rank() {
        Passage { outcome: OutcomeView::Forward, env, frames: scope::all_marked(frames), draws }
    } else {
        Passage { outcome: OutcomeView::Forward, env, frames, draws }
    }
}

/// What happens to an envelope: it takes from the scopes what it lacks, is
/// held against the limits and the filter, and then sampled unless the reason
/// for which it was made forbids that.
pub open spec fn passage(
    cfg: EventsConfig,
    f: FilterView,
    given: EnvelopeView,
    sev: Severity,
    frames: Seq<FrameView>,
    draws: u64,
) -> Passage {
    let env = scope::filled_from(given, scope::fields_in_reach(frames));
    let max_payload = cfg.limits.max_payload_bytes;
    let max_label = cfg.limits.max_label_value_bytes as nat;
    if max_payload > 0 && env.payload.len() > max_payload {
        let outcome = OutcomeView::OversizedPayload { size: env.payload.len() };
        Passage { outcome, env, frames, draws }
    } else if max_label > 0 && has_long(env.labels, max_label) {
        let label = first_long(env.labels, max_label);
        let outcome = OutcomeView::OversizedLabel {
            label,
            size: text::byte_len(env.labels[label]),
        };
        Passage { outcome, env, frames, draws }
    } else if !filter::allows(f, env.full_name, env.labels, sev) {
        Passage { outcome: OutcomeView::Filtered, env, frames, draws }
    } else if bypasses(env.sampling_reason) {
        Passage { outcome: OutcomeView::Forward, env, frames, draws }
    } else {
        let (decision, next) = sampled(
            cfg.sampling,
            env.full_name,
            sev,
            scope::upstream(frames),
            draws,
        );
        match decision {
            SamplingDecision::Drop => Passage {
                outcome: OutcomeView::Unsampled,
                env,
                frames,
                draws: next,
            },
            SamplingDecision::ParentSet { sampled: false } => Passage {
                outcome: OutcomeView::Unsampled,
                env,
                frames,
                draws: next,
            },
            SamplingDecision::Keep => after_sampler(env, sev, frames, next),
            SamplingDecision::ParentSet { sampled: true } => after_sampler(
                EnvelopeView {
                    sampling_reason: EnumValue::Known(SamplingReason::Override),
                    ..env
                },
                sev,
                frames,
                next,
            ),
        }
    }
}

/// The first label, in the order of the keys, that is too large, and its size.
fn find_long(env: &ObsEnvelope, max: usize) -> (r: Option<(String, usize)>)
    ensures
        match r {
            Some((k, n)) => {
                &&& has_long(env@.labels, max as nat)
                &&& k@ == first_long(env@.labels, max as nat)
                &&& n == text::byte_len(env@.labels[k@])
            },
            None => !has_long(env@.labels, max as nat),
        },
{
    let ghost labels = env@.labels;
    let ghost pairs = env.labels.pairs();
    let n: usize = env.labels.len();
    let mut i: usize = 0;
    while i < n
        invariant
            i <= n,
            n == pairs.len(),
            pairs == env.labels.pairs(),
            labels == env@.labels,
            text_map::entries_in_order(env.labels@, pairs),
            forall|j: int| 0 <= j < i ==> !is_long(labels, max as nat, (#[trigger] pairs[j]).0),
        decreases n - i,
    {
        let (key, value) = env.labels.at(i);
        let size: usize = value.as_str().as_bytes().len();
        if size > max {
            proof {
                let k = key@;
                assert(labels[k] == value@);
                assert(is_long(labels, max as nat, k));
                assert forall|o: Seq<char>| #[trigger] is_long(labels, max as nat, o) implies o == k
                    || text_map::text_before(k, o) by {
                    assert(env.labels@.contains_key(o));
                    let j = choose|j: int| 0 <= j < pairs.len() && (#[trigger] pairs[j]).0 == o;
                    assert(pairs[j].0 == o);
                    if j < i {
                        assert(!is_long(labels, max as nat, pairs[j].0));
                    }
                }
                lemma_first_long(labels, max as nat, k);
            }
            return Some((key.clone(), size));
        }
        proof {
            assert(labels[key@] == value@);
        }
        i = i + 1;
    }
    proof {
        if has_long(labels, max as nat) {
            let o = choose|o: Seq<char>| #[trigger] is_long(labels, max as nat, o);
            assert(env.labels@.contains_key(o));
            let j = choose|j: int| 0 <= j < pairs.len() && (#[trigger] pairs[j]).0 == o;
            assert(!is_long(labels, max as nat, pairs[j].0));
        }
    }
    None
}

/// Takes an envelope from the emit to the sink.
pub fn run_pipeline(
    cfg: &EventsConfig,
    filter: &Filter,
    env: &mut ObsEnvelope,
    sev: Severity,
    stack: &mut ScopeStack,
    draws: &mut Draws,
) -> (r: EmitOutcome)
    ensures
        ({
            let p = passage(*cfg, filter@, old(env)@, sev, old(stack)@, old(draws)@);
            &&& r@ == p.outcome
            &&& final(env)@ == p.env
            &&& final(stack)@ == p.frames
            &&& final(draws)@ == p.draws
        }),
{
    auto_fill_envelope(stack, env);
    let max_bytes: u32 = cfg.limits.max_payload_bytes;
    let payload_size: usize = env.payload.len();
    if max_bytes > 0 && payload_size as u64 > max_bytes as u64 {
        return EmitOutcome::OversizedPayload { size: payload_size as u64 };
    }
    let max_label: u16 = cfg.limits.max_label_value_bytes;
    if max_label > 0 {
        if let Some((label, size)) = find_long(env, max_label as usize) {
            return EmitOutcome::OversizedLabel { label, size: size as u64 };
        }
    }
    if !filter.event_allowed(env, sev) {
        return EmitOutcome::Filtered;
    }
    match env.native_reason() {
        SamplingReason::Forensic | SamplingReason::Audit | SamplingReason::Override => {
            return EmitOutcome::Forward;
        },
        _ => {},
    }
    let inbound = inbound_traceparent_sampled(stack);
    match sample_decide(&cfg.sampling, env.full_name.as_str(), sev, inbound, draws) {
        SamplingDecision::Drop => {
            return EmitOutcome::Unsampled;
        },
        SamplingDecision::Keep => {},
        SamplingDecision::ParentSet { sampled } => {
            if !sampled {
                return EmitOutcome::Unsampled;
            }
            env.sampling_reason = EnumValue::Known(SamplingReason::Override);
        },
    }
    match sev {
        Severity::Trace | Severity::Debug => {
            if push_tail_buffer(stack, env) {
                return EmitOutcome::Held;
            }
        },
        _ => {
            if sev.at_least(Severity::Error) {
                mark_error_on_active_scopes(stack);
            }
        },
    }
    EmitOutcome::Forward
}

// ---------------------------------------------------------------------------
// Laws.
// ---------------------------------------------------------------------------
/// The sampler neither drops nor changes an envelope that was made for
/// forensics or audit, or whose caller overrides the sampler; only the limits
/// and the filter can stop it.
pub proof fn law_bypass_is_not_sampled(
    cfg: EventsConfig,
    f: FilterView,
    given: EnvelopeView,
    sev: Severity,
    frames: Seq<FrameView>,
    draws: u64,
)
    requires
        bypasses(given.sampling_reason),
    ensures
        ({
            let p = passage(cfg, f, given, sev, frames, draws);
            &&& !(p.outcome is Unsampled)
            &&& !(p.outcome is Held)
            &&& p.env == scope::filled_from(given, scope::fields_in_reach(frames))
            &&& p.frames == frames
            &&& p.draws == draws
        }),
{
    scope::law_explicit_values_stay(given, scope::fields_in_reach(frames));
}

/// What goes on, or is held back, keeps the limits and passed the filter.
pub proof fn law_kept_is_within_limits(
    cfg: EventsConfig,
    f: FilterView,
    given: EnvelopeView,
    sev: Severity,
    frames: Seq<FrameView>,
    draws: u64,
)
    ensures
        ({
            let p = passage(cfg, f, given, sev, frames, draws);
            p.outcome is Forward || p.outcome is Held ==> {
                &&& cfg.limits.max_payload_bytes > 0 ==> p.env.payload.len()
                    <= cfg.limits.max_payload_bytes
                &&& cfg.limits.max_label_value_bytes > 0 ==> forall|k: Seq<char>| #[trigger]
                    p.env.labels.contains_key(k) ==> text::byte_len(p.env.labels[k])
                        <= cfg.limits.max_label_value_bytes
                &&& filter::allows(f, p.env.full_name, p.env.labels, sev)
            }
        }),
{
    let p = passage(cfg, f, given, sev, frames, draws);
    let max = cfg.limits.max_label_value_bytes as nat;
    if p.outcome is Forward || p.outcome is Held {
        assert forall|k: Seq<char>| #[trigger]
            p.env.labels.contains_key(k) && max > 0 implies text::byte_len(p.env.labels[k])
            <= max by {
            assert(!is_long(p.env.labels, max, k));
        }
    }
}

/// An event from the configured severity on is dropped by the sampler only
/// where an upstream caller that counts says so.
pub proof fn law_severe_is_sampled_out_only_upstream(
    cfg: EventsConfig,
    f: FilterView,
    given: EnvelopeView,
    sev: Severity,
    frames: Seq<FrameView>,
    draws: u64,
)
    requires
        sev.rank() >= cfg.sampling.always_log_at_or_above.rank(),
    ensures
        passage(cfg, f, given, sev, frames, draws).outcome is Unsampled
            ==> cfg.sampling.honour_traceparent_sampled && scope::upstream(frames) == Some(false),
{
}

/// An event with the rate one, or a higher one, is dropped by the sampler only
/// where an upstream caller that counts says so; with the rate zero, or a lower
/// one, it is kept only where its severity or such a caller asks for it.
pub proof fn law_outer_rates_leave_nothing_to_chance(
    cfg: EventsConfig,
    f: FilterView,
    given: EnvelopeView,
    sev: Severity,
    frames: Seq<FrameView>,
    draws: u64,
)
    requires
        !bypasses(given.sampling_reason),
    ensures
        ({
            let p = passage(cfg, f, given, sev, frames, draws);
            let rate = sampling::rate_of(cfg.sampling, given.full_name);
            let heard = cfg.sampling.honour_traceparent_sampled && scope::upstream(frames) is Some;
            &&& rate.at_least_one() && p.outcome is Unsampled ==> heard && scope::upstream(frames)
                == Some(false)
            &&& rate.at_most_zero() && (p.outcome is Forward
                || p.outcome is Held) ==> heard && scope::upstream(frames) == Some(true)
                || sev.rank() >= cfg.sampling.always_log_at_or_above.rank()
            &&& rate.at_least_one() || rate.at_most_zero() ==> p.draws == draws
        }),
{
    scope::law_explicit_values_stay(given, scope::fields_in_reach(frames));
}

/// What a scope holds back comes out when it closes, marked as kept for an
/// error, where an error went through after it; where none was seen, nothing
/// comes out.
pub proof fn law_held_comes_out_after_an_error(
    cfg: EventsConfig,
    f: FilterView,
    quiet: EnvelopeView,
    quiet_sev: Severity,
    loud: EnvelopeView,
    loud_sev: Severity,
    frames: Seq<FrameView>,
    draws: u64,
)
    requires
        loud_sev.rank() >= Severity::Error.rank(),
        !bypasses(loud.sampling_reason),
    ensures
        ({
            let p = passage(cfg, f, quiet, quiet_sev, frames, draws);
            let q = passage(cfg, f, loud, loud_sev, p.frames, p.draws);
            &&& p.outcome is Held && q.outcome is Forward ==> {
                &&& guard::flushed(q.frames.last()).len() > 0
                &&& guard::flushed(q.frames.last()).last() == (EnvelopeView {
                    sampling_reason: EnumValue::Known(SamplingReason::TailError),
                    ..p.env
                })
            }
            &&& p.outcome is Held && !frames.last().seen_error ==> guard::flushed(
                p.frames.last(),
            ).len() == 0
        }),
{
    let p = passage(cfg, f, quiet, quiet_sev, frames, draws);
    scope::law_explicit_values_stay(loud, scope::fields_in_reach(p.frames));
    if p.outcome is Held {
        let held = frame::with_tail(frames.last(), p.env);
        assert(p.frames.last() == held);
        assert(held.tail.last() == p.env);
        assert(scope::all_marked(p.frames).last() == (FrameView { seen_error: true, ..held }));
    }
}

/// Whether an envelope keeps the limits of a configuration; a limit of zero is
/// none.
pub open spec fn keeps_limits(cfg: EventsConfig, env: EnvelopeView) -> bool {
    &&& cfg.limits.max_payload_bytes == 0 || env.payload.len() <= cfg.limits.max_payload_bytes
    &&& cfg.limits.max_label_value_bytes == 0 || forall|k: Seq<char>| #[trigger]
        env.labels.contains_key(k) ==> text::byte_len(env.labels[k])
            <= cfg.limits.max_label_value_bytes
}

proof fn lemma_limits(cfg: EventsConfig, env: EnvelopeView)
    ensures
        keeps_limits(cfg, env) <==> !(cfg.limits.max_payload_bytes > 0 && env.payload.len()
            > cfg.limits.max_payload_bytes) && !(cfg.limits.max_label_value_bytes > 0 && has_long(
            env.labels,
            cfg.limits.max_label_value_bytes as nat,
        )),
{
    let max = cfg.limits.max_label_value_bytes as nat;
    if has_long(env.labels, max) {
        let k = choose|k: Seq<char>| #[trigger] is_long(env.labels, max, k);
        assert(env.labels.contains_key(k));
    } else {
        assert forall|k: Seq<char>| #[trigger] env.labels.contains_key(k) implies text::byte_len(
            env.labels[k],
        ) <= max by {
            assert(!is_long(env.labels, max, k));
        }
    }
}

/// An envelope that was made for audit, for forensics or by a caller that
/// overrides the sampler, keeps the limits and is let pass by the filter goes
/// on to its sink, whatever the rates, the severity and the draws are. Neither
/// the scopes nor the generator of the sampler change.
pub proof fn law_audit_forensic_and_override_go_on(
    cfg: EventsConfig,
    f: FilterView,
    given: EnvelopeView,
    sev: Severity,
    frames: Seq<FrameView>,
    draws: u64,
)
    requires
        given.sampling_reason == EnumValue::Known(SamplingReason::Audit) || given.sampling_reason
            == EnumValue::Known(SamplingReason::Forensic) || given.sampling_reason
            == EnumValue::Known(SamplingReason::Override),
        keeps_limits(cfg, scope::filled_from(given, scope::fields_in_reach(frames))),
        filter::allows(
            f,
            given.full_name,
            scope::filled_from(given, scope::fields_in_reach(frames)).labels,
            sev,
        ),
    ensures
        ({
            let p = passage(cfg, f, given, sev, frames, draws);
            &&& p.outcome == OutcomeView::Forward
            &&& p.draws == draws
            &&& p.frames == frames
            &&& p.env.sampling_reason == given.sampling_reason
            &&& p.env.payload == given.payload
        }),
{
    scope::law_explicit_values_stay(given, scope::fields_in_reach(frames));
    lemma_limits(cfg, scope::filled_from(given, scope::fields_in_reach(frames)));
}

/// Every other envelope that keeps the limits and is let pass by the filter is
/// what the sampler decides: dropped, or kept.
pub proof fn law_others_are_sampled(
    cfg: EventsConfig,
    f: FilterView,
    given: EnvelopeView,
    sev: Severity,
    frames: Seq<FrameView>,
    draws: u64,
)
    requires
        given.sampling_reason != EnumValue::Known(SamplingReason::Audit),
        given.sampling_reason != EnumValue::Known(SamplingReason::Forensic),
        given.sampling_reason != EnumValue::Known(SamplingReason::Override),
        keeps_limits(cfg, scope::filled_from(given, scope::fields_in_reach(frames))),
        filter::allows(
            f,
            given.full_name,
            scope::filled_from(given, scope::fields_in_reach(frames)).labels,
            sev,
        ),
    ensures
        ({
            let p = passage(cfg, f, given, sev, frames, draws);
            let (decision, next) = sampling::decision(
                cfg.sampling,
                given.full_name,
                sev,
                scope::upstream(frames),
                draws,
            );
            &&& p.draws == next
            &&& decision == SamplingDecision::Drop || decision == (SamplingDecision::ParentSet {
                sampled: false,
            }) ==> p.outcome == OutcomeView::Unsampled && p.frames == frames
            &&& decision == SamplingDecision::Keep ==> (p.outcome == OutcomeView::Forward
                || p.outcome == OutcomeView::Held) && p.env.sampling_reason
                == given.sampling_reason
            &&& decision == (SamplingDecision::ParentSet { sampled: true }) ==> (p.outcome
                == OutcomeView::Forward || p.outcome == OutcomeView::Held)
                && p.env.sampling_reason == EnumValue::Known(SamplingReason::Override)
        }),
{
    scope::law_explicit_values_stay(given, scope::fields_in_reach(frames));
    lemma_limits(cfg, scope::filled_from(given, scope::fields_in_reach(frames)));
}

/// A payload above its limit, a label above its limit and an event that the
/// filter does not want stop an envelope, in this order, whatever it was made
/// for; nothing else does before the sampler. The scopes and the generator stay
/// as they are. What is told is the size of the payload, or the first label, in
/// the order of the keys, that is too large and its size.
pub proof fn law_limits_go_before_the_filter(
    cfg: EventsConfig,
    f: FilterView,
    given: EnvelopeView,
    sev: Severity,
    frames: Seq<FrameView>,
    draws: u64,
    label: Seq<char>,
)
    ensures
        ({
            let p = passage(cfg, f, given, sev, frames, draws);
            let env = scope::filled_from(given, scope::fields_in_reach(frames));
            let large = cfg.limits.max_payload_bytes > 0 && given.payload.len()
                > cfg.limits.max_payload_bytes;
            &&& p.outcome is OversizedPayload <==> large
            &&& large ==> p.outcome == (OutcomeView::OversizedPayload { size: given.payload.len() })
            &&& p.outcome is OversizedLabel <==> !large && !keeps_limits(cfg, env)
            &&& p.outcome is OversizedLabel && env.labels.contains_key(label)
                && text::byte_len(env.labels[label]) > cfg.limits.max_label_value_bytes && (forall|
                o: Seq<char>,
            | #[trigger]
                env.labels.contains_key(o) && o != label && text::byte_len(env.labels[o])
                    > cfg.limits.max_label_value_bytes ==> text_map::text_before(label, o))
                ==> p.outcome == (OutcomeView::OversizedLabel {
                label,
                size: text::byte_len(env.labels[label]),
            })
            &&& p.outcome is Filtered <==> keeps_limits(cfg, env) && !filter::allows(
                f,
                given.full_name,
                env.labels,
                sev,
            )
            &&& p.outcome is OversizedPayload || p.outcome is OversizedLabel
                || p.outcome is Filtered ==> p.frames == frames && p.draws == draws && p.env == env
        }),
{
    let env = scope::filled_from(given, scope::fields_in_reach(frames));
    let max = cfg.limits.max_label_value_bytes as nat;
    scope::law_explicit_values_stay(given, scope::fields_in_reach(frames));
    lemma_limits(cfg, env);
    let large = cfg.limits.max_payload_bytes > 0 && given.payload.len()
        > cfg.limits.max_payload_bytes;
    if env.labels.contains_key(label) && text::byte_len(env.labels[label]) > max && (forall|
        o: Seq<char>,
    | #[trigger]
        env.labels.contains_key(o) && o != label && text::byte_len(env.labels[o]) > max
            ==> text_map::text_before(label, o)) {
        assert(is_long(env.labels, max, label));
        assert(is_first_long(env.labels, max, label));
        lemma_first_long(env.labels, max, label);
    }
}

/// Only what is less severe than `Info`, but not unspecified, is held back, and
/// only where the innermost scope is no context and has room. An event from
/// `Error` on that goes on after the sampler marks every open scope. Anything
/// else leaves the scopes as they are.
pub proof fn law_quiet_is_held_and_loud_marks(
    cfg: EventsConfig,
    f: FilterView,
    given: EnvelopeView,
    sev: Severity,
    frames: Seq<FrameView>,
    draws: u64,
)
    requires
        given.sampling_reason != EnumValue::Known(SamplingReason::Audit),
        given.sampling_reason != EnumValue::Known(SamplingReason::Forensic),
        given.sampling_reason != EnumValue::Known(SamplingReason::Override),
    ensures
        ({
            let p = passage(cfg, f, given, sev, frames, draws);
            let quiet = sev == Severity::Trace || sev == Severity::Debug;
            let loud = sev == Severity::Error || sev == Severity::Fatal;
            let room = frames.len() > 0 && frames.last().kind == scope::ScopeKind::Scope
                && frames.last().tail_capacity > 0;
            let kept = p.outcome is Forward || p.outcome is Held;
            &&& p.outcome is Held <==> kept && quiet && room
            &&& p.outcome is Held ==> p.frames.last().tail.last() == p.env
            &&& kept && loud ==> p.frames.len() == frames.len() && forall|i: int|
                0 <= i < frames.len() ==> (#[trigger] p.frames[i]).seen_error
            &&& !(kept && loud) && !(p.outcome is Held) ==> p.frames == frames
        }),
{
    scope::law_explicit_values_stay(given, scope::fields_in_reach(frames));
    if frames.len() > 0 {
        scope::law_only_the_innermost_scope_holds(
            frames,
            passage(cfg, f, given, sev, frames, draws).env,
            0,
        );
    }
}

/// An envelope leaves as it came, but for what it takes from the scopes and the
/// reason that an upstream caller gives it.
pub proof fn law_an_envelope_keeps_what_it_brings(
    cfg: EventsConfig,
    f: FilterView,
    given: EnvelopeView,
    sev: Severity,
    frames: Seq<FrameView>,
    draws: u64,
)
    ensures
        ({
            let out = passage(cfg, f, given, sev, frames, draws).env;
            &&& out.full_name == given.full_name
            &&& out.payload == given.payload
            &&& out.schema_hash == given.schema_hash
            &&& out.tier == given.tier
            &&& out.sev == given.sev
            &&& out.ts_ns == given.ts_ns
            &&& out.service == given.service
            &&& out.instance == given.instance
            &&& out.version == given.version
            &&& out.callsite_id == given.callsite_id
            &&& given.trace_id.len() > 0 ==> out.trace_id == given.trace_id
            &&& given.span_id.len() > 0 ==> out.span_id == given.span_id
            &&& given.parent_span_id.len() > 0 ==> out.parent_span_id == given.parent_span_id
            &&& out.sampling_reason == given.sampling_reason || out.sampling_reason
                == EnumValue::Known(SamplingReason::Override)
            &&& forall|k: Seq<char>| #[trigger]
                given.labels.contains_key(k) ==> out.labels.contains_pair(k, given.labels[k])
        }),
{
    scope::law_explicit_values_stay(given, scope::fields_in_reach(frames));
}

/// What went on is told of by nothing; what was too large is told of with its
/// name and its size, and a label also with its own name.
pub proof fn law_too_large_is_told(full_name: Seq<char>, label: Seq<char>, size: nat)
    ensures
        oversized_event(full_name, OutcomeView::Forward) is None,
        oversized_event(full_name, OutcomeView::Held) is None,
        oversized_event(full_name, OutcomeView::Filtered) is None,
        oversized_event(full_name, OutcomeView::Unsampled) is None,
        ({
            let e = oversized_event(full_name, OutcomeView::OversizedPayload { size });
            &&& e is Some
            &&& e->Some_0.full_name == "obs.runtime.v1.ObsOversizedDropped"@
            &&& e->Some_0.sev == EnumValue::Known(Severity::Warn)
            &&& e->Some_0.labels.contains_pair("full_name"@, full_name)
            &&& e->Some_0.labels.contains_pair("size_bytes"@, text::decimal(size))
        }),
        ({
            let e = oversized_event(full_name, OutcomeView::OversizedLabel { label, size });
            &&& e is Some
            &&& e->Some_0.full_name == "obs.runtime.v1.ObsOversizedDropped"@
            &&& e->Some_0.labels.contains_pair("full_name"@, full_name)
            &&& e->Some_0.labels.contains_pair("label_name"@, label)
            &&& e->Some_0.labels.contains_pair("size_bytes"@, text::decimal(size))
            &&& e->Some_0.labels.contains_pair("reason"@, "label"@)
        }),
{
    reveal_strlit("full_name");
    reveal_strlit("size_bytes");
    reveal_strlit("label_name");
    reveal_strlit("reason");
    assert("full_name"@.len() == 9 && "size_bytes"@.len() == 10 && "label_name"@.len() == 10
        && "reason"@.len() == 6);
    assert("size_bytes"@[0] == 's' && "label_name"@[0] == 'l');
}

} // verus!
