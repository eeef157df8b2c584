use obs_core::instrumented::{begin_poll, end_poll, ScopeSeed};
use obs_core::scope::{
    active_correlation, active_sampled, auto_fill_envelope, frames_innermost_first,
    inbound_traceparent_sampled, with_frames_innermost_first,
    mark_error_on_active_scopes, pop_frame, push_frame, push_tail_buffer, ScopeField, ScopeFrame,
    ScopeFrameBuilder, ScopeGuard, ScopeKind, ScopeStack,
};
use obs_core::span_trace::SpanTrace;
use obs_core::{EnumValue, ObsEnvelope, Severity};

fn make_frame(fields: Vec<ScopeField>, kind: ScopeKind) -> ScopeFrame {
    ScopeFrame::new(fields, kind, 64)
}

#[test]
fn test_should_inject_label_when_envelope_missing() {
    let mut stack = ScopeStack::new();
    let frame = make_frame(vec![ScopeField::Label("tenant", "alpha".to_string())], ScopeKind::Scope);
    let _depth = push_frame(&mut stack, frame);
    let mut env = ObsEnvelope::default();
    auto_fill_envelope(&stack, &mut env);
    assert_eq!(env.labels.get("tenant"), Some(&"alpha".to_string()));
    let _ = pop_frame(&mut stack);
}

#[test]
fn test_should_not_overwrite_explicit_label() {
    let mut stack = ScopeStack::new();
    let frame = make_frame(vec![ScopeField::Label("tenant", "alpha".to_string())], ScopeKind::Scope);
    let _depth = push_frame(&mut stack, frame);
    let mut env = ObsEnvelope::default();
    env.labels.insert("tenant".to_string(), "beta".to_string());
    auto_fill_envelope(&stack, &mut env);
    assert_eq!(env.labels.get("tenant"), Some(&"beta".to_string()));
    let _ = pop_frame(&mut stack);
}

#[test]
fn test_should_inject_trace_id() {
    let mut stack = ScopeStack::new();
    let frame = make_frame(vec![ScopeField::TraceId("abc".to_string())], ScopeKind::Scope);
    let _depth = push_frame(&mut stack, frame);
    let mut env = ObsEnvelope::default();
    auto_fill_envelope(&stack, &mut env);
    assert_eq!(env.trace_id, "abc");
    let _ = pop_frame(&mut stack);
}

#[test]
fn test_should_return_active_correlation_when_present() {
    let mut stack = ScopeStack::new();
    let frame = make_frame(
        vec![
            ScopeField::TraceId("trc".to_string()),
            ScopeField::SpanId("spn".to_string()),
        ],
        ScopeKind::Scope,
    );
    let _ = push_frame(&mut stack, frame);
    assert_eq!(active_correlation(&stack), Some(("trc".to_string(), "spn".to_string())));
    let _ = pop_frame(&mut stack);
}

#[test]
fn test_should_return_none_when_no_correlation() {
    assert_eq!(active_correlation(&ScopeStack::new()), None);
}

#[test]
fn test_should_walk_stack_for_correlation() {
    let mut stack = ScopeStack::new();
    let outer = make_frame(vec![ScopeField::TraceId("outer-trc".to_string())], ScopeKind::Scope);
    let inner = make_frame(vec![ScopeField::SpanId("inner-spn".to_string())], ScopeKind::Scope);
    let _ = push_frame(&mut stack, outer);
    let _ = push_frame(&mut stack, inner);
    assert_eq!(
        active_correlation(&stack),
        Some(("outer-trc".to_string(), "inner-spn".to_string())),
    );
    let _ = pop_frame(&mut stack);
    let _ = pop_frame(&mut stack);
}

fn debug_event() -> ObsEnvelope {
    ObsEnvelope {
        full_name: "test.v1.X".to_string(),
        sev: EnumValue::Known(Severity::Debug),
        ..Default::default()
    }
}

#[test]
fn test_should_push_tail_buffer_only_for_scope_kind() {
    let mut stack = ScopeStack::new();
    let frame = make_frame(vec![], ScopeKind::Context);
    let _ = push_frame(&mut stack, frame);
    let env = debug_event();
    push_tail_buffer(&mut stack, &env);
    let frame = pop_frame(&mut stack).unwrap();
    assert!(frame.tail_snapshot().is_empty());
}

#[test]
fn the_innermost_frame_wins() {
    let mut stack = ScopeStack::new();
    push_frame(&mut stack, make_frame(vec![ScopeField::Label("k", "outer".to_string())], ScopeKind::Scope));
    push_frame(&mut stack, make_frame(vec![ScopeField::Label("k", "inner".to_string())], ScopeKind::Scope));
    let mut env = ObsEnvelope::default();
    auto_fill_envelope(&stack, &mut env);
    assert_eq!(env.label("k"), Some("inner"));
    assert_eq!(stack.depth(), 2);
}

#[test]
fn a_scope_lets_its_tail_out_only_after_an_error() {
    let mut stack = ScopeStack::new();
    let guard = ScopeGuard::enter(&mut stack, Vec::new(), 2);
    for n in 0..3u64 {
        let mut env = debug_event();
        env.ts_ns = n;
        assert!(push_tail_buffer(&mut stack, &env));
    }
    mark_error_on_active_scopes(&mut stack);
    let out = guard.close(&mut stack);
    assert_eq!(out.iter().map(|e| e.ts_ns).collect::<Vec<_>>(), vec![1, 2]);
    let calm = ScopeGuard::enter(&mut stack, Vec::new(), 2);
    push_tail_buffer(&mut stack, &debug_event());
    assert!(calm.close(&mut stack).is_empty());
    assert_eq!(stack.depth(), 0);
}

#[test]
fn a_frame_says_whether_the_caller_sampled() {
    let mut stack = ScopeStack::new();
    assert_eq!(inbound_traceparent_sampled(&stack), None);
    let guard = ScopeFrameBuilder::new()
        .trace_id("t".to_string())
        .span_id("s".to_string())
        .label("tenant", "acme".to_string())
        .traceparent_sampled(false)
        .span_identity("checkout", "shop")
        .push(&mut stack);
    assert_eq!(inbound_traceparent_sampled(&stack), Some(false));
    assert_eq!(active_sampled(&stack), Some(false));
    let frame = guard.into_inner(&mut stack);
    assert_eq!(frame.as_span_frame().unwrap().name, "checkout");
    assert_eq!(frame.fields().len(), 3);
}

#[test]
fn a_span_trace_lists_frames_innermost_first() {
    let mut stack = ScopeStack::new();
    assert!(SpanTrace::capture(&stack).is_empty());
    let _outer = ScopeGuard::enter_with_identity(
        &mut stack,
        vec![ScopeField::Label("tenant", "acme".to_string())],
        ScopeKind::Scope,
        8,
        "outer",
        "shop",
    );
    let _inner = ScopeGuard::enter_with_identity(&mut stack, Vec::new(), ScopeKind::Scope, 8, "inner", "shop");
    let trace = SpanTrace::capture(&stack);
    assert_eq!(trace.len(), 2);
    let text = trace.render();
    assert!(text.find("inner").unwrap() < text.find("outer").unwrap(), "{text}");
    assert!(text.contains("tenant"), "{text}");
}

#[test]
fn a_poll_leaves_the_stack_as_it_was() {
    let mut stack = ScopeStack::new();
    push_frame(&mut stack, make_frame(vec![ScopeField::TraceId("t".to_string())], ScopeKind::Scope));
    let mut frame = make_frame(vec![ScopeField::SpanId("s".to_string())], ScopeKind::Scope);
    frame.push_tail(debug_event());
    let seed = Some(ScopeSeed::from_frame(&frame));
    begin_poll(&mut stack, &seed);
    assert_eq!(active_correlation(&stack), Some(("t".to_string(), "s".to_string())));
    end_poll(&mut stack, &seed);
    assert_eq!(stack.depth(), 1);
    begin_poll(&mut stack, &None);
    end_poll(&mut stack, &None);
    assert_eq!(stack.depth(), 1);
    assert!(seed.unwrap().to_frame().tail_snapshot().is_empty());
}

#[test]
fn scopes_are_visited_from_the_inside() {
    let mut stack = ScopeStack::new();
    for name in ["outer", "inner"] {
        let field = ScopeField::Label("name", name.to_string());
        push_frame(&mut stack, make_frame(vec![field], ScopeKind::Scope));
    }
    let first = |frames: Vec<&ScopeFrame>| match &frames[0].fields()[0] {
        ScopeField::Label(_, v) => v.clone(),
        _ => String::new(),
    };
    assert_eq!(first(frames_innermost_first(&stack)), "inner");
    assert_eq!(with_frames_innermost_first(&stack, first), "inner");
    assert_eq!(with_frames_innermost_first(&stack, |frames| frames.len()), 2);
}

#[test]
fn contexts_hold_nothing_back_however_they_are_built() {
    let builders = [
        ScopeFrameBuilder::new().context(),
        ScopeFrameBuilder::new().tail_capacity(8).context(),
        ScopeFrameBuilder::new().context().tail_capacity(8).traceparent_sampled(true),
    ];
    for b in builders {
        let mut frame = b.into_frame();
        assert_eq!(frame.kind(), ScopeKind::Context);
        for _ in 0..3 {
            assert!(!frame.push_tail(debug_event()));
        }
        assert!(frame.tail_snapshot().is_empty());
    }
}

#[test]
fn frames_hold_the_latest_within_their_room() {
    let event = |name: &str| ObsEnvelope { full_name: name.to_string(), ..Default::default() };
    let mut frame = ScopeFrame::new(Vec::new(), ScopeKind::Scope, 2);
    for name in ["a", "b", "c", "d"] {
        assert!(frame.push_tail(event(name)));
        assert!(frame.tail_snapshot().len() <= frame.tail_capacity() as usize);
    }
    let names = |f: &ScopeFrame| -> Vec<String> {
        f.tail_snapshot().into_iter().map(|e| e.full_name).collect()
    };
    assert_eq!(names(&frame), ["c", "d"]);
    assert_eq!(names(&frame.clone()), ["c", "d"]);
    assert_eq!(frame.drain_tail().len(), 2);
    assert!(names(&frame).is_empty());
    let mut none = ScopeFrame::new(Vec::new(), ScopeKind::Scope, 0);
    assert!(!none.push_tail(event("a")));
    assert!(none.tail_snapshot().is_empty());
}
