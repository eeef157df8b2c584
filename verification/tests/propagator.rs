use http::HeaderMap;
use obs_core::propagator::{
    extract_w3c, fill_random, fresh_span_id, fresh_trace_id, has_room, id_from_seed, inject_w3c,
    status_class, IdCounter, ObsTraceCtx, W3cPropagator,
};

fn is_hex(b: u8) -> bool {
    b.is_ascii_hexdigit()
}

#[test]
fn test_propagator_round_trip() {
    let mut headers = HeaderMap::new();
    let ctx_in = ObsTraceCtx {
        trace_id: "0123456789abcdef0123456789abcdef".to_string(),
        span_id: "0123456789abcdef".to_string(),
        flags: "01".to_string(),
        tracestate: "vendor=value".to_string(),
    };
    assert!(has_room(&headers));
    inject_w3c(&mut headers, &ctx_in);
    let ctx_out = extract_w3c(&headers).expect("parse");
    assert_eq!(ctx_in.trace_id, ctx_out.trace_id);
    assert_eq!(ctx_in.span_id, ctx_out.span_id);
    assert_eq!(ctx_in.flags, ctx_out.flags);
    assert_eq!(ctx_in.tracestate, ctx_out.tracestate);
    assert!(ctx_out.sampled());
}

#[test]
fn test_extract_rejects_malformed() {
    let mut headers = HeaderMap::new();
    headers.insert("traceparent", "garbage".parse().unwrap());
    assert!(extract_w3c(&headers).is_none());
    headers.insert("traceparent", "01-aa-bb-cc".parse().unwrap());
    assert!(extract_w3c(&headers).is_none());
}

#[test]
fn test_fresh_ids_should_be_correct_length_and_hex() {
    let mut counter = IdCounter::new();
    let t = fresh_trace_id(&mut counter);
    let s = fresh_span_id(&mut counter);
    assert_eq!(t.len(), 32);
    assert_eq!(s.len(), 16);
    assert!(t.bytes().all(is_hex));
    assert!(s.bytes().all(is_hex));
}

#[test]
fn test_fresh_ids_are_unique() {
    let mut counter = IdCounter::new();
    let a = fresh_trace_id(&mut counter);
    let b = fresh_trace_id(&mut counter);
    assert_ne!(a, b);
}

#[test]
fn test_child_of_inherits_trace_id() {
    let mut counter = IdCounter::new();
    let parent = ObsTraceCtx::fresh(&mut counter, true);
    let child = parent.child_of(&mut counter);
    assert_eq!(parent.trace_id, child.trace_id);
    assert_ne!(parent.span_id, child.span_id);
    assert_eq!(parent.flags, child.flags);
}

#[test]
fn test_status_class_should_classify() {
    assert_eq!(status_class(200), "2xx");
    assert_eq!(status_class(404), "4xx");
    assert_eq!(status_class(503), "5xx");
    assert_eq!(status_class(0), "err");
}

#[test]
fn headers_are_written_in_their_shape() {
    let mut headers = HeaderMap::new();
    let ctx = ObsTraceCtx {
        trace_id: "0123456789ABCDEF0123456789abcdef".to_string(),
        span_id: "0123456789abcdef".to_string(),
        flags: "00".to_string(),
        tracestate: String::new(),
    };
    W3cPropagator::new().inject(&mut headers, &ctx);
    assert_eq!(
        headers.get("traceparent").unwrap(),
        "00-0123456789ABCDEF0123456789abcdef-0123456789abcdef-00"
    );
    assert!(headers.get("tracestate").is_none());
    let back = W3cPropagator::new().extract(&headers).unwrap();
    assert_eq!(back.trace_id, "0123456789abcdef0123456789abcdef");
    assert!(!back.sampled());
}

#[test]
fn only_the_low_bit_of_the_flags_says_sampled() {
    let ctx = |flags: &str| ObsTraceCtx { flags: flags.to_string(), ..Default::default() };
    assert!(ctx("01").sampled());
    assert!(ctx("03").sampled());
    assert!(ctx("0f").sampled());
    assert!(!ctx("02").sampled());
    assert!(!ctx("").sampled());
}

#[test]
fn identifiers_are_made_from_their_seed() {
    let hash = blake3::hash(&[0x01, 0xAB]);
    let hex = format!("{:02x}{:02x}", hash.as_bytes()[0], hash.as_bytes()[1]);
    assert_eq!(id_from_seed(&[0x01, 0xAB], 2), hex);
    assert_eq!(fill_random(Some(vec![1, 2]), 0, 0, 2), vec![1, 2]);
    let fallback = fill_random(None, 5, 9, 16);
    assert_eq!(fallback.len(), 16);
    assert_eq!(fallback, fill_random(None, 5, 9, 16));
    assert_ne!(fallback, fill_random(None, 6, 9, 16));
    assert_eq!(ObsTraceCtx::fresh(&mut IdCounter::new(), false).flags, "00");
}

#[test]
fn a_full_header_map_stays_as_it_is() {
    let mut headers = HeaderMap::new();
    for i in 0..6553 {
        let name: http::HeaderName = format!("h-{i}").parse().unwrap();
        headers.insert(name, "x".parse().unwrap());
    }
    assert!(!has_room(&headers));
    inject_w3c(&mut headers, &ObsTraceCtx::fresh(&mut IdCounter::new(), true));
    assert!(extract_w3c(&headers).is_some());
    for i in 6553..24_575 {
        let name: http::HeaderName = format!("h-{i}").parse().unwrap();
        headers.insert(name, "x".parse().unwrap());
    }
    let before = extract_w3c(&headers).unwrap().span_id;
    inject_w3c(&mut headers, &ObsTraceCtx::fresh(&mut IdCounter::new(), true));
    assert_eq!(extract_w3c(&headers).unwrap().span_id, before);
}
