use bytes::BytesMut;
use obs_core::wire::envelope_codec::{decode_frame, encode_into, FrameError};
use obs_core::wire::fields::{BuffaEncodeField, DoubleBits, SingleBits};
use secrecy::{ExposeSecret, SecretString};

/// The bytes of a record with a name and a schema hash.
fn sample() -> Vec<u8> {
    let mut buf = BytesMut::new();
    "obs.test.EnvelopeCodec".to_string().buffa_encode_field(1, &mut buf);
    0xdead_beefu64.buffa_encode_field(2, &mut buf);
    buf.to_vec()
}

#[test]
fn test_encode_decode_round_trips() {
    let record = sample();
    let mut buf = Vec::new();
    encode_into(&record, &mut buf);
    let (decoded, consumed) = decode_frame(&buf, 1 << 20).expect("ok").expect("some");
    assert_eq!(consumed, buf.len());
    assert_eq!(decoded, &record[..]);
}

#[test]
fn test_decode_frame_returns_none_on_short_buffer() {
    let got = decode_frame(&[0, 0, 0, 4], 1 << 20).expect("no err");
    assert!(got.is_none(), "incomplete buffer must return Ok(None)");
}

#[test]
fn test_decode_frame_rejects_oversize() {
    let mut buf = [0u8; 4];
    buf.copy_from_slice(&u32::MAX.to_be_bytes());
    let err = decode_frame(&buf, 1024).expect_err("must reject");
    assert_eq!(err, FrameError::TooLarge { len: u32::MAX, max_frame: 1024 });
}

#[test]
fn test_encode_into_with_cache_amortises_across_envelopes() {
    let record = sample();
    let mut batched = Vec::new();
    encode_into(&record, &mut batched);
    encode_into(&record, &mut batched);
    let mut one = Vec::new();
    encode_into(&record, &mut one);
    let independent = [one.clone(), one].concat();
    assert_eq!(batched, independent);
}

#[test]
fn frames_are_read_one_after_another() {
    let mut buf = Vec::new();
    encode_into(b"one", &mut buf);
    encode_into(b"", &mut buf);
    assert_eq!(buf, vec![0, 0, 0, 3, b'o', b'n', b'e', 0, 0, 0, 0]);
    let (first, used) = decode_frame(&buf, 16).unwrap().unwrap();
    assert_eq!((first, used), (&b"one"[..], 7));
    let (second, used) = decode_frame(&buf[used..], 16).unwrap().unwrap();
    assert_eq!((second, used), (&b""[..], 4));
    assert!(decode_frame(&buf, 2).unwrap_err().message().contains('3'));
}

#[test]
fn test_should_skip_default_string() {
    let mut buf = BytesMut::new();
    String::new().buffa_encode_field(1, &mut buf);
    assert!(buf.is_empty());
}

#[test]
fn test_should_emit_nonempty_string() {
    let mut buf = BytesMut::new();
    "hello".to_string().buffa_encode_field(1, &mut buf);
    assert_eq!(&buf[..], &[0x0A, 0x05, b'h', b'e', b'l', b'l', b'o']);
}

#[test]
fn test_should_skip_default_uint64() {
    let mut buf = BytesMut::new();
    0u64.buffa_encode_field(2, &mut buf);
    assert!(buf.is_empty());
}

#[test]
fn test_should_emit_nonzero_uint64() {
    let mut buf = BytesMut::new();
    42u64.buffa_encode_field(2, &mut buf);
    assert_eq!(&buf[..], &[0x10, 0x2A]);
}

#[test]
fn test_should_emit_secret_string_via_expose() {
    let mut buf = BytesMut::new();
    let secret = SecretString::from("topsecret");
    secret.expose_secret().buffa_encode_field(3, &mut buf);
    assert!(buf.starts_with(&[0x1A, 0x09]));
    assert!(buf.ends_with(b"topsecret"));
}

#[test]
fn test_secret_string_debug_should_be_redacted() {
    let secret = SecretString::from("topsecret");
    let dbg = format!("{secret:?}");
    assert!(!dbg.contains("topsecret"));
    assert!(dbg.to_ascii_lowercase().contains("redacted"));
}

#[test]
fn test_should_skip_none_option() {
    let mut buf = BytesMut::new();
    let v: Option<String> = None;
    v.buffa_encode_field(1, &mut buf);
    assert!(buf.is_empty());
}

#[test]
fn every_kind_of_field_has_its_own_bytes() {
    let encode = |f: &dyn Fn(&mut BytesMut)| {
        let mut buf = BytesMut::new();
        f(&mut buf);
        buf.to_vec()
    };
    assert_eq!(encode(&|b| 300u32.buffa_encode_field(1, b)), vec![0x08, 0xAC, 0x02]);
    assert_eq!(encode(&|b| (-1i32).buffa_encode_field(1, b)).len(), 11);
    assert_eq!(encode(&|b| (-1i64).buffa_encode_field(1, b)).len(), 11);
    assert_eq!(encode(&|b| 7i64.buffa_encode_field(1, b)), vec![0x08, 7]);
    assert_eq!(encode(&|b| true.buffa_encode_field(1, b)), vec![0x08, 1]);
    assert_eq!(encode(&|b| false.buffa_encode_field(1, b)), Vec::<u8>::new());
    assert_eq!(encode(&|b| vec![1u8, 2].buffa_encode_field(1, b)), vec![0x0A, 2, 1, 2]);
    assert_eq!(encode(&|b| Some(5u64).buffa_encode_field(1, b)), vec![0x08, 5]);
    let single = SingleBits { bits: 1.0f32.to_bits() };
    assert_eq!(encode(&|b| single.buffa_encode_field(1, b)), vec![0x0D, 0, 0, 0x80, 0x3F]);
    let double = DoubleBits { bits: 1.0f64.to_bits() };
    assert_eq!(
        encode(&|b| double.buffa_encode_field(1, b)),
        vec![0x09, 0, 0, 0, 0, 0, 0, 0xF0, 0x3F]
    );
}
