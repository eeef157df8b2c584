use obs_core::config::SamplingConfig;
use obs_core::sampling::{decide, seed_from, Draws, Rate, SamplingDecision};
use obs_core::Severity;

fn rate(x: f64) -> Rate {
    Rate::new(x.to_bits(), x.to_string())
}

fn zero() -> SamplingConfig {
    SamplingConfig { default_rate: rate(0.0), ..Default::default() }
}

fn draws() -> Draws {
    Draws::new(1)
}

#[test]
fn test_should_keep_at_or_above_floor() {
    assert_eq!(
        decide(&zero(), "x", Severity::Error, None, &mut draws()),
        SamplingDecision::Keep
    );
}

#[test]
fn test_should_drop_below_floor_with_zero_rate() {
    assert_eq!(
        decide(&zero(), "x", Severity::Trace, None, &mut draws()),
        SamplingDecision::Drop
    );
}

#[test]
fn test_should_honour_parent_sampled() {
    let cfg = SamplingConfig::default();
    match decide(&cfg, "x", Severity::Trace, Some(true), &mut draws()) {
        SamplingDecision::ParentSet { sampled } => assert!(sampled),
        d => panic!("unexpected decision: {d:?}"),
    }
    match decide(&cfg, "x", Severity::Error, Some(false), &mut draws()) {
        SamplingDecision::ParentSet { sampled } => assert!(!sampled),
        d => panic!("unexpected decision: {d:?}"),
    }
}

#[test]
fn test_should_use_per_event_override() {
    let mut cfg = zero();
    cfg.per_event.insert("x".to_string(), rate(1.0));
    assert_eq!(
        decide(&cfg, "x", Severity::Trace, None, &mut draws()),
        SamplingDecision::Keep
    );
}

#[test]
fn a_rate_of_a_half_keeps_about_half() {
    let cfg = SamplingConfig { default_rate: rate(0.5), ..Default::default() };
    let mut d = Draws::new(0x9E37_79B9);
    let kept = (0..2000)
        .filter(|_| decide(&cfg, "x", Severity::Debug, None, &mut d) == SamplingDecision::Keep)
        .count();
    assert!((800..1200).contains(&kept), "{kept}");
}

#[test]
fn draws_compare_with_rates_as_doubles_do() {
    // Two streams from one seed: the first decides, the second is compared by hand
    // through rates that close in on the draw.
    let at = |x: f64| SamplingConfig {
        default_rate: rate(x),
        ..Default::default()
    };
    let (mut low, mut high) = (0.0f64, 1.0f64);
    for _ in 0..60 {
        let mid = (low + high) / 2.0;
        let kept = decide(&at(mid), "x", Severity::Debug, None, &mut Draws::new(77));
        if kept == SamplingDecision::Keep {
            high = mid;
        } else {
            low = mid;
        }
    }
    for x in [low / 2.0, low] {
        let d = decide(&at(x), "x", Severity::Debug, None, &mut Draws::new(77));
        assert_eq!(d, SamplingDecision::Drop);
    }
    for x in [high, (high + 1.0) / 2.0] {
        let d = decide(&at(x), "x", Severity::Debug, None, &mut Draws::new(77));
        assert_eq!(d, SamplingDecision::Keep);
    }
}

#[test]
fn rates_are_read_from_their_bits() {
    assert!(rate(1.0).is_at_least_one());
    assert!(!rate(0.999).is_at_least_one());
    assert!(rate(0.0).is_at_most_zero());
    assert!(rate(-3.0).is_at_most_zero());
    assert!(!rate(f64::NAN).is_in_unit_range());
    assert!(Rate::one().is_at_least_one());
    assert_eq!(Rate::one().text, 1.0f64.to_string());
}

#[test]
fn seeds_come_from_the_clock() {
    assert_eq!(seed_from(None), 0x9E37_79B9_7F4A_7C15);
    assert_eq!(seed_from(Some(7)), 7);
    assert_eq!(seed_from(Some((1u128 << 64) + 3)), 3);
    let cfg = SamplingConfig { default_rate: rate(0.5), ..Default::default() };
    let mut d = Draws::seeded();
    let kept = (0..2000)
        .filter(|_| decide(&cfg, "x", Severity::Debug, None, &mut d) == SamplingDecision::Keep)
        .count();
    assert!((700..1300).contains(&kept), "{kept}");
}
