use linewatch::classify::classify;
use linewatch::timestamp::Timestamp;
use linewatch::types::{ProbeOutcome, Sample, Status, TargetKind, Thresholds};

fn millis(n: u128) -> u128 {
    n * 1_000_000
}

fn default_thresholds() -> Thresholds {
    Thresholds {
        max_loss_pct: 10,
        max_rtt_ms: 200,
    }
}

fn sample_with_outcomes(outcomes: Vec<ProbeOutcome>) -> Sample {
    Sample {
        // 2026-07-05 12:00:00 UTC
        ts: Timestamp::new(1_783_252_800_000_000_000, 0).unwrap(),
        temp_c: None,
        outcomes,
    }
}

fn outcome(kind: TargetKind, reachable: bool) -> ProbeOutcome {
    ProbeOutcome {
        kind,
        reachable,
        rtt: Some(millis(100)),
        loss_pct: 0,
    }
}

// -- 1. Gateway unreachable → LocalOrPower --

#[test]
fn gateway_unreachable_returns_local_or_power() {
    let s = sample_with_outcomes(vec![
        outcome(TargetKind::Gateway, false),
        outcome(TargetKind::IcmpAnchor, true),
        outcome(TargetKind::Dns, true),
    ]);
    assert_eq!(classify(&s, &default_thresholds()), Status::LocalOrPower);
}

#[test]
fn gateway_unreachable_takes_precedence_over_down() {
    let s = sample_with_outcomes(vec![
        outcome(TargetKind::Gateway, false),
        outcome(TargetKind::IcmpAnchor, false),
        outcome(TargetKind::TcpAnchor, false),
    ]);
    assert_eq!(classify(&s, &default_thresholds()), Status::LocalOrPower);
}

// -- 2. All anchors unreachable → Down --

#[test]
fn all_anchors_unreachable_returns_down() {
    let s = sample_with_outcomes(vec![
        outcome(TargetKind::Gateway, true),
        outcome(TargetKind::IcmpAnchor, false),
        outcome(TargetKind::TcpAnchor, false),
        outcome(TargetKind::Dns, true),
    ]);
    assert_eq!(classify(&s, &default_thresholds()), Status::Down);
}

#[test]
fn single_anchor_unreachable_returns_down() {
    let s = sample_with_outcomes(vec![
        outcome(TargetKind::Gateway, true),
        outcome(TargetKind::IcmpAnchor, false),
    ]);
    assert_eq!(classify(&s, &default_thresholds()), Status::Down);
}

#[test]
fn one_anchor_reachable_prevents_down() {
    let s = sample_with_outcomes(vec![
        outcome(TargetKind::Gateway, true),
        outcome(TargetKind::IcmpAnchor, true),
        outcome(TargetKind::TcpAnchor, false),
    ]);
    assert_eq!(classify(&s, &default_thresholds()), Status::Good);
}

#[test]
fn no_anchors_does_not_trigger_down() {
    let s = sample_with_outcomes(vec![
        outcome(TargetKind::Gateway, true),
        outcome(TargetKind::Dns, true),
    ]);
    assert_eq!(classify(&s, &default_thresholds()), Status::Good);
}

// -- 3. Dns unreachable → DnsFail --

#[test]
fn dns_unreachable_returns_dns_fail() {
    let s = sample_with_outcomes(vec![
        outcome(TargetKind::Gateway, true),
        outcome(TargetKind::IcmpAnchor, true),
        outcome(TargetKind::Dns, false),
    ]);
    assert_eq!(classify(&s, &default_thresholds()), Status::DnsFail);
}

#[test]
fn dns_fail_takes_precedence_over_http_fail() {
    let s = sample_with_outcomes(vec![
        outcome(TargetKind::Gateway, true),
        outcome(TargetKind::IcmpAnchor, true),
        outcome(TargetKind::Dns, false),
        outcome(TargetKind::Http, false),
    ]);
    assert_eq!(classify(&s, &default_thresholds()), Status::DnsFail);
}

// -- 4. Http unreachable → HttpFail --

#[test]
fn http_unreachable_returns_http_fail() {
    let s = sample_with_outcomes(vec![
        outcome(TargetKind::Gateway, true),
        outcome(TargetKind::IcmpAnchor, true),
        outcome(TargetKind::Dns, true),
        outcome(TargetKind::Http, false),
    ]);
    assert_eq!(classify(&s, &default_thresholds()), Status::HttpFail);
}

// -- 5. Exceeds thresholds → Degraded --

#[test]
fn loss_exceeds_max_returns_degraded() {
    let s = sample_with_outcomes(vec![
        outcome(TargetKind::Gateway, true),
        outcome(TargetKind::IcmpAnchor, true),
        outcome(TargetKind::Dns, true),
        ProbeOutcome {
            kind: TargetKind::Http,
            reachable: true,
            rtt: Some(millis(50)),
            loss_pct: 50,
        },
    ]);
    assert_eq!(classify(&s, &default_thresholds()), Status::Degraded);
}

#[test]
fn rtt_exceeds_max_returns_degraded() {
    let s = sample_with_outcomes(vec![
        outcome(TargetKind::Gateway, true),
        outcome(TargetKind::IcmpAnchor, true),
        outcome(TargetKind::Dns, true),
        ProbeOutcome {
            kind: TargetKind::Http,
            reachable: true,
            rtt: Some(millis(500)),
            loss_pct: 0,
        },
    ]);
    assert_eq!(classify(&s, &default_thresholds()), Status::Degraded);
}

#[test]
fn no_rtt_does_not_trigger_rtt_threshold() {
    let s = sample_with_outcomes(vec![
        outcome(TargetKind::Gateway, true),
        outcome(TargetKind::IcmpAnchor, true),
        ProbeOutcome {
            kind: TargetKind::Dns,
            reachable: true,
            rtt: None,
            loss_pct: 0,
        },
    ]);
    assert_eq!(classify(&s, &default_thresholds()), Status::Good);
}

// -- 6. All good → Ok --

#[test]
fn all_good_returns_ok() {
    let s = sample_with_outcomes(vec![
        outcome(TargetKind::Gateway, true),
        outcome(TargetKind::IcmpAnchor, true),
        outcome(TargetKind::Dns, true),
        outcome(TargetKind::Http, true),
    ]);
    assert_eq!(classify(&s, &default_thresholds()), Status::Good);
}

#[test]
fn single_outcome_ok() {
    let s = sample_with_outcomes(vec![outcome(TargetKind::Gateway, true)]);
    assert_eq!(classify(&s, &default_thresholds()), Status::Good);
}

#[test]
fn empty_outcomes_returns_ok() {
    let s = sample_with_outcomes(vec![]);
    assert_eq!(classify(&s, &default_thresholds()), Status::Good);
}

// -- Limits are exclusive, and only reachable probes count --

fn http(reachable: bool, rtt: Option<u128>, loss_pct: u8) -> ProbeOutcome {
    ProbeOutcome {
        kind: TargetKind::TcpAnchor,
        reachable,
        rtt,
        loss_pct,
    }
}

#[test]
fn limits_are_exclusive() {
    let t = default_thresholds();
    let at_limit = sample_with_outcomes(vec![http(true, Some(millis(200)), 10)]);
    assert_eq!(classify(&at_limit, &t), Status::Good);
    // Latency counts in whole milliseconds.
    let under = sample_with_outcomes(vec![http(true, Some(millis(201) - 1), 10)]);
    assert_eq!(classify(&under, &t), Status::Good);
    let slow = sample_with_outcomes(vec![http(true, Some(millis(201)), 10)]);
    assert_eq!(classify(&slow, &t), Status::Degraded);
    let lossy = sample_with_outcomes(vec![http(true, Some(millis(200)), 11)]);
    assert_eq!(classify(&lossy, &t), Status::Degraded);
}

#[test]
fn unreachable_probe_does_not_degrade() {
    let s = sample_with_outcomes(vec![http(true, None, 0), http(false, None, 100)]);
    assert_eq!(classify(&s, &default_thresholds()), Status::Good);
}
