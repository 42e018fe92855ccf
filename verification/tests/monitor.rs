use linewatch::chain::Record;
use linewatch::chart::chart_data;
use linewatch::cli::{report_format, ReportFormat};
use linewatch::config::{otlp_target, Config, TargetsCfg, TempCfg};
use linewatch::dossier::compute_time_observed;
use linewatch::events::{AgcomCategory, DebounceCfg};
use linewatch::metrics::{
    category_label, health_text, readiness_status, readiness_text, status_gauges,
    status_to_metric, target_label,
};
use linewatch::probe::{
    default_gateway, http_outcome, ping_outcome, probe_outcome, unreachable_outcome,
};
use linewatch::quantity::Quantity;
use linewatch::run::{
    outage_record, probe_plan, sample_record, trace_target, Action, AnchorAddress, Event, Monitor,
    Phase, Probe,
};
use linewatch::temp::{create_temperature_source, url, TempCache, TemperatureSource};
use linewatch::timestamp::Timestamp;
use linewatch::trace::Hop;
use linewatch::types::{ProbeOutcome, Sample, Status, TargetKind, Thresholds};

fn celsius(t: f64) -> Quantity {
    Quantity { bits: t.to_bits() }
}

fn millis(n: u128) -> u128 {
    n * 1_000_000
}

fn at(secs: i128) -> Timestamp {
    Timestamp::new(secs * 1_000_000_000, 0).unwrap()
}

fn config(interval_secs: u64) -> Config {
    Config {
        interval_secs,
        data_dir: "/var/lib/linewatch".to_owned(),
        targets: TargetsCfg {
            tcp_anchors: vec!["1.1.1.1:443".to_owned(), "8.8.8.8:443".to_owned()],
            icmp_anchors: vec!["1.1.1.1".to_owned(), "x".to_owned(), "::1".to_owned()],
            dns_upstream: "1.1.1.1:53".to_owned(),
            dns_query_name: "cloudflare.com".to_owned(),
            http_url: "https://www.google.com/generate_204".to_owned(),
        },
        thresholds: Thresholds {
            max_loss_pct: 10,
            max_rtt_ms: 200,
        },
        debounce: DebounceCfg {
            open_after: 2,
            close_after: 1,
        },
        temp: TempCfg {
            source: "open-meteo".to_owned(),
            lat: celsius(41.77),
            lon: celsius(12.66),
            static_c: None,
        },
        otlp_endpoint: None,
    }
}

// -- Probes -----------------------------------------------------------------

#[test]
fn probe_answers() {
    assert_eq!(
        probe_outcome(TargetKind::TcpAnchor, true, millis(7)),
        ProbeOutcome {
            kind: TargetKind::TcpAnchor,
            reachable: true,
            rtt: Some(millis(7)),
            loss_pct: 0
        }
    );
    let lost = ProbeOutcome {
        kind: TargetKind::Dns,
        reachable: false,
        rtt: None,
        loss_pct: 100,
    };
    assert_eq!(probe_outcome(TargetKind::Dns, false, millis(7)), lost);
    assert_eq!(unreachable_outcome(TargetKind::Dns), lost);
}

#[test]
fn http_success_is_two_hundred_and_something() {
    for (code, ok) in [(199, false), (200, true), (204, true), (299, true), (300, false), (404, false)] {
        let o = http_outcome(TargetKind::Http, Some(code), millis(3));
        assert_eq!(o.reachable, ok);
        assert_eq!(o.rtt, if ok { Some(millis(3)) } else { None });
        assert_eq!(o.loss_pct, if ok { 0 } else { 100 });
    }
    assert!(!http_outcome(TargetKind::Http, None, 0).reachable);
}

#[test]
fn ping_aggregates_three_requests() {
    let all = ping_outcome(
        TargetKind::Gateway,
        &[Some(millis(10)), Some(millis(11)), Some(millis(12) + 999_999)],
    );
    assert!(all.reachable);
    assert_eq!(all.loss_pct, 0);
    assert_eq!(all.rtt, Some(millis(11)));
    let two = ping_outcome(TargetKind::Gateway, &[Some(millis(10)), None, Some(millis(13))]);
    assert_eq!(two.loss_pct, 33);
    assert_eq!(two.rtt, Some(millis(11)));
    let one = ping_outcome(TargetKind::Gateway, &[None, None, Some(millis(4))]);
    assert!(one.reachable);
    assert_eq!(one.loss_pct, 66);
    assert_eq!(one.rtt, Some(millis(4)));
    let none = ping_outcome(TargetKind::Gateway, &[None, None, None]);
    assert!(!none.reachable);
    assert_eq!(none.loss_pct, 100);
    assert_eq!(none.rtt, None);
}

const TITLES: &str = "Iface\tDestination\tGateway\tFlags\n";

#[test]
fn gateway_is_that_of_the_default_route() {
    let table = format!(
        "{TITLES}eth0\t0001A8C0\t00000000\t0001\nwg0\t00000000\t00000000\t0001\neth0\t00000000\t0101A8C0\t0003\neth1\t00000000\t0201A8C0\t0003\n"
    );
    assert_eq!(default_gateway(&table), Some(0x0101_A8C0));
}

#[test]
fn gateway_search_ends_at_a_bad_line() {
    assert_eq!(default_gateway(""), None);
    assert_eq!(default_gateway(TITLES), None);
    assert_eq!(default_gateway("eth0 00000000 0101A8C0\n"), None);
    let short = format!("{TITLES}eth0\t00000001\n{}", "eth0\t00000000\t0101A8C0\n");
    assert_eq!(default_gateway(&short), None);
    let bad = format!("{TITLES}eth0\t00000000\txyz\n{}", "eth0\t00000000\t0101A8C0\n");
    assert_eq!(default_gateway(&bad), None);
    let long = format!("{TITLES}eth0\t00000000\t1000000000\n");
    assert_eq!(default_gateway(&long), None);
}

#[test]
fn plan_goes_through_all_targets() {
    let cfg = config(5);
    let addresses = vec![AnchorAddress::V4, AnchorAddress::Invalid, AnchorAddress::V6];
    assert_eq!(
        probe_plan(&cfg.targets, &addresses, true),
        vec![
            Probe::Tcp(0),
            Probe::Tcp(1),
            Probe::Ping(0),
            Probe::NoPing(2),
            Probe::Gateway,
            Probe::Http,
            Probe::Dns,
        ]
    );
    assert_eq!(
        probe_plan(&cfg.targets, &vec![], false),
        vec![Probe::Tcp(0), Probe::Tcp(1), Probe::Http, Probe::Dns]
    );
}

#[test]
fn probe_timeout_is_a_second_less_than_the_interval() {
    assert_eq!(config(0).probe_timeout_secs(), 1);
    assert_eq!(config(1).probe_timeout_secs(), 1);
    assert_eq!(config(2).probe_timeout_secs(), 1);
    assert_eq!(config(5).probe_timeout_secs(), 4);
}

#[test]
fn trace_goes_to_the_gateway() {
    assert_eq!(trace_target(Some(0xC0A8_0101)), 0xC0A8_0101);
    assert_eq!(trace_target(None), 0x0101_0101);
}

// -- The loop -----------------------------------------------------------------

fn outcomes(reachable: bool) -> Vec<ProbeOutcome> {
    vec![
        probe_outcome(TargetKind::Gateway, true, millis(1)),
        probe_outcome(TargetKind::TcpAnchor, reachable, millis(9)),
    ]
}

fn cycle(m: Monitor, secs: i128, reachable: bool, temp: Option<Quantity>) -> (Monitor, Action) {
    let (m, action) = m.step(Event::Probed {
        ts: at(secs),
        outcomes: outcomes(reachable),
    });
    assert!(matches!(action, Action::ReadTemperature));
    m.step(Event::Temperature(temp))
}

#[test]
fn cycles_open_and_close_an_outage() {
    let m = Monitor::new(&config(5));
    let (m, a) = cycle(m, 10, false, Some(celsius(30.0)));
    assert!(matches!(a, Action::Publish { status: Status::Down, outage: None, .. }));
    let (m, a) = cycle(m, 15, false, Some(celsius(28.0)));
    assert!(matches!(a, Action::Publish { status: Status::Down, outage: None, .. }));
    let (m, a) = cycle(m, 20, true, None);
    let Action::Publish { sample, status, outage } = a else {
        panic!("a finished cycle is published");
    };
    assert_eq!(status, Status::Good);
    assert_eq!(sample.ts, at(20));
    assert_eq!(sample.temp_c, None);
    assert_eq!(sample.outcomes, outcomes(true));
    let event = outage.unwrap();
    assert_eq!(event.started, at(10));
    assert_eq!(event.ended, Some(at(20)));
    assert_eq!(event.min_temp_c, Some(celsius(28.0)));
    assert_eq!(event.category, AgcomCategory::CompleteInterruption);
    assert!(matches!(m.phase, Phase::Tracing { last: false, .. }));
    let (m, a) = m.step(Event::Path(vec![]));
    assert!(matches!(a, Action::AppendOutage { event: e, last: false, .. } if e == event));
    assert!(matches!(m.phase, Phase::Waiting));
    let (m, a) = m.step(Event::Path(vec![]));
    assert!(matches!(a, Action::Nothing));
    let (m, a) = m.step(Event::Shutdown(at(30)));
    assert!(matches!(a, Action::Stop));
    assert!(matches!(m.phase, Phase::Stopped));
}

#[test]
fn temperature_is_not_read_when_nothing_is_reached() {
    let m = Monitor::new(&config(5));
    let (m, a) = m.step(Event::Probed {
        ts: at(10),
        outcomes: vec![unreachable_outcome(TargetKind::TcpAnchor)],
    });
    let Action::Publish { sample, status, outage } = a else {
        panic!("a finished cycle is published");
    };
    assert_eq!(status, Status::Down);
    assert_eq!(sample.temp_c, None);
    assert_eq!(outage, None);
    let (_, a) = m.step(Event::Temperature(Some(celsius(1.0))));
    assert!(matches!(a, Action::Nothing));
}

#[test]
fn shutdown_cuts_an_open_outage_off() {
    let m = Monitor::new(&config(5));
    let (m, _) = cycle(m, 10, false, None);
    let (m, _) = cycle(m, 15, false, None);
    let (m, a) = m.step(Event::Shutdown(at(17)));
    assert!(matches!(a, Action::TracePath));
    let hops = vec![Hop {
        ttl: 1,
        addr: None,
        rtt: None,
    }];
    let (m, a) = m.step(Event::Path(hops));
    let Action::AppendOutage { event, hops, last } = a else {
        panic!("the outage is appended");
    };
    assert!(last);
    assert_eq!(event.ended, Some(at(17)));
    assert_eq!(hops.len(), 1);
    assert!(matches!(m.phase, Phase::Stopped));
    assert!(matches!(m.step(Event::Shutdown(at(18))).1, Action::Nothing));
}

#[test]
fn records_of_a_cycle() {
    let m = Monitor::new(&config(5));
    let (_, a) = cycle(m, 1_783_252_800, true, Some(celsius(22.5)));
    let Action::Publish { sample, .. } = a else {
        panic!("a finished cycle is published");
    };
    let Record::Sample { chain, ts, temp_c, outcomes: o } = sample_record(sample) else {
        panic!("the record of a sample");
    };
    assert_eq!(chain.seq, 0);
    assert_eq!(chain.hash, "");
    assert_eq!(ts, "2026-07-05T12:00:00Z");
    assert_eq!(temp_c, Some(celsius(22.5)));
    assert_eq!(o, outcomes(true));
}

#[test]
fn record_of_an_outage() {
    let m = Monitor::new(&config(5));
    let (m, _) = cycle(m, 10, false, None);
    let (m, _) = cycle(m, 15, false, None);
    let (_, a) = cycle(m, 20, true, None);
    let Action::Publish { outage: Some(event), .. } = a else {
        panic!("an outage has ended");
    };
    let Record::Outage { chain, event: e, hops } = outage_record(event, vec![]) else {
        panic!("the record of an outage");
    };
    assert_eq!(chain.prev_hash, "");
    assert_eq!(e, event);
    assert!(hops.is_empty());
}

// -- Temperature ----------------------------------------------------------------

#[test]
fn factory_static() {
    let cfg = TempCfg {
        source: "static".into(),
        lat: celsius(0.0),
        lon: celsius(0.0),
        static_c: Some(celsius(18.0)),
    };
    assert_eq!(
        create_temperature_source(&cfg),
        TemperatureSource::StaticTemp(celsius(18.0))
    );
}

#[test]
fn factory_open_meteo_without_static() {
    let mut cfg = config(5).temp;
    let forecast = TemperatureSource::OpenMeteo {
        lat: celsius(41.77),
        lon: celsius(12.66),
    };
    assert_eq!(create_temperature_source(&cfg), forecast);
    cfg.static_c = Some(celsius(18.0));
    assert_eq!(create_temperature_source(&cfg), forecast);
}

#[test]
fn factory_static_fallback_to_open_meteo_when_no_static_c() {
    let cfg = TempCfg {
        source: "static".into(),
        lat: celsius(41.8931),
        lon: celsius(12.4828),
        static_c: None,
    };
    assert_eq!(
        create_temperature_source(&cfg),
        TemperatureSource::OpenMeteo {
            lat: celsius(41.8931),
            lon: celsius(12.4828)
        }
    );
}

#[test]
fn forecast_address() {
    assert_eq!(
        url("41.77", "12.66"),
        "https://api.open-meteo.com/v1/forecast?latitude=41.77&longitude=12.66&current=temperature_2m"
    );
}

#[test]
fn cache_keeps_a_temperature_for_five_minutes() {
    let second = 1_000_000_000u128;
    let mut cache = TempCache::new();
    assert_eq!(cache.lookup(0), None);
    cache.store(celsius(21.0), 50 * second);
    assert_eq!(cache.lookup(50 * second), Some(celsius(21.0)));
    assert_eq!(cache.lookup(350 * second - 1), Some(celsius(21.0)));
    assert_eq!(cache.lookup(350 * second), None);
}

// -- Metrics and the command line ------------------------------------------------

#[test]
fn status_gauge_exclusive() {
    let value = |gauges: &Vec<(&str, u8)>, name: &str| {
        gauges.iter().find(|(n, _)| *n == name).unwrap().1
    };
    let gauges = status_gauges(&Status::Down);
    assert_eq!(gauges.len(), 6);
    assert_eq!(value(&gauges, "down"), 2);
    assert_eq!(value(&gauges, "ok"), 0);

    // Switching to Ok resets Down.
    let gauges = status_gauges(&Status::Good);
    assert_eq!(value(&gauges, "ok"), 0);
    assert_eq!(value(&gauges, "down"), 0);
}

#[test]
fn status_metrics() {
    assert_eq!(status_to_metric(&Status::Good), (0, "ok"));
    assert_eq!(status_to_metric(&Status::Degraded), (1, "degraded"));
    assert_eq!(status_to_metric(&Status::Down), (2, "down"));
    assert_eq!(status_to_metric(&Status::LocalOrPower), (3, "local_or_power"));
    assert_eq!(status_to_metric(&Status::DnsFail), (4, "dns_fail"));
    assert_eq!(status_to_metric(&Status::HttpFail), (5, "http_fail"));
}

#[test]
fn labels() {
    assert_eq!(target_label(&TargetKind::Gateway), "gateway");
    assert_eq!(target_label(&TargetKind::IcmpAnchor), "icmp_anchor");
    assert_eq!(target_label(&TargetKind::TcpAnchor), "tcp_anchor");
    assert_eq!(target_label(&TargetKind::Dns), "dns");
    assert_eq!(target_label(&TargetKind::Http), "http");
    assert_eq!(
        category_label(&AgcomCategory::CompleteInterruption),
        "complete_interruption"
    );
    assert_eq!(category_label(&AgcomCategory::IrregularService), "irregular_service");
}

#[test]
fn healthz_and_readyz() {
    // Before ready.
    assert_eq!(readiness_text(false), "not ready");
    assert_eq!(readiness_status(false), 503);
    assert_eq!(health_text(true), "ok");
    assert_eq!(health_text(false), "unhealthy");

    assert_eq!(readiness_text(true), "ok");
    assert_eq!(readiness_status(true), 200);
}

#[test]
fn report_formats() {
    assert_eq!(report_format("md"), Ok(ReportFormat::Markdown));
    assert_eq!(report_format("pdf"), Ok(ReportFormat::Pdf));
    assert_eq!(
        report_format("txt"),
        Err("unsupported format: txt (expected 'md' or 'pdf')".to_owned())
    );
}

#[test]
fn empty_endpoint_is_no_endpoint() {
    assert_eq!(otlp_target(&None), None);
    assert_eq!(otlp_target(&Some(String::new())), None);
    assert_eq!(
        otlp_target(&Some("http://collector:4318".to_owned())),
        Some("http://collector:4318")
    );
}

// -- Samples in the dossier -------------------------------------------------------

fn record_at(ts: Timestamp) -> Record {
    sample_record(Sample {
        ts,
        temp_c: Some(celsius(20.0)),
        outcomes: vec![],
    })
}

fn text_at(ts: Timestamp) -> String {
    match record_at(ts) {
        Record::Sample { ts, .. } => ts,
        _ => panic!("the record of a sample"),
    }
}

#[test]
fn written_samples_count() {
    let records = vec![record_at(at(1_783_252_800)), record_at(at(1_783_252_805))];
    assert_eq!(compute_time_observed(&records), 5_000_000_000);
    let chart = chart_data(&records).unwrap();
    assert_eq!(chart.temps[1], (1_783_252_805, celsius(20.0)));
}

#[test]
fn time_of_a_sample_is_written_in_full() {
    let nanos = |n: i128, offset| Timestamp::new(1_783_252_800_000_000_000 + n, offset).unwrap();
    assert_eq!(text_at(nanos(1, 0)), "2026-07-05T12:00:00.000000001Z");
    assert_eq!(text_at(nanos(500_000_000, 7200)), "2026-07-05T12:00:00.5+02:00");
    assert_eq!(text_at(nanos(0, -1800)), "2026-07-05T12:00:00-00:30");
    // An offset with seconds, one of a day or more, and a year before zero have
    // no such form.
    assert_eq!(text_at(nanos(0, 30)), "2026-07-05 12:00:00.0 +00:00:30");
    assert_eq!(text_at(nanos(0, 86_400)), "2026-07-05 12:00:00.0 +24:00:00");
    assert_eq!(text_at(at(-62_167_219_200)), "0000-01-01T00:00:00Z");
    assert_eq!(text_at(at(-62_167_219_201)), "-0001-12-31 23:59:59.0 +00:00:00");
}

#[test]
fn equality_is_that_of_instants_and_numbers() {
    let noon = Timestamp::new(43_200_000_000_000, 0).unwrap();
    let later_clock = Timestamp::new(50_400_000_000_000, 7200).unwrap();
    assert_eq!(noon, later_clock);
    assert_ne!(noon, Timestamp::new(43_200_000_000_000, 7200).unwrap());
    assert_eq!(celsius(0.0), celsius(-0.0));
    assert_ne!(celsius(f64::NAN), celsius(f64::NAN));
    assert_ne!(celsius(1.0), celsius(-1.0));
}
