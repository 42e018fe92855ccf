use linewatch::chain::{compute_hash, verify_chain, Record, RecordChain};
use linewatch::dossier::{
    compute_indemnity, compute_temp_correlation, compute_time_observed, correlate, indemnity_line,
    project, time_span, Dossier, DossierConfig, IndemnityLine, ServiceCharter, Tariff,
};
use linewatch::events::{AgcomCategory, OutageEvent};
use linewatch::figures::{formula_text, LineFigures};
use linewatch::json::{put_field, Json};
use linewatch::quantity::Quantity;
use linewatch::timestamp::Timestamp;
use linewatch::types::Status;

const SECOND: u128 = 1_000_000_000;
const HOUR: u128 = 3600 * SECOND;
const DAY_SECONDS: f64 = 86400.0;

// ------------------------------------------------------------------
// Fixture helpers
// ------------------------------------------------------------------

fn quantity(x: f64) -> Quantity {
    Quantity { bits: x.to_bits() }
}

/// An hour of a day of July 2026, UTC.
fn july(day: u32, hour: u32) -> Timestamp {
    july_at(day, hour, 0, 0)
}

/// An hour and minute of a day of July 2026 on a clock at an offset.
fn july_at(day: u32, hour: u32, minute: u32, offset_secs: i32) -> Timestamp {
    // 2026-07-01 00:00:00 UTC
    let start = 1_782_864_000i128;
    let secs = start + (day as i128 - 1) * 86400 + hour as i128 * 3600 + minute as i128 * 60;
    Timestamp::new(secs * 1_000_000_000, offset_secs).unwrap()
}

fn chain(seq: u64, prev_hash: &str) -> RecordChain {
    RecordChain {
        seq,
        prev_hash: prev_hash.to_owned(),
        hash: String::new(),
    }
}

fn text(s: &str) -> Json {
    Json::Text(s.to_owned())
}

fn event(
    started: Timestamp,
    ended: Option<Timestamp>,
    category: AgcomCategory,
    temp_c: Option<f64>,
) -> OutageEvent {
    OutageEvent {
        started,
        ended,
        worst_status: match category {
            AgcomCategory::CompleteInterruption => Status::Down,
            AgcomCategory::IrregularService => Status::Degraded,
        },
        min_temp_c: temp_c.map(quantity),
        samples_count: 0,
        category,
    }
}

/// A log under construction: its lines, and the records that they hold.
struct Fixture {
    lines: Vec<Json>,
    records: Vec<Record>,
    prev: String,
}

impl Fixture {
    fn new() -> Fixture {
        Fixture {
            lines: Vec::new(),
            records: Vec::new(),
            prev: String::new(),
        }
    }

    fn push(&mut self, kind: &str, more: Vec<(&str, Json)>, record: Record) {
        let seq = self.lines.len() as u64;
        let mut fields = vec![
            ("type".to_owned(), text(kind)),
            ("seq".to_owned(), Json::Uint(seq)),
            ("prev_hash".to_owned(), text(&self.prev)),
            ("hash".to_owned(), text("")),
        ];
        for (k, v) in more {
            fields.push((k.to_owned(), v));
        }
        let mut line = Json::Object(fields);
        let hash = compute_hash(&line, &self.prev);
        if let Json::Object(fields) = &mut line {
            put_field(fields, "hash", text(&hash));
        }
        self.lines.push(line);
        let mut record = record;
        match &mut record {
            Record::Sample { chain, .. }
            | Record::Outage { chain, .. }
            | Record::MonitorRestart { chain } => chain.hash = hash.clone(),
        }
        self.records.push(record);
        self.prev = hash;
    }

    fn restart(&mut self) {
        let chain = chain(self.lines.len() as u64, &self.prev);
        self.push("monitor_restart", vec![], Record::MonitorRestart { chain });
    }

    fn sample(&mut self, ts: &str, temp_c: Option<f64>) {
        let chain = chain(self.lines.len() as u64, &self.prev);
        let temp = match temp_c {
            Some(t) => Json::Number(format!("{:?}", t)),
            None => Json::Null,
        };
        self.push(
            "sample",
            vec![("ts", text(ts)), ("temp_c", temp), ("outcomes", Json::Array(vec![]))],
            Record::Sample {
                chain,
                ts: ts.to_owned(),
                temp_c: temp_c.map(quantity),
                outcomes: vec![],
            },
        );
    }

    fn outage(
        &mut self,
        started: Timestamp,
        ended: Timestamp,
        category: AgcomCategory,
        temp_c: Option<f64>,
    ) {
        let chain = chain(self.lines.len() as u64, &self.prev);
        self.push(
            "outage",
            vec![
                ("started", text(&format!("{}", started.clock_nanos()))),
                ("ended", text(&format!("{}", ended.clock_nanos()))),
                ("hops", Json::Array(vec![])),
            ],
            Record::Outage {
                chain,
                event: event(started, Some(ended), category, temp_c),
                hops: vec![],
            },
        );
    }
}

fn build_fixture() -> Fixture {
    // A 3-day log with:
    //   - 2 CompleteInterruption outages
    //   - 1 IrregularService outage
    //   - periodic samples with known temperatures
    let mut log = Fixture::new();

    // Day 0 — restart + samples
    log.restart();

    // Samples on day 0
    for h in &[6, 8, 10, 12, 14, 16] {
        log.sample(
            &format!("2026-07-10T{:02}:00:00Z", h),
            Some(if *h >= 12 { 36.0 } else { 22.0 }),
        );
    }

    // Outage 1: CompleteInterruption, 6 hours, starts during daytime
    log.outage(
        july(10, 13),
        july(10, 19),
        AgcomCategory::CompleteInterruption,
        Some(36.0),
    );

    // Samples day 1
    for h in &[6, 8, 10, 12, 14, 16] {
        log.sample(
            &format!("2026-07-11T{:02}:00:00Z", h),
            Some(if *h >= 12 { 38.0 } else { 20.0 }),
        );
    }

    // Outage 2: IrregularService, 2 hours
    log.outage(
        july(11, 8),
        july(11, 10),
        AgcomCategory::IrregularService,
        Some(20.0),
    );

    // Samples day 2
    for h in &[6, 8, 10, 12] {
        log.sample(&format!("2026-07-12T{:02}:00:00Z", h), None);
    }

    // Outage 3: CompleteInterruption, 3 hours (crosses hour band)
    log.outage(
        july(12, 5),
        july(12, 8),
        AgcomCategory::CompleteInterruption,
        None,
    );

    log
}

fn days(nanos: u128) -> f64 {
    nanos as f64 / 1e9 / DAY_SECONDS
}

fn indemnity(line: &IndemnityLine) -> f64 {
    days(line.effective) * f64::from_bits(line.tariff_daily.bits)
}

fn formula(line: &IndemnityLine) -> String {
    let rate = f64::from_bits(line.tariff_daily.bits);
    let figures = LineFigures {
        hours: String::new(),
        days: format!("{:.2}", days(line.duration)),
        rate: format!("{:.2}", rate),
        indemnity: format!("{:.2}", indemnity(line)),
    };
    formula_text(line, &figures)
}

fn tariff() -> Tariff {
    Tariff {
        complete_per_day: quantity(100.0),
        irregular_per_day: quantity(50.0),
    }
}

fn project_fixture(log: &Fixture, repair_window_days: u32, cfg: &DossierConfig) -> Dossier {
    let charter = ServiceCharter { repair_window_days };
    project(&log.lines, &log.records, &charter, &tariff(), cfg)
}

// ------------------------------------------------------------------
// Tests
// ------------------------------------------------------------------

#[test]
fn fixture_chain_intact() {
    let log = build_fixture();
    let status = verify_chain(&log.lines);
    assert!(
        status.intact,
        "fixture chain should be intact: {:?}",
        status
    );
}

#[test]
fn fixture_totals() {
    let log = build_fixture();
    let cfg = DossierConfig {
        daytime_start: 8,
        daytime_end: 20,
        temp_threshold: quantity(35.0),
    };

    let dossier = project_fixture(&log, 0, &cfg);

    // Chain intact
    assert!(dossier.chain_status.intact);

    // Outage count: 3
    assert_eq!(dossier.outage_count, 3);

    // Total downtime:
    //   O1: 6h = 6*3600 = 21600s
    //   O2: 2h = 7200s
    //   O3: 3h = 10800s
    //   Total: 11h = 39600s
    let expected_total = 6 * 3600 + 2 * 3600 + 3 * 3600;
    assert_eq!(
        dossier.total_downtime / SECOND,
        expected_total,
        "total downtime mismatch"
    );

    // Days observed: spans ~2.3 days (July 10 06:00 to July 12 12:00)
    let days_observed = days(dossier.observed);
    assert!(
        (days_observed - 2.25).abs() < 0.02,
        "days_observed={}",
        days_observed
    );

    // Outage 1: 6h CompleteInterruption at 100/day → 0.25 days × 100 = 25.00
    // Outage 2: 2h IrregularService at 50/day → 0.08333 days × 50 ≈ 4.1667
    // Outage 3: 3h CompleteInterruption at 100/day → 0.125 days × 100 = 12.50
    assert_eq!(dossier.per_event_indemnities.len(), 3);
    let ind1 = &dossier.per_event_indemnities[0];
    assert_eq!(ind1.category, "complete_interruption");
    assert!(
        (indemnity(ind1) - 25.0).abs() < 0.01,
        "indemnity 1 = {}",
        indemnity(ind1)
    );
    println!("Indemnity 1: {} ({})", indemnity(ind1), formula(ind1));
    assert!(formula(ind1).contains("100.00"));

    let ind2 = &dossier.per_event_indemnities[1];
    assert_eq!(ind2.category, "irregular_service");
    assert!(
        (indemnity(ind2) - 4.1667).abs() < 0.01,
        "indemnity 2 = {}",
        indemnity(ind2)
    );

    let ind3 = &dossier.per_event_indemnities[2];
    assert_eq!(ind3.category, "complete_interruption");
    assert!(
        (indemnity(ind3) - 12.50).abs() < 0.01,
        "indemnity 3 = {}",
        indemnity(ind3)
    );

    // Temperature correlation:
    //   Daytime window 8-20, threshold 35°C
    //   O1: 13-19, fully in daytime, all 6h above threshold
    //   O2: 8-10, fully in daytime, 20°C: 2h in window, 0h above threshold
    //   O3: 5-8, outside the window
    let tc = dossier.temp_correlation.as_ref().unwrap();
    assert_eq!(
        tc.downtime_in_window / SECOND,
        8 * 3600,
        "downtime_in_window={}",
        tc.downtime_in_window / SECOND
    );
    assert_eq!(
        tc.downtime_above_threshold / SECOND,
        6 * 3600,
        "downtime_above_threshold={}",
        tc.downtime_above_threshold / SECOND
    );
    let share = tc.downtime_above_threshold as f64 / tc.downtime_in_window as f64;
    assert!((share - 0.75).abs() < 0.01);

    // Hour bands:
    //   O1: 13-19 → 5h in band 2, 1h in band 3
    //   O2: 8-10  → 2h in band 1
    //   O3: 5-8   → 1h in band 0, 2h in band 1
    let bands = &dossier.downtime_by_hour_band;
    assert_eq!(
        bands[0] / SECOND,
        1 * 3600,
        "band 0 = {}",
        bands[0] / SECOND
    );
    assert_eq!(
        bands[1] / SECOND,
        4 * 3600,
        "band 1 = {}",
        bands[1] / SECOND
    );
    assert_eq!(
        bands[2] / SECOND,
        5 * 3600,
        "band 2 = {}",
        bands[2] / SECOND
    );
    assert_eq!(
        bands[3] / SECOND,
        1 * 3600,
        "band 3 = {}",
        bands[3] / SECOND
    );
}

#[test]
fn indemnity_with_repair_window() {
    let log = build_fixture();
    let cfg = DossierConfig {
        daytime_start: 0,
        daytime_end: 24,
        temp_threshold: quantity(50.0),
    };

    // 1 day grace period
    let dossier = project_fixture(&log, 1, &cfg);

    // O1: 6h = 0.25 days. After 1 day repair window → 0 indemnity
    // O2: 2h = 0.0833 days. After 1 day → 0 indemnity
    // O3: 3h = 0.125 days. After 1 day → 0 indemnity
    for ind in &dossier.per_event_indemnities {
        assert!(
            indemnity(ind) < 0.001,
            "indemnity should be near zero with 1-day window: {} ({})",
            indemnity(ind),
            formula(ind),
        );
        assert!(formula(ind).contains("max(0"));
    }
}

#[test]
fn broken_chain_reported() {
    let mut log = build_fixture();
    // Tamper with a record's seq.
    if let Some(Json::Object(fields)) = log.lines.get_mut(12) {
        put_field(fields, "seq", Json::Uint(999));
    }
    let cfg = DossierConfig {
        daytime_start: 0,
        daytime_end: 24,
        temp_threshold: quantity(50.0),
    };
    let dossier = project_fixture(&log, 0, &cfg);
    assert!(!dossier.chain_status.intact);
    assert!(dossier.chain_status.break_at.is_some());
    assert_eq!(dossier.chain_status.break_at, Some(999));
}

// -- Edges ----------------------------------------------------------------

fn whole_day(threshold: f64) -> DossierConfig {
    DossierConfig {
        daytime_start: 0,
        daytime_end: 24,
        temp_threshold: quantity(threshold),
    }
}

#[test]
fn empty_log_has_an_empty_dossier() {
    let log = Fixture::new();
    let d = project_fixture(&log, 0, &whole_day(35.0));
    assert!(d.chain_status.intact);
    assert_eq!(d.observed, 0);
    assert_eq!(d.outage_count, 0);
    assert_eq!(d.total_downtime, 0);
    assert_eq!(d.downtime_by_hour_band, [0; 4]);
    assert_eq!(d.temp_correlation, None);
    assert!(d.per_event_indemnities.is_empty());
}

#[test]
fn outage_across_midnight_is_split_by_hour() {
    let mut log = Fixture::new();
    log.outage(
        july_at(10, 22, 30, 0),
        july_at(11, 7, 15, 0),
        AgcomCategory::CompleteInterruption,
        None,
    );
    let d = project_fixture(&log, 0, &whole_day(35.0));
    let minute = 60 * SECOND;
    assert_eq!(
        d.downtime_by_hour_band,
        [6 * HOUR, HOUR + 15 * minute, 0, HOUR + 30 * minute]
    );
    assert_eq!(d.downtime_by_hour_band.iter().sum::<u128>(), d.total_downtime);
}

#[test]
fn outage_of_several_days_counts_every_day() {
    let mut log = Fixture::new();
    log.outage(
        july(10, 23),
        july(13, 1),
        AgcomCategory::IrregularService,
        None,
    );
    let d = project_fixture(&log, 1, &whole_day(35.0));
    assert_eq!(d.downtime_by_hour_band, [13 * HOUR, 12 * HOUR, 12 * HOUR, 13 * HOUR]);
    assert_eq!(d.total_downtime, 50 * HOUR);
    assert_eq!(d.per_event_indemnities[0].effective, 26 * HOUR);
    assert_eq!(formula(&d.per_event_indemnities[0]), "max(0, 2.08 - 1) × 50.00 = 54.17");
}

#[test]
fn hours_are_those_of_the_local_clock() {
    let mut log = Fixture::new();
    // 01:30 to 02:30 on a clock two hours ahead of UTC.
    log.outage(
        july_at(10, 1, 30, 7200),
        july_at(10, 2, 30, 7200),
        AgcomCategory::IrregularService,
        None,
    );
    // One hour, although the clock was set to another offset in between.
    log.outage(
        july_at(11, 5, 30, 7200),
        july_at(11, 5, 30, 3600),
        AgcomCategory::IrregularService,
        None,
    );
    let d = project_fixture(&log, 0, &whole_day(35.0));
    let half = HOUR / 2;
    assert_eq!(d.downtime_by_hour_band, [HOUR + half, half, 0, 0]);
    assert_eq!(d.total_downtime, 2 * HOUR);
}

#[test]
fn outage_that_ends_before_it_starts_takes_no_time() {
    let mut log = Fixture::new();
    log.outage(
        july(10, 5),
        july(10, 4),
        AgcomCategory::IrregularService,
        None,
    );
    let d = project_fixture(&log, 0, &whole_day(35.0));
    assert_eq!(d.outage_count, 1);
    assert_eq!(d.total_downtime, 0);
    assert_eq!(d.per_event_indemnities[0].effective, 0);
}

#[test]
fn open_outage_is_left_out() {
    let open = event(july(10, 5), None, AgcomCategory::IrregularService, None);
    let records = vec![Record::Outage {
        chain: chain(0, ""),
        event: open,
        hops: vec![],
    }];
    let charter = ServiceCharter {
        repair_window_days: 0,
    };
    assert!(compute_indemnity(&open, &charter, &tariff()).is_none());
    let d = project(&[], &records, &charter, &tariff(), &whole_day(35.0));
    assert_eq!(d.outage_count, 0);
    assert!(d.per_event_indemnities.is_empty());
}

#[test]
fn indemnity_line_has_exact_parts() {
    let e = event(
        july_at(10, 13, 0, 0),
        Some(july_at(12, 1, 0, 0)),
        AgcomCategory::CompleteInterruption,
        None,
    );
    let charter = ServiceCharter {
        repair_window_days: 1,
    };
    let line = compute_indemnity(&e, &charter, &tariff()).unwrap();
    assert_eq!(line.event_start, "2026-07-10 13:00:00.0 +00:00:00");
    assert_eq!(line.event_end, "2026-07-12 1:00:00.0 +00:00:00");
    assert_eq!(line.duration, 36 * HOUR);
    assert_eq!(line.category, "complete_interruption");
    assert_eq!(line.repair_window_days, 1);
    assert_eq!(line.tariff_daily, quantity(100.0));
    assert_eq!(line.effective, 12 * HOUR);
    assert_eq!(formula(&line), "max(0, 1.50 - 1) × 100.00 = 50.00");
}

#[test]
fn time_observed_goes_from_the_earliest_to_the_latest() {
    let mut log = Fixture::new();
    log.sample("2026-07-12T00:00:00Z", None);
    log.sample("not a time", Some(40.0));
    log.sample("2026-07-10T02:00:00+02:00", None);
    log.outage(
        july(11, 0),
        july(19, 0),
        AgcomCategory::IrregularService,
        None,
    );
    assert_eq!(compute_time_observed(&log.records), 48 * HOUR);
}

#[test]
fn temperature_comes_from_the_last_reading_before_each_hour() {
    let mut log = Fixture::new();
    log.sample("2026-07-10T11:30:00Z", Some(40.0));
    log.sample("2026-07-10T12:10:00Z", Some(20.0));
    log.outage(
        july_at(10, 10, 30, 0),
        july_at(10, 14, 0, 0),
        AgcomCategory::IrregularService,
        None,
    );
    let d = project_fixture(&log, 0, &whole_day(35.0));
    let tc = d.temp_correlation.unwrap();
    assert_eq!(tc.downtime_in_window, 3 * HOUR + HOUR / 2);
    // 10:30 and 11:00 have no earlier reading and take the first one; 12:00
    // takes the reading of 11:30, and 13:00 that of 12:10.
    assert_eq!(tc.downtime_above_threshold, 2 * HOUR + HOUR / 2);
}

#[test]
fn threshold_itself_is_not_above() {
    let mut log = Fixture::new();
    log.sample("2026-07-10T00:00:00Z", Some(35.0));
    log.outage(
        july(10, 10),
        july(10, 11),
        AgcomCategory::IrregularService,
        None,
    );
    let tc = project_fixture(&log, 0, &whole_day(35.0)).temp_correlation.unwrap();
    assert_eq!(tc.downtime_above_threshold, 0);
    let tc = project_fixture(&log, 0, &whole_day(34.9)).temp_correlation.unwrap();
    assert_eq!(tc.downtime_above_threshold, HOUR);
}

#[test]
fn no_correlation_without_temperature_or_downtime_in_window() {
    let mut log = Fixture::new();
    log.outage(
        july(10, 10),
        july(10, 11),
        AgcomCategory::IrregularService,
        None,
    );
    let events = vec![event(
        july(10, 10),
        Some(july(10, 11)),
        AgcomCategory::IrregularService,
        None,
    )];
    assert_eq!(
        compute_temp_correlation(&log.records, &events, &whole_day(35.0)),
        None
    );
    log.sample("2026-07-10T00:00:00Z", Some(40.0));
    let night = DossierConfig {
        daytime_start: 20,
        daytime_end: 8,
        temp_threshold: quantity(35.0),
    };
    assert_eq!(compute_temp_correlation(&log.records, &events, &night), None);
    let late = DossierConfig {
        daytime_start: 10,
        daytime_end: 255,
        temp_threshold: quantity(35.0),
    };
    let tc = compute_temp_correlation(&log.records, &events, &late).unwrap();
    assert_eq!(tc.downtime_in_window, HOUR);
    assert_eq!(tc.downtime_above_threshold, HOUR);
}

// -- The parts behind the parsed texts --------------------------------------------

#[test]
fn span_of_timestamps() {
    assert_eq!(time_span(&vec![]), 0);
    assert_eq!(time_span(&vec![july(3, 4)]), 0);
    // 06:00 on a clock two hours ahead of UTC is 04:00 UTC.
    let times = vec![july(3, 9), july_at(3, 6, 0, 7200), july(3, 5), july(3, 11)];
    assert_eq!(time_span(&times), 7 * HOUR);
}

#[test]
fn correlation_of_given_readings() {
    let at = |day, hour| july(day, hour).instant_nanos();
    let temps = vec![(at(10, 9), quantity(30.0)), (at(10, 11), quantity(36.0))];
    let events = vec![event(
        july(10, 7),
        Some(july(10, 13)),
        AgcomCategory::IrregularService,
        None,
    )];
    let cfg = DossierConfig {
        daytime_start: 8,
        daytime_end: 20,
        temp_threshold: quantity(35.0),
    };
    let tc = correlate(&temps, &events, &cfg).unwrap();
    assert_eq!(tc.downtime_in_window, 5 * HOUR);
    assert_eq!(tc.downtime_above_threshold, 2 * HOUR);
    assert_eq!(correlate(&vec![], &events, &cfg), None);
}

#[test]
fn indemnity_line_keeps_the_given_texts() {
    let e = event(
        july(10, 0),
        Some(july(11, 6)),
        AgcomCategory::IrregularService,
        None,
    );
    let charter = ServiceCharter {
        repair_window_days: 1,
    };
    let line = indemnity_line("from".to_owned(), "to".to_owned(), &e, &charter, &tariff());
    assert_eq!(line.event_start, "from");
    assert_eq!(line.event_end, "to");
    assert_eq!(line.duration, 30 * HOUR);
    assert_eq!(line.effective, 6 * HOUR);
    assert_eq!(line.category, "irregular_service");
    assert_eq!(line.tariff_daily, quantity(50.0));
}

#[test]
fn dossiers_can_be_compared() {
    let log = build_fixture();
    let a = project_fixture(&log, 0, &whole_day(35.0));
    let b = project_fixture(&log, 0, &whole_day(35.0));
    let c = project_fixture(&log, 1, &whole_day(35.0));
    assert_eq!(a, b);
    assert_ne!(a, c);
}
