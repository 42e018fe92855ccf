use linewatch::chain::{compute_hash, ChainStatus, Record, RecordChain};
use linewatch::chart::{chart_data, in_daytime, span_style, tick_label, tick_text, OutageSpan};
use linewatch::digest::sha256_hex;
use linewatch::dossier::{project, Dossier, DossierConfig, ServiceCharter, Tariff};
use linewatch::events::{AgcomCategory, OutageEvent};
use linewatch::figures::{Figures, LineFigures, TempFigures};
use linewatch::json::{put_field, Json};
use linewatch::quantity::Quantity;
use linewatch::render_md::{
    hops_text, render_body, render_markdown, with_fingerprint, ReportConfig,
};
use linewatch::render_pdf::{render_blocks, Block};
use linewatch::timestamp::Timestamp;
use linewatch::trace::Hop;
use linewatch::types::Status;

fn quantity(x: f64) -> Quantity {
    Quantity { bits: x.to_bits() }
}

fn july(day: u32, hour: u32) -> Timestamp {
    let secs = 1_782_864_000i128 + (day as i128 - 1) * 86400 + hour as i128 * 3600;
    Timestamp::new(secs * 1_000_000_000, 0).unwrap()
}

fn text(s: &str) -> Json {
    Json::Text(s.to_owned())
}

fn hop(ttl: u8, addr: Option<&str>, rtt_ms: Option<u128>) -> Hop {
    Hop {
        ttl,
        addr: addr.map(|a| a.to_owned()),
        rtt: rtt_ms.map(|ms| ms * 1_000_000),
    }
}

fn outage_event(ended: Option<Timestamp>) -> OutageEvent {
    OutageEvent {
        started: july(10, 13),
        ended,
        worst_status: Status::Down,
        min_temp_c: Some(quantity(36.0)),
        samples_count: 0,
        category: AgcomCategory::CompleteInterruption,
    }
}

fn push_record(
    lines: &mut Vec<Json>,
    records: &mut Vec<Record>,
    kind: &str,
    make: impl FnOnce(RecordChain) -> Record,
) {
    let seq = lines.len() as u64;
    let prev = match lines.last() {
        Some(line) => line.get_text("hash").unwrap().clone(),
        None => String::new(),
    };
    let mut line = Json::Object(vec![
        ("type".to_owned(), text(kind)),
        ("seq".to_owned(), Json::Uint(seq)),
        ("prev_hash".to_owned(), text(&prev)),
    ]);
    let hash = compute_hash(&line, &prev);
    if let Json::Object(fields) = &mut line {
        put_field(fields, "hash", text(&hash));
    }
    lines.push(line);
    records.push(make(RecordChain {
        seq,
        prev_hash: prev,
        hash,
    }));
}

fn build_fixture_lines() -> (Vec<Json>, Vec<Record>) {
    let mut lines = Vec::new();
    let mut records = Vec::new();

    // MonitorRestart
    push_record(&mut lines, &mut records, "monitor_restart", |chain| {
        Record::MonitorRestart { chain }
    });

    // Samples day 1
    for h in &[6, 8, 10, 12, 14, 16] {
        push_record(&mut lines, &mut records, "sample", |chain| Record::Sample {
            chain,
            ts: format!("2026-07-10T{:02}:00:00Z", h),
            temp_c: Some(quantity(if *h >= 12 { 36.0 } else { 22.0 })),
            outcomes: vec![],
        });
    }

    // Outage 1 with traceroute hops
    push_record(&mut lines, &mut records, "outage", |chain| Record::Outage {
        chain,
        event: outage_event(Some(july(10, 19))),
        hops: vec![
            hop(1, Some("192.168.1.1"), Some(2)),
            hop(2, Some("10.0.0.1"), Some(5)),
            hop(3, Some("1.1.1.1"), Some(17)),
        ],
    });

    // Close with MonitorRestart
    push_record(&mut lines, &mut records, "monitor_restart", |chain| {
        Record::MonitorRestart { chain }
    });

    (lines, records)
}

fn hours(nanos: u128) -> f64 {
    nanos as f64 / 3.6e12
}

/// The numbers of a dossier, as the application writes them.
fn figures(d: &Dossier, records: &[Record]) -> Figures {
    let band = |i: usize| format!("{:.1}", hours(d.downtime_by_hour_band[i]));
    let amount = |effective: u128, rate: Quantity| {
        hours(effective) / 24.0 * f64::from_bits(rate.bits)
    };
    Figures {
        days_observed: format!("{:.2}", hours(d.observed) / 24.0),
        downtime_hours: format!("{:.1}", hours(d.total_downtime)),
        downtime_days: format!("{:.2}", hours(d.total_downtime) / 24.0),
        band_hours: [band(0), band(1), band(2), band(3)],
        temp: d.temp_correlation.map(|tc| TempFigures {
            hot_hours: format!("{:.1}", hours(tc.downtime_above_threshold)),
            window_hours: format!("{:.1}", hours(tc.downtime_in_window)),
            percent: format!(
                "{:.0}",
                100.0 * tc.downtime_above_threshold as f64 / tc.downtime_in_window as f64
            ),
        }),
        lines: d
            .per_event_indemnities
            .iter()
            .map(|l| LineFigures {
                hours: format!("{:.2}", hours(l.duration)),
                days: format!("{:.2}", hours(l.duration) / 24.0),
                rate: format!("{:.2}", f64::from_bits(l.tariff_daily.bits)),
                indemnity: format!("{:.2}", amount(l.effective, l.tariff_daily)),
            })
            .collect(),
        total_indemnity: format!(
            "{:.2}",
            d.per_event_indemnities
                .iter()
                .fold(0.0, |sum, l| sum + amount(l.effective, l.tariff_daily))
        ),
        hop_times: records
            .iter()
            .map(|r| match r {
                Record::Outage { hops, .. } => hops
                    .iter()
                    .map(|h| format!("{:.1} ms", h.rtt.unwrap_or(0) as f64 / 1e6))
                    .collect(),
                _ => vec![],
            })
            .collect(),
    }
}

fn fixture_dossier(lines: &[Json], records: &[Record]) -> Dossier {
    let charter = ServiceCharter {
        repair_window_days: 0,
    };
    let tariff = Tariff {
        complete_per_day: quantity(100.0),
        irregular_per_day: quantity(50.0),
    };
    let cfg = DossierConfig {
        daytime_start: 8,
        daytime_end: 20,
        temp_threshold: quantity(35.0),
    };
    project(lines, records, &charter, &tariff, &cfg)
}

// -- Markdown -----------------------------------------------------------------

#[test]
fn render_fixture_markdown() {
    let (lines, records) = build_fixture_lines();
    let dossier = fixture_dossier(&lines, &records);
    let report_cfg = ReportConfig {
        chart_path: Some("chart.png".into()),
    };
    let f = figures(&dossier, &records);
    assert!(f.fits(&dossier, &records));

    let md = render_markdown(&dossier, &records, &report_cfg, &f);
    println!("{}", md);

    assert!(md.contains("Linewatch Dossier"));
    assert!(md.contains("Executive Summary"));
    assert!(md.contains("Chain Integrity"));
    assert!(md.contains("Chronological Events"));
    assert!(md.contains("Indemnity Summary"));
    assert!(md.contains("Appendix A"));
    assert!(md.contains("Document fingerprint:"));
    assert!(md.contains("chart.png"));
    assert!(md.contains("Intact"));
    assert!(md.contains("OK"));
}

#[test]
fn markdown_has_an_exact_text() {
    let (lines, records) = build_fixture_lines();
    let dossier = fixture_dossier(&lines, &records);
    let cfg = ReportConfig {
        chart_path: Some("chart.png".into()),
    };
    let md = render_markdown(&dossier, &records, &cfg, &figures(&dossier, &records));
    let head = lines.last().unwrap().get_text("hash").unwrap();
    let body = format!(
        "# Linewatch Dossier\n\
         \n\
         ## Executive Summary\n\
         \n\
         - **Days observed:** 0.42\n\
         - **Outage count:** 1\n\
         - **Total downtime:** 6.0 hours (0.25 days)\n\
         - **Downtime by time-of-day band:**\n\
         \x20 - *00:00-06:00:* 0.0 h\n\
         \x20 - *06:00-12:00:* 0.0 h\n\
         \x20 - *12:00-18:00:* 5.0 h\n\
         \x20 - *18:00-24:00:* 1.0 h\n\
         - **Temperature correlation:** 6.0 of 6.0 downtime hours occurred within the daytime window; **100%** of that window downtime was above the temperature threshold.\n\
         \n\
         ![Temperature & Outage Timeline](chart.png)\n\
         \n\
         ## Chain Integrity\n\
         \n\
         - **Status:** OK - Intact\n\
         - **Record range:** seq 0 - 8\n\
         - **Head hash:** `{head}`\n\
         - **Re-verify command:** `cargo run -- report` (or independently validate the hash chain)\n\
         \n\
         ## Chronological Events\n\
         \n\
         | # | Start | End | Duration (h) | Category | Worst Status | Indemnity | Formula |\n\
         |---|-------|-----|-------------|----------|-------------|----------|---------|\n\
         | 1 | 2026-07-10 13:00:00.0 +00:00:00 | 2026-07-10 19:00:00.0 +00:00:00 | 6.00 | complete_interruption |  | 25.00 | `max(0, 0.25 - 0) × 100.00 = 25.00` |\n\
         \n\
         ## Indemnity Summary\n\
         \n\
         | Metric | Value |\n\
         |--------|-------|\n\
         | Total estimated indemnity | **25.00** |\n\
         | Repair window | 0 day(s) |\n\
         | Tariff (complete / irregular) | 100.00 / 100.00 per day |\n\
         \n\
         ## Appendix A - Traceroute Hops\n\
         \n\
         ### Event: 2026-07-10 - CompleteInterruption\n\
         \n\
         | TTL | Address | RTT |\n\
         |-----|---------|-----|\n\
         | 1 | 192.168.1.1 | 2.0 ms |\n\
         | 2 | 10.0.0.1 | 5.0 ms |\n\
         | 3 | 1.1.1.1 | 17.0 ms |\n\
         \n"
    );
    let fingerprint = sha256_hex(&body.clone().into_bytes());
    assert_eq!(
        md,
        format!("{body}---\n\n**Document fingerprint:** `{fingerprint}`\n")
    );
}

#[test]
fn digest_has_an_exact_value() {
    assert_eq!(
        sha256_hex(&Vec::new()),
        "e3b0c44298fc1c149afbf4c8996fb92427ae41e4649b934ca495991b7852b855"
    );
}

#[test]
fn empty_dossier_says_so() {
    let dossier = fixture_dossier(&[], &[]);
    let cfg = ReportConfig { chart_path: None };
    let md = render_markdown(&dossier, &[], &cfg, &figures(&dossier, &[]));
    assert!(md.contains("| - | - | - | - | - | - | 0.00 | - |\n\n## Indemnity Summary"));
    assert!(md.contains("*No traceroute data recorded.*\n\n---\n"));
    assert!(!md.contains("Record range"));
    assert!(!md.contains("Temperature"));
    assert!(!md.contains("Repair window"));
}

#[test]
fn broken_chain_is_shown_as_broken() {
    let (lines, records) = build_fixture_lines();
    let mut dossier = fixture_dossier(&lines, &records);
    dossier.chain_status = ChainStatus {
        intact: false,
        break_at: Some(7),
    };
    let f = figures(&dossier, &records);
    let md = render_markdown(&dossier, &records, &ReportConfig { chart_path: None }, &f);
    assert!(md.contains("## Chain Integrity\n\n- **Status:** BROKEN at seq 7\n"));
    assert!(!md.contains("Intact"));
    let blocks = render_blocks(&dossier, &records, &None, &f);
    assert!(blocks
        .iter()
        .any(|b| matches!(b, Block::Text(t) if t == "Status: BROKEN at seq 7")));
}

#[test]
fn silent_hops_are_marked() {
    let records = vec![Record::Outage {
        chain: RecordChain {
            seq: 3,
            prev_hash: String::new(),
            hash: "h".to_owned(),
        },
        event: outage_event(Some(july(10, 14))),
        hops: vec![hop(1, None, None)],
    }];
    let dossier = fixture_dossier(&[], &records);
    let f = figures(&dossier, &records);
    let md = render_markdown(&dossier, &records, &ReportConfig { chart_path: None }, &f);
    assert!(md.contains("| 1 | * | - |\n"));
    assert!(!md.contains("No traceroute data"));
}

#[test]
fn figures_must_match_the_dossier() {
    let (lines, records) = build_fixture_lines();
    let dossier = fixture_dossier(&lines, &records);
    let mut f = figures(&dossier, &records);
    f.hop_times[7].pop();
    assert!(!f.fits(&dossier, &records));
    let mut f = figures(&dossier, &records);
    f.lines.clear();
    assert!(!f.fits(&dossier, &records));
    let mut f = figures(&dossier, &records);
    f.temp = None;
    assert!(!f.fits(&dossier, &records));
}

// -- Blocks -------------------------------------------------------------------

#[test]
fn blocks_of_the_fixture() {
    let (lines, records) = build_fixture_lines();
    let dossier = fixture_dossier(&lines, &records);
    let f = figures(&dossier, &records);
    let blocks = render_blocks(&dossier, &records, &Some("chart.png".to_owned()), &f);
    let headings: Vec<(&str, u8)> = blocks
        .iter()
        .filter_map(|b| match b {
            Block::Heading(s, size) => Some((s.as_str(), *size)),
            _ => None,
        })
        .collect();
    assert_eq!(
        headings,
        vec![
            ("Linewatch Dossier", 22),
            ("Executive Summary", 16),
            ("Chain Integrity", 16),
            ("Chronological Events", 16),
            ("Indemnity Summary", 16),
            ("Appendix A - Traceroute Hops", 16),
        ]
    );
    assert!(matches!(&blocks[4], Block::Text(t) if t
        == "Days observed: 0.42\nOutage count: 1\nTotal downtime: 6.0 hours (0.25 days)\n\n  - 00:00-06:00: 0.0 h\n  - 06:00-12:00: 0.0 h\n  - 12:00-18:00: 5.0 h\n  - 18:00-24:00: 1.0 h\n\nTemperature correlation: 6.0 of 6.0 daytime downtime hours (100%) above threshold.\n"));
    assert!(matches!(&blocks[6], Block::Picture(p) if p == "chart.png"));
    let tables: Vec<(&Vec<usize>, &Vec<Vec<String>>)> = blocks
        .iter()
        .filter_map(|b| match b {
            Block::Table(widths, rows) => Some((widths, rows)),
            _ => None,
        })
        .collect();
    assert_eq!(tables.len(), 2);
    assert_eq!(*tables[0].0, vec![1, 3, 3, 2, 3, 2]);
    assert_eq!(
        tables[0].1[0],
        vec!["#", "Started", "Ended", "Dur. (h)", "Category", "Indemnity"]
    );
    assert_eq!(tables[0].1[1][0], "1");
    assert_eq!(tables[0].1[1][3], "6.00");
    assert_eq!(tables[0].1[1][5], "25.00");
    assert_eq!(*tables[1].0, vec![1, 3, 2]);
    assert_eq!(tables[1].1[3], vec!["3", "1.1.1.1", "17.0 ms"]);
    let head = lines.last().unwrap().get_text("hash").unwrap();
    let last = format!("Chain head hash: {head}");
    assert!(matches!(blocks.last(), Some(Block::Text(t)) if *t == last));
}

#[test]
fn blocks_without_records() {
    let dossier = fixture_dossier(&[], &[]);
    let f = figures(&dossier, &[]);
    let blocks = render_blocks(&dossier, &[], &None, &f);
    assert!(!blocks.iter().any(|b| matches!(b, Block::Picture(_))));
    assert!(matches!(blocks.last(), Some(Block::Text(t)) if t == "Chain head hash: "));
    assert!(blocks.iter().any(|b| matches!(b, Block::Table(_, rows) if rows.len() == 1)));
}

// -- Chart --------------------------------------------------------------------

#[test]
fn chart_of_the_fixture() {
    let (_, records) = build_fixture_lines();
    let chart = chart_data(&records).unwrap();
    assert_eq!(chart.temps.len(), 6);
    // 2026-07-10 06:00 UTC
    assert_eq!(chart.temps[0], (1_783_663_200, quantity(22.0)));
    assert_eq!(chart.temps[5], (1_783_699_200, quantity(36.0)));
    assert_eq!(
        chart.outages,
        vec![OutageSpan {
            from: 1_783_688_400,
            to: 1_783_710_000,
            category: AgcomCategory::CompleteInterruption,
        }]
    );
}

#[test]
fn chart_needs_a_temperature() {
    let records = vec![Record::Outage {
        chain: RecordChain {
            seq: 0,
            prev_hash: String::new(),
            hash: String::new(),
        },
        event: outage_event(None),
        hops: vec![],
    }];
    assert_eq!(chart_data(&records).err(), Some("no temperature data to chart"));
}

#[test]
fn ticks_and_daytime() {
    assert_eq!(tick_label(1_783_663_200).unwrap(), "07/10 06:00");
    assert_eq!(tick_label(-1).unwrap(), "12/31 23:00");
    assert_eq!(tick_label(253_402_300_799).unwrap(), "12/31 23:00");
    assert_eq!(tick_label(253_402_300_800), None);
    assert_eq!(in_daytime(1_783_663_200), Some(false));
    assert_eq!(in_daytime(1_783_663_200 + 2 * 3600), Some(true));
    assert_eq!(in_daytime(1_783_663_200 + 14 * 3600 - 1), Some(true));
    assert_eq!(in_daytime(1_783_663_200 + 14 * 3600), Some(false));
    assert_eq!(in_daytime(253_402_300_800), None);
}

#[test]
fn spans_have_a_label_and_a_colour() {
    assert_eq!(
        span_style(&AgcomCategory::CompleteInterruption),
        ("CompleteInterruption", 220, 50, 50)
    );
    assert_eq!(
        span_style(&AgcomCategory::IrregularService),
        ("IrregularService", 255, 165, 0)
    );
}

// -- Parts --------------------------------------------------------------------

#[test]
fn parts_of_the_document() {
    let (lines, records) = build_fixture_lines();
    let dossier = fixture_dossier(&lines, &records);
    let f = figures(&dossier, &records);
    let cfg = ReportConfig { chart_path: None };
    let body = render_body(&dossier, &records, &cfg, &f);
    let hash = sha256_hex(&body.clone().into_bytes());
    assert_eq!(
        render_markdown(&dossier, &records, &cfg, &f),
        with_fingerprint(body, &hash)
    );
    assert_eq!(
        with_fingerprint("x\n".to_owned(), "ab"),
        "x\n---\n\n**Document fingerprint:** `ab`\n"
    );
}

#[test]
fn hops_under_a_date() {
    let times = vec!["2.0 ms".to_owned(), "unused".to_owned()];
    let hops = vec![hop(1, Some("10.0.0.1"), Some(2)), hop(2, None, None)];
    assert_eq!(
        hops_text("2026-07-10", &AgcomCategory::IrregularService, &hops, &times),
        "### Event: 2026-07-10 - IrregularService\n\n| TTL | Address | RTT |\n|-----|---------|-----|\n| 1 | 10.0.0.1 | 2.0 ms |\n| 2 | * | - |\n\n"
    );
    assert_eq!(
        hops_text("d", &AgcomCategory::IrregularService, &vec![], &vec![]),
        "### Event: d - IrregularService\n\n| TTL | Address | RTT |\n|-----|---------|-----|\n| - | (no hop data) | - |\n\n"
    );
}

#[test]
fn tick_of_given_parts() {
    assert_eq!(tick_text(7, 10, 6), "07/10 06:00");
    assert_eq!(tick_text(12, 1, 23), "12/01 23:00");
}
