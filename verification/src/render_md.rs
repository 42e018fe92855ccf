//! The dossier as a Markdown document.
use crate::chain::{append_utf8, get_hash, get_seq, Record};
use crate::digest::{hex_text, sha256, sha256_hex};
use crate::dossier::{Dossier, IndemnityLine};
use crate::events::{AgcomCategory, OutageEvent};
use crate::figures::{formula, formula_text, Figures, LineFigures};
use crate::text::{decimal, decimal_text, lemma_line_ends, lemma_line_goes_on};
use crate::timestamp::{date_display, date_text};
use crate::trace::Hop;
use vstd::prelude::*;
use vstd::utf8::encode_utf8;

verus! {

/// How the report is to look.
#[derive(Clone, Debug)]
pub struct ReportConfig {
    /// Path of the chart to refer to.
    pub chart_path: Option<String>,
}

// ---------------------------------------------------------------------------
// Executive summary
// ---------------------------------------------------------------------------

/// The sentence on the temperature correlation.
pub open spec fn temp_sentence(f: Figures) -> Seq<char> {
    match f.temp {
        Some(t) => "- **Temperature correlation:** "@ + t.hot_hours@ + " of "@ + t.window_hours@
            + " downtime hours occurred within the daytime window; **"@ + t.percent@
            + "%** of that window downtime was above the temperature threshold.\n"@,
        None => ""@,
    }
}

/// The executive summary.
pub open spec fn summary(d: Dossier, f: Figures) -> Seq<char> {
    "## Executive Summary\n\n- **Days observed:** "@ + f.days_observed@ + "\n- **Outage count:** "@
        + decimal(d.outage_count as nat) + "\n- **Total downtime:** "@ + f.downtime_hours@
        + " hours ("@ + f.downtime_days@
        + " days)\n- **Downtime by time-of-day band:**\n  - *00:00-06:00:* "@ + f.band_hours@[0]@
        + " h\n  - *06:00-12:00:* "@ + f.band_hours@[1]@ + " h\n  - *12:00-18:00:* "@
        + f.band_hours@[2]@ + " h\n  - *18:00-24:00:* "@ + f.band_hours@[3]@ + " h\n"@
        + temp_sentence(f) + "\n"@
}

fn temp_sentence_text(f: &Figures) -> (res: String)
    ensures
        res@ == temp_sentence(*f),
{
    match &f.temp {
        Some(t) => {
            let mut res = "- **Temperature correlation:** ".to_owned();
            res.append(t.hot_hours.as_str());
            res.append(" of ");
            res.append(t.window_hours.as_str());
            res.append(" downtime hours occurred within the daytime window; **");
            res.append(t.percent.as_str());
            res.append("%** of that window downtime was above the temperature threshold.\n");
            res
        },
        None => "".to_owned(),
    }
}

fn summary_text(d: &Dossier, f: &Figures) -> (res: String)
    ensures
        res@ == summary(*d, *f),
{
    let mut res = "## Executive Summary\n\n- **Days observed:** ".to_owned();
    res.append(f.days_observed.as_str());
    res.append("\n- **Outage count:** ");
    res.append(decimal_text(d.outage_count as u64).as_str());
    res.append("\n- **Total downtime:** ");
    res.append(f.downtime_hours.as_str());
    res.append(" hours (");
    res.append(f.downtime_days.as_str());
    res.append(" days)\n- **Downtime by time-of-day band:**\n  - *00:00-06:00:* ");
    res.append(f.band_hours[0].as_str());
    res.append(" h\n  - *06:00-12:00:* ");
    res.append(f.band_hours[1].as_str());
    res.append(" h\n  - *12:00-18:00:* ");
    res.append(f.band_hours[2].as_str());
    res.append(" h\n  - *18:00-24:00:* ");
    res.append(f.band_hours[3].as_str());
    res.append(" h\n");
    res.append(temp_sentence_text(f).as_str());
    res.append("\n");
    res
}

// ---------------------------------------------------------------------------
// Chart
// ---------------------------------------------------------------------------

/// The reference to the chart, when there is one.
pub open spec fn chart_reference(cfg: ReportConfig) -> Seq<char> {
    match cfg.chart_path {
        Some(path) => "![Temperature & Outage Timeline]("@ + path@ + ")\n\n"@,
        None => ""@,
    }
}

fn chart_reference_text(cfg: &ReportConfig) -> (res: String)
    ensures
        res@ == chart_reference(*cfg),
{
    match &cfg.chart_path {
        Some(path) => {
            let mut res = "![Temperature & Outage Timeline](".to_owned();
            res.append(path.as_str());
            res.append(")\n\n");
            res
        },
        None => "".to_owned(),
    }
}

// ---------------------------------------------------------------------------
// Chain integrity
// ---------------------------------------------------------------------------

/// The status of the chain.
pub open spec fn status_line(d: Dossier) -> Seq<char> {
    if d.chain_status.intact {
        "- **Status:** OK - Intact\n"@
    } else {
        "- **Status:** BROKEN at seq "@ + decimal(
            match d.chain_status.break_at {
                Some(n) => n as nat,
                None => 0,
            },
        ) + "\n"@
    }
}

/// The range of the records and the last hash.
pub open spec fn record_range(records: Seq<Record>) -> Seq<char> {
    if records.len() > 0 {
        "- **Record range:** seq "@ + decimal(records[0].chain().seq as nat) + " - "@ + decimal(
            records.last().chain().seq as nat,
        ) + "\n- **Head hash:** `"@ + records.last().chain().hash@ + "`\n"@
    } else {
        ""@
    }
}

/// The section on the integrity of the chain.
pub open spec fn integrity(d: Dossier, records: Seq<Record>) -> Seq<char> {
    "## Chain Integrity\n\n"@ + status_line(d) + record_range(records)
        + "- **Re-verify command:** `cargo run -- report` (or independently validate the hash chain)\n\n"@
}

fn status_line_text(d: &Dossier) -> (res: String)
    ensures
        res@ == status_line(*d),
{
    if d.chain_status.intact {
        "- **Status:** OK - Intact\n".to_owned()
    } else {
        let mut res = "- **Status:** BROKEN at seq ".to_owned();
        let at: u64 = match d.chain_status.break_at {
            Some(n) => n,
            None => 0,
        };
        res.append(decimal_text(at).as_str());
        res.append("\n");
        res
    }
}

fn record_range_text(records: &[Record]) -> (res: String)
    ensures
        res@ == record_range(records@),
{
    if records.len() > 0 {
        let last = &records[records.len() - 1];
        let mut res = "- **Record range:** seq ".to_owned();
        res.append(decimal_text(get_seq(&records[0])).as_str());
        res.append(" - ");
        res.append(decimal_text(get_seq(last)).as_str());
        res.append("\n- **Head hash:** `");
        res.append(get_hash(last));
        res.append("`\n");
        res
    } else {
        "".to_owned()
    }
}

fn integrity_text(d: &Dossier, records: &[Record]) -> (res: String)
    ensures
        res@ == integrity(*d, records@),
{
    let mut res = "## Chain Integrity\n\n".to_owned();
    res.append(status_line_text(d).as_str());
    res.append(record_range_text(records).as_str());
    res.append(
        "- **Re-verify command:** `cargo run -- report` (or independently validate the hash chain)\n\n",
    );
    res
}

// ---------------------------------------------------------------------------
// Events
// ---------------------------------------------------------------------------

/// One row of the event table; `n` counts from one.
pub open spec fn event_row(n: nat, line: IndemnityLine, f: LineFigures) -> Seq<char> {
    "| "@ + decimal(n) + " | "@ + line.event_start@ + " | "@ + line.event_end@ + " | "@ + f.hours@
        + " | "@ + line.category@ + " |  | "@ + f.indemnity@ + " | `"@ + formula(line, f)
        + "` |\n"@
}

/// The first `n` rows of the event table.
pub open spec fn event_rows(lines: Seq<IndemnityLine>, f: Seq<LineFigures>, n: nat) -> Seq<char>
    decreases n,
{
    if n == 0 {
        ""@
    } else {
        event_rows(lines, f, (n - 1) as nat) + event_row(n, lines[n - 1], f[n - 1])
    }
}

/// The table of events.
pub open spec fn event_table(d: Dossier, f: Figures) -> Seq<char> {
    let lines = d.per_event_indemnities@;
    "## Chronological Events\n\n| # | Start | End | Duration (h) | Category | Worst Status | Indemnity | Formula |\n|---|-------|-----|-------------|----------|-------------|----------|---------|\n"@
        + event_rows(lines, f.lines@, lines.len()) + (if lines.len() == 0 {
        "| - | - | - | - | - | - | 0.00 | - |\n\n"@
    } else {
        "\n"@
    })
}

fn event_row_text(n: u64, line: &IndemnityLine, f: &LineFigures) -> (res: String)
    ensures
        res@ == event_row(n as nat, *line, *f),
{
    let mut res = "| ".to_owned();
    res.append(decimal_text(n).as_str());
    res.append(" | ");
    res.append(line.event_start.as_str());
    res.append(" | ");
    res.append(line.event_end.as_str());
    res.append(" | ");
    res.append(f.hours.as_str());
    res.append(" | ");
    res.append(line.category.as_str());
    res.append(" |  | ");
    res.append(f.indemnity.as_str());
    res.append(" | `");
    res.append(formula_text(line, f).as_str());
    res.append("` |\n");
    res
}

fn event_table_text(d: &Dossier, f: &Figures) -> (res: String)
    requires
        f.lines@.len() == d.per_event_indemnities@.len(),
    ensures
        res@ == event_table(*d, *f),
{
    let lines = &d.per_event_indemnities;
    let mut rows = "".to_owned();
    let mut i: usize = 0;
    while i < lines.len()
        invariant
            i <= lines@.len(),
            f.lines@.len() == lines@.len(),
            rows@ == event_rows(lines@, f.lines@, i as nat),
        decreases lines@.len() - i,
    {
        rows.append(event_row_text((i + 1) as u64, &lines[i], &f.lines[i]).as_str());
        i += 1;
    }
    let mut res =
        "## Chronological Events\n\n| # | Start | End | Duration (h) | Category | Worst Status | Indemnity | Formula |\n|---|-------|-----|-------------|----------|-------------|----------|---------|\n".to_owned();
    res.append(rows.as_str());
    if lines.len() == 0 {
        res.append("| - | - | - | - | - | - | 0.00 | - |\n\n");
    } else {
        res.append("\n");
    }
    res
}

// ---------------------------------------------------------------------------
// Indemnities
// ---------------------------------------------------------------------------

/// The terms of the first indemnity line.
pub open spec fn terms(d: Dossier, f: Figures) -> Seq<char> {
    if d.per_event_indemnities@.len() > 0 {
        "| Repair window | "@ + decimal(d.per_event_indemnities@[0].repair_window_days as nat)
            + " day(s) |\n| Tariff (complete / irregular) | "@ + f.lines@[0].rate@ + " / "@
            + f.lines@[0].rate@ + " per day |\n"@
    } else {
        ""@
    }
}

/// The summary of indemnities.
pub open spec fn indemnity_summary(d: Dossier, f: Figures) -> Seq<char> {
    "## Indemnity Summary\n\n| Metric | Value |\n|--------|-------|\n| Total estimated indemnity | **"@
        + f.total_indemnity@ + "** |\n"@ + terms(d, f) + "\n"@
}

fn terms_text(d: &Dossier, f: &Figures) -> (res: String)
    requires
        f.lines@.len() == d.per_event_indemnities@.len(),
    ensures
        res@ == terms(*d, *f),
{
    if d.per_event_indemnities.len() > 0 {
        let mut res = "| Repair window | ".to_owned();
        res.append(decimal_text(d.per_event_indemnities[0].repair_window_days as u64).as_str());
        res.append(" day(s) |\n| Tariff (complete / irregular) | ");
        res.append(f.lines[0].rate.as_str());
        res.append(" / ");
        res.append(f.lines[0].rate.as_str());
        res.append(" per day |\n");
        res
    } else {
        "".to_owned()
    }
}

fn indemnity_summary_text(d: &Dossier, f: &Figures) -> (res: String)
    requires
        f.lines@.len() == d.per_event_indemnities@.len(),
    ensures
        res@ == indemnity_summary(*d, *f),
{
    let mut res =
        "## Indemnity Summary\n\n| Metric | Value |\n|--------|-------|\n| Total estimated indemnity | **".to_owned();
    res.append(f.total_indemnity.as_str());
    res.append("** |\n");
    res.append(terms_text(d, f).as_str());
    res.append("\n");
    res
}

// ---------------------------------------------------------------------------
// Appendix
// ---------------------------------------------------------------------------

/// How a category is written in full.
pub open spec fn category_name(c: AgcomCategory) -> Seq<char> {
    match c {
        AgcomCategory::CompleteInterruption => "CompleteInterruption"@,
        AgcomCategory::IrregularService => "IrregularService"@,
    }
}

/// The address of a hop; a star when it did not answer.
pub open spec fn hop_address(h: Hop) -> Seq<char> {
    match h.addr {
        Some(a) => a@,
        None => "*"@,
    }
}

/// The round-trip time of a hop, given its text; a dash when it has none.
pub open spec fn hop_time(h: Hop, time: Seq<char>) -> Seq<char> {
    if h.rtt is Some {
        time
    } else {
        "-"@
    }
}

/// One row of a hop table.
pub open spec fn hop_row(h: Hop, time: Seq<char>) -> Seq<char> {
    "| "@ + decimal(h.ttl as nat) + " | "@ + hop_address(h) + " | "@ + hop_time(h, time) + " |\n"@
}

/// The first `n` rows of a hop table.
pub open spec fn hop_rows(hops: Seq<Hop>, times: Seq<String>, n: nat) -> Seq<char>
    decreases n,
{
    if n == 0 {
        ""@
    } else {
        hop_rows(hops, times, (n - 1) as nat) + hop_row(hops[n - 1], times[n - 1]@)
    }
}

/// The hops of one outage that started on a date.
pub open spec fn hops_on(
    date: Seq<char>,
    category: AgcomCategory,
    hops: Seq<Hop>,
    times: Seq<String>,
) -> Seq<char> {
    "### Event: "@ + date + " - "@ + category_name(category)
        + "\n\n| TTL | Address | RTT |\n|-----|---------|-----|\n"@ + (if hops.len() == 0 {
        "| - | (no hop data) | - |\n"@
    } else {
        hop_rows(hops, times, hops.len())
    }) + "\n"@
}

/// The hops of one outage.
pub open spec fn event_hops(event: OutageEvent, hops: Seq<Hop>, times: Seq<String>) -> Seq<char> {
    hops_on(date_display(event.started.clock()), event.category, hops, times)
}

/// The hops of the outages among the first `n` records.
pub open spec fn all_hops(records: Seq<Record>, times: Seq<Vec<String>>, n: nat) -> Seq<char>
    decreases n,
{
    if n == 0 {
        ""@
    } else {
        let before = all_hops(records, times, (n - 1) as nat);
        match records[n - 1] {
            Record::Outage { event, hops, .. } => before + event_hops(
                event,
                hops@,
                times[n - 1]@,
            ),
            _ => before,
        }
    }
}

/// Whether some outage among the records has hops.
pub open spec fn any_hops(records: Seq<Record>) -> bool {
    exists|i: int|
        0 <= i < records.len() && (#[trigger] records[i] matches Record::Outage { hops, .. }
            && hops@.len() > 0)
}

/// The appendix with the path of every outage.
pub open spec fn appendix(records: Seq<Record>, f: Figures) -> Seq<char> {
    "## Appendix A - Traceroute Hops\n\n"@ + all_hops(records, f.hop_times@, records.len()) + (
    if any_hops(records) {
        ""@
    } else {
        "*No traceroute data recorded.*\n\n"@
    })
}

/// How a category is written in full.
pub(crate) fn category_name_text(c: &AgcomCategory) -> (res: &'static str)
    ensures
        res@ == category_name(*c),
{
    match c {
        AgcomCategory::CompleteInterruption => "CompleteInterruption",
        AgcomCategory::IrregularService => "IrregularService",
    }
}

/// The address of a hop; a star when it did not answer.
pub(crate) fn hop_address_text(h: &Hop) -> (res: &str)
    ensures
        res@ == hop_address(*h),
{
    match &h.addr {
        Some(a) => a.as_str(),
        None => "*",
    }
}

/// The round-trip time of a hop, given its text; a dash when it has none.
pub(crate) fn hop_time_text<'a>(h: &Hop, time: &'a str) -> (res: &'a str)
    ensures
        res@ == hop_time(*h, time@),
{
    if h.rtt.is_some() {
        time
    } else {
        "-"
    }
}

/// The hops of one outage that started on a date, given the text of each
/// round-trip time.
pub fn hops_text(
    date: &str,
    category: &AgcomCategory,
    hops: &Vec<Hop>,
    times: &Vec<String>,
) -> (res: String)
    requires
        hops@.len() == times@.len(),
    ensures
        res@ == hops_on(date@, *category, hops@, times@),
{
    let mut res = "### Event: ".to_owned();
    res.append(date);
    res.append(" - ");
    res.append(category_name_text(category));
    res.append("\n\n| TTL | Address | RTT |\n|-----|---------|-----|\n");
    if hops.len() == 0 {
        res.append("| - | (no hop data) | - |\n");
    } else {
        let mut rows = "".to_owned();
        let mut i: usize = 0;
        while i < hops.len()
            invariant
                i <= hops@.len(),
                hops@.len() == times@.len(),
                rows@ == hop_rows(hops@, times@, i as nat),
            decreases hops@.len() - i,
        {
            let mut row = "| ".to_owned();
            row.append(decimal_text(hops[i].ttl as u64).as_str());
            row.append(" | ");
            row.append(hop_address_text(&hops[i]));
            row.append(" | ");
            row.append(hop_time_text(&hops[i], times[i].as_str()));
            row.append(" |\n");
            rows.append(row.as_str());
            i += 1;
        }
        res.append(rows.as_str());
    }
    res.append("\n");
    res
}

fn appendix_text(records: &[Record], f: &Figures) -> (res: String)
    requires
        f.hop_times@.len() == records@.len(),
        forall|i: int|
            0 <= i < records@.len() ==> crate::figures::times_fit(
                #[trigger] records@[i],
                f.hop_times@[i]@,
            ),
    ensures
        res@ == appendix(records@, *f),
{
    let mut all = "".to_owned();
    let mut had_hops = false;
    let mut i: usize = 0;
    while i < records.len()
        invariant
            i <= records@.len(),
            f.hop_times@.len() == records@.len(),
            forall|j: int|
                0 <= j < records@.len() ==> crate::figures::times_fit(
                    #[trigger] records@[j],
                    f.hop_times@[j]@,
                ),
            all@ == all_hops(records@, f.hop_times@, i as nat),
            had_hops ==> any_hops(records@),
            !had_hops ==> forall|j: int|
                0 <= j < i ==> !(#[trigger] records@[j] matches Record::Outage { hops, .. }
                    && hops@.len() > 0),
        decreases records@.len() - i,
    {
        assert(crate::figures::times_fit(records@[i as int], f.hop_times@[i as int]@));
        match &records[i] {
            Record::Outage { event, hops, .. } => {
                let date = date_text(&event.started);
                all.append(
                    hops_text(date.as_str(), &event.category, hops, &f.hop_times[i]).as_str(),
                );
                if hops.len() > 0 {
                    had_hops = true;
                }
            },
            _ => {},
        }
        i += 1;
    }
    let mut res = "## Appendix A - Traceroute Hops\n\n".to_owned();
    res.append(all.as_str());
    if had_hops {
        res.append("");
    } else {
        res.append("*No traceroute data recorded.*\n\n");
    }
    res
}

// ---------------------------------------------------------------------------
// The whole document
// ---------------------------------------------------------------------------

/// The document up to its fingerprint.
pub open spec fn body(d: Dossier, records: Seq<Record>, cfg: ReportConfig, f: Figures) -> Seq<char> {
    "# Linewatch Dossier\n\n"@ + summary(d, f) + chart_reference(cfg) + integrity(d, records)
        + event_table(d, f) + indemnity_summary(d, f) + appendix(records, f)
}

/// The SHA-256 digest of a text, in hexadecimal.
pub open spec fn fingerprint(text: Seq<char>) -> Seq<char> {
    hex_text(sha256(encode_utf8(text)))
}

/// The document: its body, and the fingerprint of that body.
pub open spec fn markdown(d: Dossier, records: Seq<Record>, cfg: ReportConfig, f: Figures) -> Seq<
    char,
> {
    body(d, records, cfg, f) + "---\n\n**Document fingerprint:** `"@ + fingerprint(
        body(d, records, cfg, f),
    ) + "`\n"@
}

/// Renders the document up to its fingerprint. The fractional numbers in it are
/// given as texts.
pub fn render_body(
    dossier: &Dossier,
    records: &[Record],
    cfg: &ReportConfig,
    figures: &Figures,
) -> (res: String)
    requires
        figures.fit(*dossier, records@),
    ensures
        res@ == body(*dossier, records@, *cfg, *figures),
{
    let mut md = "# Linewatch Dossier\n\n".to_owned();
    md.append(summary_text(dossier, figures).as_str());
    md.append(chart_reference_text(cfg).as_str());
    md.append(integrity_text(dossier, records).as_str());
    md.append(event_table_text(dossier, figures).as_str());
    md.append(indemnity_summary_text(dossier, figures).as_str());
    md.append(appendix_text(records, figures).as_str());
    md
}

/// Adds a fingerprint to a document.
pub fn with_fingerprint(text: String, hash: &str) -> (res: String)
    ensures
        res@ == text@ + "---\n\n**Document fingerprint:** `"@ + hash@ + "`\n"@,
{
    let mut md = text;
    md.append("---\n\n**Document fingerprint:** `");
    md.append(hash);
    md.append("`\n");
    md
}

/// Renders a dossier. The fractional numbers in it are given as texts.
pub fn render_markdown(
    dossier: &Dossier,
    records: &[Record],
    cfg: &ReportConfig,
    figures: &Figures,
) -> (res: String)
    requires
        figures.fit(*dossier, records@),
    ensures
        res@ == markdown(*dossier, records@, *cfg, *figures),
{
    let md = render_body(dossier, records, cfg, figures);
    let mut bytes: Vec<u8> = Vec::new();
    append_utf8(&mut bytes, md.as_str());
    assert(bytes@ == encode_utf8(md@));
    let hash = sha256_hex(&bytes);
    with_fingerprint(md, hash.as_str())
}

/// A broken chain is reported as broken, at the line where it breaks.
pub proof fn law_broken_chain_is_reported(d: Dossier, records: Seq<Record>, seq: u64)
    requires
        !d.chain_status.intact,
        d.chain_status.break_at == Some(seq),
    ensures
        ("## Chain Integrity\n\n"@ + ("- **Status:** BROKEN at seq "@ + decimal(seq as nat)
            + "\n"@)).is_prefix_of(integrity(d, records)),
{
}

// ---------------------------------------------------------------------------
// Laws
// ---------------------------------------------------------------------------

/// The cells of a row of a table, each between two bars.
pub open spec fn barred(cells: Seq<Seq<char>>) -> Seq<char>
    decreases cells.len(),
{
    if cells.len() == 0 {
        "|"@
    } else {
        barred(cells.drop_last()) + " "@ + cells.last() + " |"@
    }
}

proof fn lemma_barred(cells: Seq<Seq<char>>, cell: Seq<char>)
    ensures
        barred(cells.push(cell)) == barred(cells) + " "@ + cell + " |"@,
{
    assert(cells.push(cell).drop_last() == cells);
}

proof fn lemma_first_cell(cell: Seq<char>)
    ensures
        barred(seq![cell]) == "| "@ + cell + " |"@,
{
    lemma_barred(Seq::empty(), cell);
    assert("| "@ == "|"@ + " "@) by {
        reveal_strlit("| ");
        reveal_strlit("|");
        reveal_strlit(" ");
    }
}

proof fn lemma_next_cell(cells: Seq<Seq<char>>, text: Seq<char>, cell: Seq<char>)
    requires
        barred(cells) == text + " |"@,
    ensures
        barred(cells.push(cell)) == text + " | "@ + cell + " |"@,
{
    lemma_barred(cells, cell);
    assert(" | "@ == " |"@ + " "@) by {
        reveal_strlit(" | ");
        reveal_strlit(" |");
        reveal_strlit(" ");
    }
    assert(text + (" |"@ + " "@) == text + " |"@ + " "@);
}

proof fn lemma_empty_cell(cells: Seq<Seq<char>>, text: Seq<char>, cell: Seq<char>)
    requires
        barred(cells) == text + " |"@,
    ensures
        barred(cells.push(""@).push(cell)) == text + " |  | "@ + cell + " |"@,
{
    lemma_next_cell(cells, text, ""@);
    lemma_next_cell(cells.push(""@), text + " | "@ + ""@, cell);
    assert(" |  | "@ == " | "@ + ""@ + " | "@) by {
        reveal_strlit(" |  | ");
        reveal_strlit(" | ");
        reveal_strlit("");
    }
    assert(text + (" | "@ + ""@ + " | "@) == text + " | "@ + ""@ + " | "@);
}

proof fn lemma_last_cell(cells: Seq<Seq<char>>, text: Seq<char>, code: Seq<char>)
    requires
        barred(cells) == text + " |"@,
    ensures
        barred(cells.push("`"@ + code + "`"@)) + "\n"@ == text + " | `"@ + code + "` |\n"@,
{
    lemma_next_cell(cells, text, "`"@ + code + "`"@);
    assert(" | `"@ == " | "@ + "`"@) by {
        reveal_strlit(" | `");
        reveal_strlit(" | ");
        reveal_strlit("`");
    }
    assert("` |\n"@ == "`"@ + " |"@ + "\n"@) by {
        reveal_strlit("` |\n");
        reveal_strlit(" |");
        reveal_strlit("`");
        reveal_strlit("\n");
    }
    assert(text + " | "@ + ("`"@ + code + "`"@) == text + (" | "@ + "`"@) + code + "`"@);
    assert(text + (" | "@ + "`"@) + code + "`"@ + " |"@ + "\n"@ == text + (" | "@ + "`"@) + code + (
    "`"@ + " |"@ + "\n"@));
}

/// A row of the event table has its number, the start, the end and the duration
/// of its outage, the category, an empty cell, and the indemnity with the formula
/// that explains it.
pub proof fn law_event_row_cells(n: nat, line: IndemnityLine, f: LineFigures)
    ensures
        event_row(n, line, f) == barred(
            seq![
                decimal(n),
                line.event_start@,
                line.event_end@,
                f.hours@,
                line.category@,
                ""@,
                f.indemnity@,
                "`"@ + formula(line, f) + "`"@,
            ],
        ) + "\n"@,
{
    let c0 = seq![decimal(n)];
    let t0 = "| "@ + decimal(n);
    lemma_first_cell(decimal(n));
    let c1 = c0.push(line.event_start@);
    let t1 = t0 + " | "@ + line.event_start@;
    lemma_next_cell(c0, t0, line.event_start@);
    let c2 = c1.push(line.event_end@);
    let t2 = t1 + " | "@ + line.event_end@;
    lemma_next_cell(c1, t1, line.event_end@);
    let c3 = c2.push(f.hours@);
    let t3 = t2 + " | "@ + f.hours@;
    lemma_next_cell(c2, t2, f.hours@);
    let c4 = c3.push(line.category@);
    let t4 = t3 + " | "@ + line.category@;
    lemma_next_cell(c3, t3, line.category@);
    let t6 = t4 + " |  | "@ + f.indemnity@;
    lemma_empty_cell(c4, t4, f.indemnity@);
    let c6 = c4.push(""@).push(f.indemnity@);
    lemma_last_cell(c6, t6, formula(line, f));
    let c7 = c6.push("`"@ + formula(line, f) + "`"@);
    assert(event_row(n, line, f) == barred(c7) + "\n"@);
    assert(c7 == seq![
        decimal(n),
        line.event_start@,
        line.event_end@,
        f.hours@,
        line.category@,
        ""@,
        f.indemnity@,
        "`"@ + formula(line, f) + "`"@,
    ]);
}

/// The event table has one row for each line, in order, and the row of a line is
/// made of that line and of the figures of that same line.
pub proof fn law_event_rows(lines: Seq<IndemnityLine>, f: Seq<LineFigures>, n: nat)
    requires
        n <= lines.len(),
        n <= f.len(),
    ensures
        event_rows(lines, f, n) == Seq::new(
            n,
            |k: int|
                barred(
                    seq![
                        decimal((k + 1) as nat),
                        lines[k].event_start@,
                        lines[k].event_end@,
                        f[k].hours@,
                        lines[k].category@,
                        ""@,
                        f[k].indemnity@,
                        "`"@ + formula(lines[k], f[k]) + "`"@,
                    ],
                ) + "\n"@,
        ).flatten(),
    decreases n,
{
    reveal_strlit("");
    let row = |k: int|
        barred(
            seq![
                decimal((k + 1) as nat),
                lines[k].event_start@,
                lines[k].event_end@,
                f[k].hours@,
                lines[k].category@,
                ""@,
                f[k].indemnity@,
                "`"@ + formula(lines[k], f[k]) + "`"@,
            ],
        ) + "\n"@;
    if n > 0 {
        let m = (n - 1) as nat;
        law_event_rows(lines, f, m);
        law_event_row_cells(n, lines[n - 1], f[n - 1]);
        let before = Seq::new(m, row);
        before.lemma_flatten_push(row(n - 1));
        assert(Seq::new(n, row) == before.push(row(n - 1)));
    } else {
        assert(Seq::new(n, row) == Seq::<Seq<char>>::empty());
        assert(event_rows(lines, f, n) == Seq::<char>::empty());
    }
}

/// The event table is its heading, followed by the rows of all lines, or by a
/// placeholder when there are none.
pub proof fn law_event_table(d: Dossier, f: Figures)
    requires
        f.lines@.len() == d.per_event_indemnities@.len(),
    ensures
        ({
            let heading = "## Chronological Events\n\n"@
                + "| # | Start | End | Duration (h) | Category | Worst Status | Indemnity | Formula |\n"@
                + "|---|-------|-----|-------------|----------|-------------|----------|---------|\n"@;
            let lines = d.per_event_indemnities@;
            &&& lines.len() > 0 ==> event_table(d, f) == heading + event_rows(
                lines,
                f.lines@,
                lines.len(),
            ) + "\n"@
            &&& lines.len() == 0 ==> event_table(d, f) == heading
                + "| - | - | - | - | - | - | 0.00 | - |\n\n"@
        }),
{
    assert("## Chronological Events\n\n| # | Start | End | Duration (h) | Category | Worst Status | Indemnity | Formula |\n|---|-------|-----|-------------|----------|-------------|----------|---------|\n"@
        == "## Chronological Events\n\n"@
        + "| # | Start | End | Duration (h) | Category | Worst Status | Indemnity | Formula |\n"@
        + "|---|-------|-----|-------------|----------|-------------|----------|---------|\n"@) by {
        reveal_strlit(
            "## Chronological Events\n\n| # | Start | End | Duration (h) | Category | Worst Status | Indemnity | Formula |\n|---|-------|-----|-------------|----------|-------------|----------|---------|\n",
        );
        reveal_strlit("## Chronological Events\n\n");
        reveal_strlit(
            "| # | Start | End | Duration (h) | Category | Worst Status | Indemnity | Formula |\n",
        );
        reveal_strlit(
            "|---|-------|-----|-------------|----------|-------------|----------|---------|\n",
        );
    }
    if d.per_event_indemnities@.len() == 0 {
        reveal_strlit("");
        assert(event_rows(d.per_event_indemnities@, f.lines@, 0) == Seq::<char>::empty());
    }
}

/// The figures of one line stand in the row of that line alone: when they change,
/// the rows before and after it stay as they are.
pub proof fn law_figures_stand_in_their_row(
    lines: Seq<IndemnityLine>,
    f: Seq<LineFigures>,
    k: int,
    other: LineFigures,
)
    requires
        0 <= k < lines.len(),
        f.len() == lines.len(),
    ensures
        exists|after: Seq<char>|
            event_rows(lines, f, lines.len()) == #[trigger] (event_rows(lines, f, k as nat)
                + event_row((k + 1) as nat, lines[k], f[k]) + after) && event_rows(
                lines,
                f.update(k, other),
                lines.len(),
            ) == event_rows(lines, f, k as nat) + event_row((k + 1) as nat, lines[k], other)
                + after,
{
    let g = f.update(k, other);
    lemma_rows_before(lines, f, g, k as nat);
    let after = lemma_rows_after(lines, f, g, k, lines.len());
    assert(event_rows(lines, f, lines.len()) == event_rows(lines, f, k as nat) + event_row(
        (k + 1) as nat,
        lines[k],
        f[k],
    ) + after);
}

proof fn lemma_rows_before(
    lines: Seq<IndemnityLine>,
    f: Seq<LineFigures>,
    g: Seq<LineFigures>,
    n: nat,
)
    requires
        forall|i: int| 0 <= i < n ==> f[i] == g[i],
    ensures
        event_rows(lines, f, n) == event_rows(lines, g, n),
    decreases n,
{
    if n > 0 {
        lemma_rows_before(lines, f, g, (n - 1) as nat);
    }
}

proof fn lemma_rows_after(
    lines: Seq<IndemnityLine>,
    f: Seq<LineFigures>,
    g: Seq<LineFigures>,
    k: int,
    n: nat,
) -> (after: Seq<char>)
    requires
        0 <= k < n,
        forall|i: int| k < i < n ==> f[i] == g[i],
    ensures
        event_rows(lines, f, n) == event_rows(lines, f, (k + 1) as nat) + after,
        event_rows(lines, g, n) == event_rows(lines, g, (k + 1) as nat) + after,
    decreases n,
{
    if n == k + 1 {
        let after = Seq::<char>::empty();
        assert(event_rows(lines, f, n) == event_rows(lines, f, n) + after);
        assert(event_rows(lines, g, n) == event_rows(lines, g, n) + after);
        after
    } else {
        let before = lemma_rows_after(lines, f, g, k, (n - 1) as nat);
        let row = event_row(n, lines[n - 1], f[n - 1]);
        let after = before + row;
        assert(event_rows(lines, f, (k + 1) as nat) + before + row == event_rows(
            lines,
            f,
            (k + 1) as nat,
        ) + after);
        assert(event_rows(lines, g, (k + 1) as nat) + before + row == event_rows(
            lines,
            g,
            (k + 1) as nat,
        ) + after);
        after
    }
}

/// The executive summary has a line for each figure of the dossier: the days
/// observed, the number of outages, the total downtime, the downtime of each
/// quarter of the day under its hours, and the sentence on the temperature.
pub proof fn law_summary_lines(d: Dossier, f: Figures)
    ensures
        summary(d, f) == seq![
            "## Executive Summary\n\n"@,
            "- **Days observed:** "@ + f.days_observed@ + "\n"@,
            "- **Outage count:** "@ + decimal(d.outage_count as nat) + "\n"@,
            "- **Total downtime:** "@ + f.downtime_hours@ + " hours ("@ + f.downtime_days@
                + " days)\n- **Downtime by time-of-day band:**\n"@,
            "  - *00:00-06:00:* "@ + f.band_hours@[0]@ + " h\n"@,
            "  - *06:00-12:00:* "@ + f.band_hours@[1]@ + " h\n"@,
            "  - *12:00-18:00:* "@ + f.band_hours@[2]@ + " h\n"@,
            "  - *18:00-24:00:* "@ + f.band_hours@[3]@ + " h\n"@,
            temp_sentence(f),
            "\n"@,
        ].flatten(),
{
    let e = Seq::<Seq<char>>::empty();
    let nl = "\n"@;
    let d0 = e.push("## Executive Summary\n\n"@);
    e.lemma_flatten_push("## Executive Summary\n\n"@);
    let o0 = "- **Days observed:** "@;
    let t0 = "## Executive Summary\n\n- **Days observed:** "@;
    assert(t0 == "## Executive Summary\n\n"@ + o0) by {
        reveal_strlit("## Executive Summary\n\n- **Days observed:** ");
        reveal_strlit("## Executive Summary\n\n");
        reveal_strlit("- **Days observed:** ");
    }
    assert(d0.flatten() == "## Executive Summary\n\n"@);
    let o1 = "- **Outage count:** "@;
    assert("\n- **Outage count:** "@ == nl + o1) by {
        reveal_strlit("\n- **Outage count:** ");
        reveal_strlit("\n");
        reveal_strlit("- **Outage count:** ");
    }
    lemma_line_ends(d0, t0, o0, f.days_observed@, "\n- **Outage count:** "@, nl, o1);
    let d1 = d0.push(o0 + f.days_observed@ + nl);
    let t1 = t0 + f.days_observed@ + "\n- **Outage count:** "@;
    let o2 = "- **Total downtime:** "@;
    assert("\n- **Total downtime:** "@ == nl + o2) by {
        reveal_strlit("\n- **Total downtime:** ");
        reveal_strlit("\n");
        reveal_strlit("- **Total downtime:** ");
    }
    let count = decimal(d.outage_count as nat);
    lemma_line_ends(d1, t1, o1, count, "\n- **Total downtime:** "@, nl, o2);
    let d2 = d1.push(o1 + count + nl);
    let t2 = t1 + count + "\n- **Total downtime:** "@;
    lemma_line_goes_on(d2, t2, o2, f.downtime_hours@, " hours ("@);
    let t3 = t2 + f.downtime_hours@ + " hours ("@;
    let o3 = o2 + f.downtime_hours@ + " hours ("@;
    let mid = " days)\n- **Downtime by time-of-day band:**\n  - *00:00-06:00:* "@;
    let end = " days)\n- **Downtime by time-of-day band:**\n"@;
    let o4 = "  - *00:00-06:00:* "@;
    assert(mid == end + o4) by {
        reveal_strlit(" days)\n- **Downtime by time-of-day band:**\n  - *00:00-06:00:* ");
        reveal_strlit(" days)\n- **Downtime by time-of-day band:**\n");
        reveal_strlit("  - *00:00-06:00:* ");
    }
    lemma_line_ends(d2, t3, o3, f.downtime_days@, mid, end, o4);
    let d4 = d2.push(o3 + f.downtime_days@ + end);
    let t4 = t3 + f.downtime_days@ + mid;
    let h = " h\n"@;
    let o5 = "  - *06:00-12:00:* "@;
    let o6 = "  - *12:00-18:00:* "@;
    let o7 = "  - *18:00-24:00:* "@;
    let none = Seq::<char>::empty();
    assert(" h\n  - *06:00-12:00:* "@ == h + o5) by {
        reveal_strlit(" h\n  - *06:00-12:00:* ");
        reveal_strlit(" h\n");
        reveal_strlit("  - *06:00-12:00:* ");
    }
    assert(" h\n  - *12:00-18:00:* "@ == h + o6) by {
        reveal_strlit(" h\n  - *12:00-18:00:* ");
        reveal_strlit(" h\n");
        reveal_strlit("  - *12:00-18:00:* ");
    }
    assert(" h\n  - *18:00-24:00:* "@ == h + o7) by {
        reveal_strlit(" h\n  - *18:00-24:00:* ");
        reveal_strlit(" h\n");
        reveal_strlit("  - *18:00-24:00:* ");
    }
    assert(h == h + none);
    lemma_line_ends(d4, t4, o4, f.band_hours@[0]@, " h\n  - *06:00-12:00:* "@, h, o5);
    let d5 = d4.push(o4 + f.band_hours@[0]@ + h);
    let t5 = t4 + f.band_hours@[0]@ + " h\n  - *06:00-12:00:* "@;
    lemma_line_ends(d5, t5, o5, f.band_hours@[1]@, " h\n  - *12:00-18:00:* "@, h, o6);
    let d6 = d5.push(o5 + f.band_hours@[1]@ + h);
    let t6 = t5 + f.band_hours@[1]@ + " h\n  - *12:00-18:00:* "@;
    lemma_line_ends(d6, t6, o6, f.band_hours@[2]@, " h\n  - *18:00-24:00:* "@, h, o7);
    let d7 = d6.push(o6 + f.band_hours@[2]@ + h);
    let t7 = t6 + f.band_hours@[2]@ + " h\n  - *18:00-24:00:* "@;
    lemma_line_ends(d7, t7, o7, f.band_hours@[3]@, h, h, none);
    let d8 = d7.push(o7 + f.band_hours@[3]@ + h);
    let t8 = t7 + f.band_hours@[3]@ + h;
    assert(t8 == d8.flatten());
    d8.lemma_flatten_push(temp_sentence(f));
    let d9 = d8.push(temp_sentence(f));
    d9.lemma_flatten_push(nl);
    assert(summary(d, f) == d9.push(nl).flatten());
    assert(d9.push(nl) == seq![
        "## Executive Summary\n\n"@,
        o0 + f.days_observed@ + nl,
        o1 + count + nl,
        o3 + f.downtime_days@ + end,
        o4 + f.band_hours@[0]@ + h,
        o5 + f.band_hours@[1]@ + h,
        o6 + f.band_hours@[2]@ + h,
        o7 + f.band_hours@[3]@ + h,
        temp_sentence(f),
        nl,
    ]);
}

/// The sentence on the temperature gives the hot hours of the hours in the window,
/// and their share; there is none without a correlation.
pub proof fn law_temp_sentence(f: Figures)
    ensures
        f.temp is None ==> temp_sentence(f).len() == 0,
        f.temp matches Some(t) ==> temp_sentence(f) == seq![
            "- **Temperature correlation:** "@,
            t.hot_hours@,
            " of "@,
            t.window_hours@,
            " downtime hours occurred within the daytime window; **"@,
            t.percent@,
            "%** of that window downtime was above the temperature threshold.\n"@,
        ].flatten(),
{
    reveal_strlit("");
    if let Some(t) = f.temp {
        let e = Seq::<Seq<char>>::empty();
        let a = e.push("- **Temperature correlation:** "@);
        let b = a.push(t.hot_hours@);
        let c = b.push(" of "@);
        let g = c.push(t.window_hours@);
        let h = g.push(" downtime hours occurred within the daytime window; **"@);
        let i = h.push(t.percent@);
        let j = i.push("%** of that window downtime was above the temperature threshold.\n"@);
        e.lemma_flatten_push("- **Temperature correlation:** "@);
        a.lemma_flatten_push(t.hot_hours@);
        b.lemma_flatten_push(" of "@);
        c.lemma_flatten_push(t.window_hours@);
        g.lemma_flatten_push(" downtime hours occurred within the daytime window; **"@);
        h.lemma_flatten_push(t.percent@);
        i.lemma_flatten_push(
            "%** of that window downtime was above the temperature threshold.\n"@,
        );
        assert(a.flatten() == "- **Temperature correlation:** "@);
        assert(j == seq![
            "- **Temperature correlation:** "@,
            t.hot_hours@,
            " of "@,
            t.window_hours@,
            " downtime hours occurred within the daytime window; **"@,
            t.percent@,
            "%** of that window downtime was above the temperature threshold.\n"@,
        ]);
    }
}

/// The range of the records goes from the sequence number of the first record to
/// that of the last, whose hash is the head of the chain; without records there
/// is none.
pub proof fn law_record_range_lines(records: Seq<Record>)
    ensures
        records.len() == 0 ==> record_range(records).len() == 0,
        records.len() > 0 ==> record_range(records) == seq![
            "- **Record range:** seq "@ + decimal(records[0].chain().seq as nat) + " - "@ + decimal(
                records[records.len() - 1].chain().seq as nat,
            ) + "\n"@,
            "- **Head hash:** `"@ + records[records.len() - 1].chain().hash@ + "`\n"@,
        ].flatten(),
{
    reveal_strlit("");
    if records.len() > 0 {
        let e = Seq::<Seq<char>>::empty();
        let none = Seq::<char>::empty();
        let first = decimal(records[0].chain().seq as nat);
        let last = decimal(records.last().chain().seq as nat);
        let hash = records.last().chain().hash@;
        let t0 = "- **Record range:** seq "@;
        assert(t0 == e.flatten() + t0);
        lemma_line_goes_on(e, t0, t0, first, " - "@);
        let o1 = t0 + first + " - "@;
        let lit = "\n- **Head hash:** `"@;
        assert(lit == "\n"@ + "- **Head hash:** `"@) by {
            reveal_strlit("\n- **Head hash:** `");
            reveal_strlit("\n");
            reveal_strlit("- **Head hash:** `");
        }
        lemma_line_ends(e, o1, o1, last, lit, "\n"@, "- **Head hash:** `"@);
        let d1 = e.push(o1 + last + "\n"@);
        let t2 = o1 + last + lit;
        assert("`\n"@ == "`\n"@ + none);
        lemma_line_ends(d1, t2, "- **Head hash:** `"@, hash, "`\n"@, "`\n"@, none);
        let d2 = d1.push("- **Head hash:** `"@ + hash + "`\n"@);
        assert(record_range(records) == d2.flatten());
        assert(d2 == seq![o1 + last + "\n"@, "- **Head hash:** `"@ + hash + "`\n"@]);
    }
}

/// An intact chain is reported as intact, and a broken one as broken at the
/// sequence number at which it breaks.
pub proof fn law_status_line(d: Dossier)
    ensures
        d.chain_status.intact ==> status_line(d) == "- **Status:** OK - Intact\n"@,
        !d.chain_status.intact && d.chain_status.break_at is Some ==> status_line(d)
            == "- **Status:** BROKEN at seq "@ + decimal(d.chain_status.break_at->0 as nat)
            + "\n"@,
{
}

/// The summary of indemnities gives the total, and the repair window and the rate
/// of the first line when there is one.
pub proof fn law_indemnity_summary_lines(d: Dossier, f: Figures)
    requires
        f.lines@.len() == d.per_event_indemnities@.len(),
    ensures
        d.per_event_indemnities@.len() == 0 ==> indemnity_summary(d, f) == seq![
            "## Indemnity Summary\n\n| Metric | Value |\n|--------|-------|\n"@,
            "| Total estimated indemnity | **"@ + f.total_indemnity@ + "** |\n"@,
            "\n"@,
        ].flatten(),
        d.per_event_indemnities@.len() > 0 ==> indemnity_summary(d, f) == seq![
            "## Indemnity Summary\n\n| Metric | Value |\n|--------|-------|\n"@,
            "| Total estimated indemnity | **"@ + f.total_indemnity@ + "** |\n"@,
            "| Repair window | "@ + decimal(d.per_event_indemnities@[0].repair_window_days as nat)
                + " day(s) |\n"@,
            "| Tariff (complete / irregular) | "@ + f.lines@[0].rate@ + " / "@ + f.lines@[0].rate@
                + " per day |\n"@,
            "\n"@,
        ].flatten(),
{
    reveal_strlit("");
    let e = Seq::<Seq<char>>::empty();
    let none = Seq::<char>::empty();
    let head = "## Indemnity Summary\n\n| Metric | Value |\n|--------|-------|\n"@;
    let o0 = "| Total estimated indemnity | **"@;
    let t0 =
        "## Indemnity Summary\n\n| Metric | Value |\n|--------|-------|\n| Total estimated indemnity | **"@;
    assert(t0 == head + o0) by {
        reveal_strlit(
            "## Indemnity Summary\n\n| Metric | Value |\n|--------|-------|\n| Total estimated indemnity | **",
        );
        reveal_strlit("## Indemnity Summary\n\n| Metric | Value |\n|--------|-------|\n");
        reveal_strlit("| Total estimated indemnity | **");
    }
    let d0 = e.push(head);
    e.lemma_flatten_push(head);
    assert(d0.flatten() == head);
    assert("** |\n"@ == "** |\n"@ + none);
    lemma_line_ends(d0, t0, o0, f.total_indemnity@, "** |\n"@, "** |\n"@, none);
    let l1 = o0 + f.total_indemnity@ + "** |\n"@;
    let d1 = d0.push(l1);
    let t1 = t0 + f.total_indemnity@ + "** |\n"@;
    assert(t1 == d1.flatten());
    if d.per_event_indemnities@.len() == 0 {
        d1.lemma_flatten_push("\n"@);
        assert(t1 + terms(d, f) == t1);
        assert(d1.push("\n"@) == seq![head, l1, "\n"@]);
    } else {
        let days = decimal(d.per_event_indemnities@[0].repair_window_days as nat);
        let rate = f.lines@[0].rate@;
        let o2 = "| Repair window | "@;
        let o3 = "| Tariff (complete / irregular) | "@;
        let lit = " day(s) |\n| Tariff (complete / irregular) | "@;
        assert(lit == " day(s) |\n"@ + o3) by {
            reveal_strlit(" day(s) |\n| Tariff (complete / irregular) | ");
            reveal_strlit(" day(s) |\n");
            reveal_strlit("| Tariff (complete / irregular) | ");
        }
        assert(e.flatten() + o2 == o2);
        lemma_line_ends(e, o2, o2, days, lit, " day(s) |\n"@, o3);
        let l2 = o2 + days + " day(s) |\n"@;
        let t2 = o2 + days + lit;
        lemma_line_goes_on(e.push(l2), t2, o3, rate, " / "@);
        let o4 = o3 + rate + " / "@;
        let t3 = t2 + rate + " / "@;
        assert(" per day |\n"@ == " per day |\n"@ + none);
        lemma_line_ends(e.push(l2), t3, o4, rate, " per day |\n"@, " per day |\n"@, none);
        let l3 = o4 + rate + " per day |\n"@;
        let two = e.push(l2).push(l3);
        assert(terms(d, f) == two.flatten());
        d1.lemma_flatten_push(l2);
        d1.push(l2).lemma_flatten_push(l3);
        e.lemma_flatten_push(l2);
        e.push(l2).lemma_flatten_push(l3);
        assert(e.push(l2).flatten() == l2);
        assert(t1 + (l2 + l3) == t1 + l2 + l3);
        let d3 = d1.push(l2).push(l3);
        assert(t1 + terms(d, f) == d3.flatten());
        d3.lemma_flatten_push("\n"@);
        assert(d3.push("\n"@) == seq![head, l1, l2, l3, "\n"@]);
    }
}

/// A row of a hop table has the hop's distance, its address or a star, and its
/// time or a dash.
pub proof fn law_hop_row_cells(h: Hop, time: Seq<char>)
    ensures
        hop_row(h, time) == barred(
            seq![
                decimal(h.ttl as nat),
                if h.addr is Some {
                    h.addr->0@
                } else {
                    "*"@
                },
                if h.rtt is Some {
                    time
                } else {
                    "-"@
                },
            ],
        ) + "\n"@,
{
    let ttl = decimal(h.ttl as nat);
    let addr = if h.addr is Some {
        h.addr->0@
    } else {
        "*"@
    };
    let rtt = if h.rtt is Some {
        time
    } else {
        "-"@
    };
    let c0 = seq![ttl];
    let t0 = "| "@ + ttl;
    lemma_first_cell(ttl);
    let t1 = t0 + " | "@ + addr;
    lemma_next_cell(c0, t0, addr);
    let t2 = t1 + " | "@ + rtt;
    lemma_next_cell(c0.push(addr), t1, rtt);
    assert(" |\n"@ == " |"@ + "\n"@) by {
        reveal_strlit(" |\n");
        reveal_strlit(" |");
        reveal_strlit("\n");
    }
    assert(t2 + (" |"@ + "\n"@) == t2 + " |"@ + "\n"@);
    assert(c0.push(addr).push(rtt) == seq![ttl, addr, rtt]);
}

/// The hop table has one row for each hop, in order, and the row of a hop is made
/// of that hop and of its own time.
pub proof fn law_hop_rows(hops: Seq<Hop>, times: Seq<String>, n: nat)
    ensures
        hop_rows(hops, times, n) == Seq::new(
            n,
            |k: int|
                barred(
                    seq![
                        decimal(hops[k].ttl as nat),
                        if hops[k].addr is Some {
                            hops[k].addr->0@
                        } else {
                            "*"@
                        },
                        if hops[k].rtt is Some {
                            times[k]@
                        } else {
                            "-"@
                        },
                    ],
                ) + "\n"@,
        ).flatten(),
    decreases n,
{
    let row = |k: int|
        barred(
            seq![
                decimal(hops[k].ttl as nat),
                if hops[k].addr is Some {
                    hops[k].addr->0@
                } else {
                    "*"@
                },
                if hops[k].rtt is Some {
                    times[k]@
                } else {
                    "-"@
                },
            ],
        ) + "\n"@;
    if n > 0 {
        let m = (n - 1) as nat;
        law_hop_rows(hops, times, m);
        law_hop_row_cells(hops[n - 1], times[n - 1]@);
        let before = Seq::new(m, row);
        before.lemma_flatten_push(row(n - 1));
        assert(Seq::new(n, row) == before.push(row(n - 1)));
    } else {
        reveal_strlit("");
        assert(Seq::new(n, row) == Seq::<Seq<char>>::empty());
        assert(hop_rows(hops, times, n) == Seq::<char>::empty());
    }
}

/// The appendix has one section for each outage among the records, in order, with
/// the date on which it started, its category and all of its hops; other records
/// have none.
pub proof fn law_appendix_sections(records: Seq<Record>, times: Seq<Vec<String>>, n: nat)
    ensures
        all_hops(records, times, n) == Seq::new(
            n,
            |k: int|
                match records[k] {
                    Record::Outage { event, hops, .. } => "### Event: "@ + date_display(
                        event.started.clock(),
                    ) + " - "@ + (if event.category == AgcomCategory::CompleteInterruption {
                        "CompleteInterruption"@
                    } else {
                        "IrregularService"@
                    }) + "\n\n| TTL | Address | RTT |\n|-----|---------|-----|\n"@ + (
                    if hops@.len() == 0 {
                        "| - | (no hop data) | - |\n"@
                    } else {
                        hop_rows(hops@, times[k]@, hops@.len())
                    }) + "\n"@,
                    _ => Seq::<char>::empty(),
                },
        ).flatten(),
    decreases n,
{
    let part = |k: int|
        match records[k] {
            Record::Outage { event, hops, .. } => "### Event: "@ + date_display(
                event.started.clock(),
            ) + " - "@ + (if event.category == AgcomCategory::CompleteInterruption {
                "CompleteInterruption"@
            } else {
                "IrregularService"@
            }) + "\n\n| TTL | Address | RTT |\n|-----|---------|-----|\n"@ + (if hops@.len() == 0 {
                "| - | (no hop data) | - |\n"@
            } else {
                hop_rows(hops@, times[k]@, hops@.len())
            }) + "\n"@,
            _ => Seq::<char>::empty(),
        };
    if n > 0 {
        let m = (n - 1) as nat;
        law_appendix_sections(records, times, m);
        let before = Seq::new(m, part);
        before.lemma_flatten_push(part(n - 1));
        assert(Seq::new(n, part) == before.push(part(n - 1)));
        assert(all_hops(records, times, m) + Seq::<char>::empty() == all_hops(records, times, m));
        assert(all_hops(records, times, n) == all_hops(records, times, m) + part(n - 1));
    } else {
        reveal_strlit("");
        assert(Seq::new(n, part) == Seq::<Seq<char>>::empty());
        assert(all_hops(records, times, n) == Seq::<char>::empty());
    }
}

/// The document has all sections, in order, and ends with the SHA-256 digest of
/// everything before it.
pub proof fn law_document_sections(
    d: Dossier,
    records: Seq<Record>,
    cfg: ReportConfig,
    f: Figures,
)
    ensures
        ({
            let before = "# Linewatch Dossier\n\n"@ + summary(d, f) + (match cfg.chart_path {
                Some(path) => "![Temperature & Outage Timeline]("@ + path@ + ")\n\n"@,
                None => Seq::<char>::empty(),
            }) + ("## Chain Integrity\n\n"@ + status_line(d) + record_range(records)
                + "- **Re-verify command:** `cargo run -- report` (or independently validate the hash chain)\n\n"@)
                + event_table(d, f) + indemnity_summary(d, f) + (
            "## Appendix A - Traceroute Hops\n\n"@ + all_hops(records, f.hop_times@, records.len())
                + (if exists|i: int|
                0 <= i < records.len() && (#[trigger] records[i] matches Record::Outage {
                    hops,
                    ..
                } && hops@.len() > 0) {
                Seq::<char>::empty()
            } else {
                "*No traceroute data recorded.*\n\n"@
            }));
            markdown(d, records, cfg, f) == before + "---\n\n**Document fingerprint:** `"@
                + hex_text(sha256(encode_utf8(before))) + "`\n"@
        }),
{
    reveal_strlit("");
    assert(""@ == Seq::<char>::empty());
}

} // verus!
