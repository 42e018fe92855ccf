//! The dossier as a sequence of blocks for a paginated document.
use crate::chain::{get_hash, get_seq, Record};
use crate::dossier::{Dossier, IndemnityLine};
use crate::events::{AgcomCategory, OutageEvent};
use crate::figures::{times_fit, Figures, LineFigures};
use crate::render_md::{
    category_name, category_name_text, hop_address, hop_address_text, hop_time, hop_time_text,
};
use crate::text::{decimal, decimal_text, lemma_line_ends, lemma_line_goes_on};
use crate::timestamp::{date_display, date_text};
use crate::trace::Hop;
use vstd::prelude::*;

verus! {

/// A part of the document.
#[derive(Clone, Debug)]
pub enum Block {
    /// A bold line in a font size.
    Heading(String, u8),
    /// A paragraph.
    Text(String),
    /// Empty space, in tenths of a line.
    Gap(u8),
    /// The image at a path.
    Picture(String),
    /// A framed table: the relative widths of its columns, and its rows.
    Table(Vec<usize>, Vec<Vec<String>>),
}

/// The contents of a block.
pub enum BlockView {
    Heading(Seq<char>, u8),
    Text(Seq<char>),
    Gap(u8),
    Picture(Seq<char>),
    Table(Seq<usize>, Seq<Seq<Seq<char>>>),
}

/// The texts of one row.
pub open spec fn row_view(row: Seq<String>) -> Seq<Seq<char>> {
    Seq::new(row.len(), |i: int| row[i]@)
}

/// The texts of all rows.
pub open spec fn rows_view(rows: Seq<Vec<String>>) -> Seq<Seq<Seq<char>>> {
    Seq::new(rows.len(), |i: int| row_view(rows[i]@))
}

impl Block {
    /// The contents of the block.
    pub open spec fn view(&self) -> BlockView {
        match self {
            Block::Heading(s, size) => BlockView::Heading(s@, *size),
            Block::Text(s) => BlockView::Text(s@),
            Block::Gap(n) => BlockView::Gap(*n),
            Block::Picture(s) => BlockView::Picture(s@),
            Block::Table(widths, rows) => BlockView::Table(widths@, rows_view(rows@)),
        }
    }
}

/// The contents of a list of blocks.
pub open spec fn blocks_view(v: Seq<Block>) -> Seq<BlockView> {
    Seq::new(v.len(), |i: int| v[i]@)
}

fn add_block(v: &mut Vec<Block>, b: Block)
    ensures
        blocks_view(final(v)@) == blocks_view(old(v)@).push(b@),
{
    v.push(b);
    assert(blocks_view(v@) == blocks_view(old(v)@).push(b@));
}

fn heading(s: &str, size: u8) -> (res: Block)
    ensures
        res@ == BlockView::Heading(s@, size),
{
    Block::Heading(s.to_owned(), size)
}

fn paragraph(s: &str) -> (res: Block)
    ensures
        res@ == BlockView::Text(s@),
{
    Block::Text(s.to_owned())
}

/// The start of a section: its heading and some space.
pub open spec fn section(before: Seq<BlockView>, title: Seq<char>) -> Seq<BlockView> {
    before.push(BlockView::Heading(title, 16)).push(BlockView::Gap(5))
}

fn add_section(v: &mut Vec<Block>, title: &str)
    ensures
        blocks_view(final(v)@) == section(blocks_view(old(v)@), title@),
{
    add_block(v, heading(title, 16));
    add_block(v, Block::Gap(5));
}

// ---------------------------------------------------------------------------
// Executive summary
// ---------------------------------------------------------------------------

/// The sentence on the temperature correlation.
pub open spec fn temp_note(f: Figures) -> Seq<char> {
    match f.temp {
        Some(t) => "\nTemperature correlation: "@ + t.hot_hours@ + " of "@ + t.window_hours@
            + " daytime downtime hours ("@ + t.percent@ + "%) above threshold.\n"@,
        None => ""@,
    }
}

/// The text of the executive summary.
pub open spec fn summary_note(d: Dossier, f: Figures) -> Seq<char> {
    "Days observed: "@ + f.days_observed@ + "\nOutage count: "@ + decimal(d.outage_count as nat)
        + "\nTotal downtime: "@ + f.downtime_hours@ + " hours ("@ + f.downtime_days@
        + " days)\n\n  - 00:00-06:00: "@ + f.band_hours@[0]@ + " h\n  - 06:00-12:00: "@
        + f.band_hours@[1]@ + " h\n  - 12:00-18:00: "@ + f.band_hours@[2]@
        + " h\n  - 18:00-24:00: "@ + f.band_hours@[3]@ + " h\n"@ + temp_note(f)
}

/// The title and the executive summary.
pub open spec fn with_summary(d: Dossier, f: Figures) -> Seq<BlockView> {
    section(
        Seq::<BlockView>::empty().push(BlockView::Heading("Linewatch Dossier"@, 22)).push(
            BlockView::Gap(10),
        ),
        "Executive Summary"@,
    ).push(BlockView::Text(summary_note(d, f))).push(BlockView::Gap(5))
}

fn temp_note_text(f: &Figures) -> (res: String)
    ensures
        res@ == temp_note(*f),
{
    match &f.temp {
        Some(t) => {
            let mut res = "\nTemperature correlation: ".to_owned();
            res.append(t.hot_hours.as_str());
            res.append(" of ");
            res.append(t.window_hours.as_str());
            res.append(" daytime downtime hours (");
            res.append(t.percent.as_str());
            res.append("%) above threshold.\n");
            res
        },
        None => "".to_owned(),
    }
}

fn summary_note_text(d: &Dossier, f: &Figures) -> (res: String)
    ensures
        res@ == summary_note(*d, *f),
{
    let mut res = "Days observed: ".to_owned();
    res.append(f.days_observed.as_str());
    res.append("\nOutage count: ");
    res.append(decimal_text(d.outage_count as u64).as_str());
    res.append("\nTotal downtime: ");
    res.append(f.downtime_hours.as_str());
    res.append(" hours (");
    res.append(f.downtime_days.as_str());
    res.append(" days)\n\n  - 00:00-06:00: ");
    res.append(f.band_hours[0].as_str());
    res.append(" h\n  - 06:00-12:00: ");
    res.append(f.band_hours[1].as_str());
    res.append(" h\n  - 12:00-18:00: ");
    res.append(f.band_hours[2].as_str());
    res.append(" h\n  - 18:00-24:00: ");
    res.append(f.band_hours[3].as_str());
    res.append(" h\n");
    res.append(temp_note_text(f).as_str());
    res
}

// ---------------------------------------------------------------------------
// Chain integrity
// ---------------------------------------------------------------------------

/// The status of the chain.
pub open spec fn status_note(d: Dossier) -> Seq<char> {
    if d.chain_status.intact {
        "Status: OK - Intact"@
    } else {
        "Status: BROKEN at seq "@ + decimal(
            match d.chain_status.break_at {
                Some(n) => n as nat,
                None => 0,
            },
        )
    }
}

/// The range of the records and the last hash.
pub open spec fn range_note(before: Seq<BlockView>, records: Seq<Record>) -> Seq<BlockView> {
    if records.len() > 0 {
        before.push(
            BlockView::Text(
                "Record range: seq "@ + decimal(records[0].chain().seq as nat) + " - "@ + decimal(
                    records.last().chain().seq as nat,
                ),
            ),
        ).push(BlockView::Text("Head hash: "@ + records.last().chain().hash@))
    } else {
        before
    }
}

/// The section on the integrity of the chain.
pub open spec fn with_integrity(
    before: Seq<BlockView>,
    d: Dossier,
    records: Seq<Record>,
) -> Seq<BlockView> {
    range_note(
        section(before, "Chain Integrity"@).push(BlockView::Text(status_note(d))),
        records,
    ).push(BlockView::Text("Re-verify: cargo run -- report"@)).push(BlockView::Gap(10))
}

fn add_integrity(v: &mut Vec<Block>, d: &Dossier, records: &[Record])
    ensures
        blocks_view(final(v)@) == with_integrity(blocks_view(old(v)@), *d, records@),
{
    add_section(v, "Chain Integrity");
    if d.chain_status.intact {
        add_block(v, paragraph("Status: OK - Intact"));
    } else {
        let mut s = "Status: BROKEN at seq ".to_owned();
        let at: u64 = match d.chain_status.break_at {
            Some(n) => n,
            None => 0,
        };
        s.append(decimal_text(at).as_str());
        add_block(v, Block::Text(s));
    }
    if records.len() > 0 {
        let last = &records[records.len() - 1];
        let mut s = "Record range: seq ".to_owned();
        s.append(decimal_text(get_seq(&records[0])).as_str());
        s.append(" - ");
        s.append(decimal_text(get_seq(last)).as_str());
        add_block(v, Block::Text(s));
        let mut h = "Head hash: ".to_owned();
        h.append(get_hash(last));
        add_block(v, Block::Text(h));
    }
    add_block(v, paragraph("Re-verify: cargo run -- report"));
    add_block(v, Block::Gap(10));
}

// ---------------------------------------------------------------------------
// Events
// ---------------------------------------------------------------------------

/// The first row of the event table.
pub open spec fn event_titles() -> Seq<Seq<char>> {
    seq!["#"@, "Started"@, "Ended"@, "Dur. (h)"@, "Category"@, "Indemnity"@]
}

/// The row for one outage; `n` counts from one.
pub open spec fn event_cells(n: nat, line: IndemnityLine, f: LineFigures) -> Seq<Seq<char>> {
    seq![
        decimal(n),
        line.event_start@,
        line.event_end@,
        f.hours@,
        line.category@,
        f.indemnity@,
    ]
}

/// The event table with the first `n` outages.
pub open spec fn event_grid(lines: Seq<IndemnityLine>, f: Seq<LineFigures>, n: nat) -> Seq<
    Seq<Seq<char>>,
>
    decreases n,
{
    if n == 0 {
        seq![event_titles()]
    } else {
        event_grid(lines, f, (n - 1) as nat).push(event_cells(n, lines[n - 1], f[n - 1]))
    }
}

/// The section with the table of events.
pub open spec fn with_events(before: Seq<BlockView>, d: Dossier, f: Figures) -> Seq<BlockView> {
    section(before, "Chronological Events"@).push(
        BlockView::Table(
            seq![1usize, 3, 3, 2, 3, 2],
            event_grid(d.per_event_indemnities@, f.lines@, d.per_event_indemnities@.len()),
        ),
    ).push(BlockView::Gap(10))
}

fn add_row(rows: &mut Vec<Vec<String>>, row: Vec<String>)
    ensures
        rows_view(final(rows)@) == rows_view(old(rows)@).push(row_view(row@)),
{
    rows.push(row);
    assert(rows_view(rows@) == rows_view(old(rows)@).push(row_view(row@)));
}

fn add_events(v: &mut Vec<Block>, d: &Dossier, f: &Figures)
    requires
        f.lines@.len() == d.per_event_indemnities@.len(),
    ensures
        blocks_view(final(v)@) == with_events(blocks_view(old(v)@), *d, *f),
{
    add_section(v, "Chronological Events");
    let lines = &d.per_event_indemnities;
    let mut rows: Vec<Vec<String>> = Vec::new();
    let titles: Vec<String> = vec![
        "#".to_owned(),
        "Started".to_owned(),
        "Ended".to_owned(),
        "Dur. (h)".to_owned(),
        "Category".to_owned(),
        "Indemnity".to_owned(),
    ];
    assert(row_view(titles@) == event_titles());
    add_row(&mut rows, titles);
    assert(rows_view(rows@) == seq![event_titles()]);
    let mut i: usize = 0;
    while i < lines.len()
        invariant
            i <= lines@.len(),
            f.lines@.len() == lines@.len(),
            rows_view(rows@) == event_grid(lines@, f.lines@, i as nat),
        decreases lines@.len() - i,
    {
        let row: Vec<String> = vec![
            decimal_text((i + 1) as u64),
            lines[i].event_start.clone(),
            lines[i].event_end.clone(),
            f.lines[i].hours.clone(),
            lines[i].category.clone(),
            f.lines[i].indemnity.clone(),
        ];
        assert(row_view(row@) == event_cells(
            (i + 1) as nat,
            lines@[i as int],
            f.lines@[i as int],
        ));
        add_row(&mut rows, row);
        i += 1;
    }
    let widths: Vec<usize> = vec![1usize, 3, 3, 2, 3, 2];
    assert(widths@ == seq![1usize, 3, 3, 2, 3, 2]);
    add_block(v, Block::Table(widths, rows));
    add_block(v, Block::Gap(10));
}

// ---------------------------------------------------------------------------
// Indemnities
// ---------------------------------------------------------------------------

/// The terms of the first indemnity line.
pub open spec fn terms_note(before: Seq<BlockView>, d: Dossier, f: Figures) -> Seq<BlockView> {
    if d.per_event_indemnities@.len() > 0 {
        before.push(
            BlockView::Text(
                "Repair window: "@ + decimal(
                    d.per_event_indemnities@[0].repair_window_days as nat,
                ) + " day(s)"@,
            ),
        ).push(
            BlockView::Text(
                "Tariff (complete / irregular): "@ + f.lines@[0].rate@ + " / "@ + f.lines@[0].rate@
                    + " per day"@,
            ),
        )
    } else {
        before
    }
}

/// The section with the summary of indemnities.
pub open spec fn with_indemnities(before: Seq<BlockView>, d: Dossier, f: Figures) -> Seq<
    BlockView,
> {
    terms_note(
        section(before, "Indemnity Summary"@).push(
            BlockView::Text("Total estimated indemnity: "@ + f.total_indemnity@),
        ),
        d,
        f,
    ).push(BlockView::Gap(10))
}

fn add_indemnities(v: &mut Vec<Block>, d: &Dossier, f: &Figures)
    requires
        f.lines@.len() == d.per_event_indemnities@.len(),
    ensures
        blocks_view(final(v)@) == with_indemnities(blocks_view(old(v)@), *d, *f),
{
    add_section(v, "Indemnity Summary");
    let mut s = "Total estimated indemnity: ".to_owned();
    s.append(f.total_indemnity.as_str());
    add_block(v, Block::Text(s));
    if d.per_event_indemnities.len() > 0 {
        let mut w = "Repair window: ".to_owned();
        w.append(decimal_text(d.per_event_indemnities[0].repair_window_days as u64).as_str());
        w.append(" day(s)");
        add_block(v, Block::Text(w));
        let mut t = "Tariff (complete / irregular): ".to_owned();
        t.append(f.lines[0].rate.as_str());
        t.append(" / ");
        t.append(f.lines[0].rate.as_str());
        t.append(" per day");
        add_block(v, Block::Text(t));
    }
    add_block(v, Block::Gap(10));
}

// ---------------------------------------------------------------------------
// Appendix
// ---------------------------------------------------------------------------

/// The row for one hop.
pub open spec fn hop_cells(h: Hop, time: Seq<char>) -> Seq<Seq<char>> {
    seq![decimal(h.ttl as nat), hop_address(h), hop_time(h, time)]
}

/// The table with the first `n` hops.
pub open spec fn hop_grid(hops: Seq<Hop>, times: Seq<String>, n: nat) -> Seq<Seq<Seq<char>>>
    decreases n,
{
    if n == 0 {
        seq![seq!["TTL"@, "Address"@, "RTT"@]]
    } else {
        hop_grid(hops, times, (n - 1) as nat).push(hop_cells(hops[n - 1], times[n - 1]@))
    }
}

/// The hops of one outage.
pub open spec fn with_hops(
    before: Seq<BlockView>,
    event: OutageEvent,
    hops: Seq<Hop>,
    times: Seq<String>,
) -> Seq<BlockView> {
    let titled = before.push(
        BlockView::Text(
            "Event: "@ + date_display(event.started.clock()) + " - "@ + category_name(
                event.category,
            ),
        ),
    ).push(BlockView::Gap(3));
    if hops.len() == 0 {
        titled.push(BlockView::Text("(no hop data)"@))
    } else {
        titled.push(
            BlockView::Table(seq![1usize, 3, 2], hop_grid(hops, times, hops.len())),
        ).push(BlockView::Gap(3))
    }
}

/// The hops of the outages among the first `n` records.
pub open spec fn with_all_hops(
    before: Seq<BlockView>,
    records: Seq<Record>,
    times: Seq<Vec<String>>,
    n: nat,
) -> Seq<BlockView>
    decreases n,
{
    if n == 0 {
        before
    } else {
        let sofar = with_all_hops(before, records, times, (n - 1) as nat);
        match records[n - 1] {
            Record::Outage { event, hops, .. } => with_hops(
                sofar,
                event,
                hops@,
                times[n - 1]@,
            ),
            _ => sofar,
        }
    }
}

fn add_hops(v: &mut Vec<Block>, event: &OutageEvent, hops: &Vec<Hop>, times: &Vec<String>)
    requires
        hops@.len() == times@.len(),
    ensures
        blocks_view(final(v)@) == with_hops(blocks_view(old(v)@), *event, hops@, times@),
{
    let mut s = "Event: ".to_owned();
    s.append(date_text(&event.started).as_str());
    s.append(" - ");
    s.append(category_name_text(&event.category));
    add_block(v, Block::Text(s));
    add_block(v, Block::Gap(3));
    if hops.len() == 0 {
        add_block(v, paragraph("(no hop data)"));
        return ;
    }
    let mut rows: Vec<Vec<String>> = Vec::new();
    let titles: Vec<String> = vec!["TTL".to_owned(), "Address".to_owned(), "RTT".to_owned()];
    assert(row_view(titles@) == seq!["TTL"@, "Address"@, "RTT"@]);
    add_row(&mut rows, titles);
    assert(rows_view(rows@) == seq![seq!["TTL"@, "Address"@, "RTT"@]]);
    let mut i: usize = 0;
    while i < hops.len()
        invariant
            i <= hops@.len(),
            hops@.len() == times@.len(),
            rows_view(rows@) == hop_grid(hops@, times@, i as nat),
        decreases hops@.len() - i,
    {
        let row: Vec<String> = vec![
            decimal_text(hops[i].ttl as u64),
            hop_address_text(&hops[i]).to_owned(),
            hop_time_text(&hops[i], times[i].as_str()).to_owned(),
        ];
        assert(row_view(row@) == hop_cells(hops@[i as int], times@[i as int]@));
        add_row(&mut rows, row);
        i += 1;
    }
    let widths: Vec<usize> = vec![1usize, 3, 2];
    assert(widths@ == seq![1usize, 3, 2]);
    add_block(v, Block::Table(widths, rows));
    add_block(v, Block::Gap(3));
}

fn add_all_hops(v: &mut Vec<Block>, records: &[Record], times: &Vec<Vec<String>>)
    requires
        times@.len() == records@.len(),
        forall|i: int| 0 <= i < records@.len() ==> times_fit(#[trigger] records@[i], times@[i]@),
    ensures
        blocks_view(final(v)@) == with_all_hops(
            blocks_view(old(v)@),
            records@,
            times@,
            records@.len(),
        ),
{
    let mut i: usize = 0;
    while i < records.len()
        invariant
            i <= records@.len(),
            times@.len() == records@.len(),
            forall|j: int|
                0 <= j < records@.len() ==> times_fit(#[trigger] records@[j], times@[j]@),
            blocks_view(v@) == with_all_hops(blocks_view(old(v)@), records@, times@, i as nat),
        decreases records@.len() - i,
    {
        assert(times_fit(records@[i as int], times@[i as int]@));
        match &records[i] {
            Record::Outage { event, hops, .. } => {
                add_hops(v, event, hops, &times[i]);
            },
            _ => {},
        }
        i += 1;
    }
}

// ---------------------------------------------------------------------------
// The whole document
// ---------------------------------------------------------------------------

/// The chart, when there is one.
pub open spec fn with_chart(before: Seq<BlockView>, chart: Option<Seq<char>>) -> Seq<BlockView> {
    match chart {
        Some(path) => before.push(BlockView::Picture(path)).push(BlockView::Gap(5)),
        None => before,
    }
}

/// The hash of the last record; empty when there is none.
pub open spec fn head_hash(records: Seq<Record>) -> Seq<char> {
    if records.len() > 0 {
        records.last().chain().hash@
    } else {
        ""@
    }
}

/// The path of a chart as a text.
pub open spec fn path_view(chart: Option<String>) -> Option<Seq<char>> {
    match chart {
        Some(s) => Some(s@),
        None => None,
    }
}

/// All blocks of the document.
pub open spec fn pages(
    d: Dossier,
    records: Seq<Record>,
    chart: Option<Seq<char>>,
    f: Figures,
) -> Seq<BlockView> {
    let charted = with_chart(with_summary(d, f), chart);
    let checked = with_integrity(charted, d, records);
    let listed = with_indemnities(with_events(checked, d, f), d, f);
    with_all_hops(
        section(listed, "Appendix A - Traceroute Hops"@),
        records,
        f.hop_times@,
        records.len(),
    ).push(BlockView::Gap(10)).push(BlockView::Text("Chain head hash: "@ + head_hash(records)))
}

/// Lays a dossier out in blocks. The fractional numbers in it are given as
/// texts.
pub fn render_blocks(
    dossier: &Dossier,
    records: &[Record],
    chart_path: &Option<String>,
    figures: &Figures,
) -> (res: Vec<Block>)
    requires
        figures.fit(*dossier, records@),
    ensures
        blocks_view(res@) == pages(*dossier, records@, path_view(*chart_path), *figures),
{
    let mut v: Vec<Block> = Vec::new();
    assert(blocks_view(v@) == Seq::<BlockView>::empty());
    add_block(&mut v, heading("Linewatch Dossier", 22));
    add_block(&mut v, Block::Gap(10));
    add_section(&mut v, "Executive Summary");
    add_block(&mut v, Block::Text(summary_note_text(dossier, figures)));
    add_block(&mut v, Block::Gap(5));
    if let Some(path) = chart_path {
        add_block(&mut v, Block::Picture(path.clone()));
        add_block(&mut v, Block::Gap(5));
    }
    add_integrity(&mut v, dossier, records);
    add_events(&mut v, dossier, figures);
    add_indemnities(&mut v, dossier, figures);
    add_section(&mut v, "Appendix A - Traceroute Hops");
    add_all_hops(&mut v, records, &figures.hop_times);
    add_block(&mut v, Block::Gap(10));
    let mut s = "Chain head hash: ".to_owned();
    if records.len() > 0 {
        s.append(get_hash(&records[records.len() - 1]));
    } else {
        s.append("");
    }
    add_block(&mut v, Block::Text(s));
    v
}

// ---------------------------------------------------------------------------
// Laws
// ---------------------------------------------------------------------------

/// The event table has its titles and one row for each line, in order, and the
/// row of a line is made of that line and of the figures of that same line.
pub proof fn law_event_grid(lines: Seq<IndemnityLine>, f: Seq<LineFigures>, n: nat)
    ensures
        event_grid(lines, f, n).len() == n + 1,
        event_grid(lines, f, n)[0] == seq![
            "#"@,
            "Started"@,
            "Ended"@,
            "Dur. (h)"@,
            "Category"@,
            "Indemnity"@,
        ],
        forall|k: int|
            0 <= k < n ==> event_grid(lines, f, n)[k + 1] == seq![
                decimal((k + 1) as nat),
                (#[trigger] lines[k]).event_start@,
                lines[k].event_end@,
                f[k].hours@,
                lines[k].category@,
                f[k].indemnity@,
            ],
    decreases n,
{
    if n > 0 {
        let before = event_grid(lines, f, (n - 1) as nat);
        law_event_grid(lines, f, (n - 1) as nat);
        assert(event_grid(lines, f, n)[0] == before[0]);
        assert forall|k: int| 0 <= k < n implies event_grid(lines, f, n)[k + 1] == seq![
            decimal((k + 1) as nat),
            (#[trigger] lines[k]).event_start@,
            lines[k].event_end@,
            f[k].hours@,
            lines[k].category@,
            f[k].indemnity@,
        ] by {
            if k < n - 1 {
                assert(event_grid(lines, f, n)[k + 1] == before[k + 1]);
            }
        }
    }
}

/// The hop table has its titles and one row for each hop, in order: its distance,
/// its address or a star, and its own time or a dash.
pub proof fn law_hop_grid(hops: Seq<Hop>, times: Seq<String>, n: nat)
    ensures
        hop_grid(hops, times, n).len() == n + 1,
        hop_grid(hops, times, n)[0] == seq!["TTL"@, "Address"@, "RTT"@],
        forall|k: int|
            0 <= k < n ==> hop_grid(hops, times, n)[k + 1] == seq![
                decimal((#[trigger] hops[k]).ttl as nat),
                if hops[k].addr is Some {
                    hops[k].addr->0@
                } else {
                    "*"@
                },
                if hops[k].rtt is Some {
                    times[k]@
                } else {
                    "-"@
                },
            ],
    decreases n,
{
    if n > 0 {
        let before = hop_grid(hops, times, (n - 1) as nat);
        law_hop_grid(hops, times, (n - 1) as nat);
        assert(hop_grid(hops, times, n)[0] == before[0]);
        assert forall|k: int| 0 <= k < n implies hop_grid(hops, times, n)[k + 1] == seq![
            decimal((#[trigger] hops[k]).ttl as nat),
            if hops[k].addr is Some {
                hops[k].addr->0@
            } else {
                "*"@
            },
            if hops[k].rtt is Some {
                times[k]@
            } else {
                "-"@
            },
        ] by {
            if k < n - 1 {
                assert(hop_grid(hops, times, n)[k + 1] == before[k + 1]);
            }
        }
    }
}

/// The text of the executive summary has a line for each figure of the dossier:
/// the days observed, the number of outages, the total downtime, and the downtime
/// of each quarter of the day under its hours.
pub proof fn law_summary_note_lines(d: Dossier, f: Figures)
    ensures
        summary_note(d, f) == seq![
            "Days observed: "@ + f.days_observed@ + "\n"@,
            "Outage count: "@ + decimal(d.outage_count as nat) + "\n"@,
            "Total downtime: "@ + f.downtime_hours@ + " hours ("@ + f.downtime_days@
                + " days)\n\n"@,
            "  - 00:00-06:00: "@ + f.band_hours@[0]@ + " h\n"@,
            "  - 06:00-12:00: "@ + f.band_hours@[1]@ + " h\n"@,
            "  - 12:00-18:00: "@ + f.band_hours@[2]@ + " h\n"@,
            "  - 18:00-24:00: "@ + f.band_hours@[3]@ + " h\n"@,
            temp_note(f),
        ].flatten(),
{
    let e = Seq::<Seq<char>>::empty();
    let nl = "\n"@;
    let o0 = "Days observed: "@;
    assert(e.flatten() + o0 == o0);
    let o1 = "Outage count: "@;
    assert("\nOutage count: "@ == nl + o1) by {
        reveal_strlit("\nOutage count: ");
        reveal_strlit("\n");
        reveal_strlit("Outage count: ");
    }
    lemma_line_ends(e, o0, o0, f.days_observed@, "\nOutage count: "@, nl, o1);
    let d1 = e.push(o0 + f.days_observed@ + nl);
    let t1 = o0 + f.days_observed@ + "\nOutage count: "@;
    let o2 = "Total downtime: "@;
    assert("\nTotal downtime: "@ == nl + o2) by {
        reveal_strlit("\nTotal downtime: ");
        reveal_strlit("\n");
        reveal_strlit("Total downtime: ");
    }
    let count = decimal(d.outage_count as nat);
    lemma_line_ends(d1, t1, o1, count, "\nTotal downtime: "@, nl, o2);
    let d2 = d1.push(o1 + count + nl);
    let t2 = t1 + count + "\nTotal downtime: "@;
    lemma_line_goes_on(d2, t2, o2, f.downtime_hours@, " hours ("@);
    let t3 = t2 + f.downtime_hours@ + " hours ("@;
    let o3 = o2 + f.downtime_hours@ + " hours ("@;
    let mid = " days)\n\n  - 00:00-06:00: "@;
    let end = " days)\n\n"@;
    let o4 = "  - 00:00-06:00: "@;
    assert(mid == end + o4) by {
        reveal_strlit(" days)\n\n  - 00:00-06:00: ");
        reveal_strlit(" days)\n\n");
        reveal_strlit("  - 00:00-06:00: ");
    }
    lemma_line_ends(d2, t3, o3, f.downtime_days@, mid, end, o4);
    let d4 = d2.push(o3 + f.downtime_days@ + end);
    let t4 = t3 + f.downtime_days@ + mid;
    let h = " h\n"@;
    let o5 = "  - 06:00-12:00: "@;
    let o6 = "  - 12:00-18:00: "@;
    let o7 = "  - 18:00-24:00: "@;
    let none = Seq::<char>::empty();
    assert(" h\n  - 06:00-12:00: "@ == h + o5) by {
        reveal_strlit(" h\n  - 06:00-12:00: ");
        reveal_strlit(" h\n");
        reveal_strlit("  - 06:00-12:00: ");
    }
    assert(" h\n  - 12:00-18:00: "@ == h + o6) by {
        reveal_strlit(" h\n  - 12:00-18:00: ");
        reveal_strlit(" h\n");
        reveal_strlit("  - 12:00-18:00: ");
    }
    assert(" h\n  - 18:00-24:00: "@ == h + o7) by {
        reveal_strlit(" h\n  - 18:00-24:00: ");
        reveal_strlit(" h\n");
        reveal_strlit("  - 18:00-24:00: ");
    }
    assert(h == h + none);
    lemma_line_ends(d4, t4, o4, f.band_hours@[0]@, " h\n  - 06:00-12:00: "@, h, o5);
    let d5 = d4.push(o4 + f.band_hours@[0]@ + h);
    let t5 = t4 + f.band_hours@[0]@ + " h\n  - 06:00-12:00: "@;
    lemma_line_ends(d5, t5, o5, f.band_hours@[1]@, " h\n  - 12:00-18:00: "@, h, o6);
    let d6 = d5.push(o5 + f.band_hours@[1]@ + h);
    let t6 = t5 + f.band_hours@[1]@ + " h\n  - 12:00-18:00: "@;
    lemma_line_ends(d6, t6, o6, f.band_hours@[2]@, " h\n  - 18:00-24:00: "@, h, o7);
    let d7 = d6.push(o6 + f.band_hours@[2]@ + h);
    let t7 = t6 + f.band_hours@[2]@ + " h\n  - 18:00-24:00: "@;
    lemma_line_ends(d7, t7, o7, f.band_hours@[3]@, h, h, none);
    let d8 = d7.push(o7 + f.band_hours@[3]@ + h);
    let t8 = t7 + f.band_hours@[3]@ + h;
    assert(t8 == d8.flatten());
    d8.lemma_flatten_push(temp_note(f));
    assert(summary_note(d, f) == d8.push(temp_note(f)).flatten());
    assert(d8.push(temp_note(f)) == seq![
        o0 + f.days_observed@ + nl,
        o1 + count + nl,
        o3 + f.downtime_days@ + end,
        o4 + f.band_hours@[0]@ + h,
        o5 + f.band_hours@[1]@ + h,
        o6 + f.band_hours@[2]@ + h,
        o7 + f.band_hours@[3]@ + h,
        temp_note(f),
    ]);
}

/// The sentence on the temperature gives the hot hours of the hours in the window,
/// and their share; there is none without a correlation.
pub proof fn law_temp_note(f: Figures)
    ensures
        f.temp is None ==> temp_note(f).len() == 0,
        f.temp matches Some(t) ==> temp_note(f) == seq![
            "\nTemperature correlation: "@,
            t.hot_hours@,
            " of "@,
            t.window_hours@,
            " daytime downtime hours ("@,
            t.percent@,
            "%) above threshold.\n"@,
        ].flatten(),
{
    reveal_strlit("");
    if let Some(t) = f.temp {
        let e = Seq::<Seq<char>>::empty();
        let a = e.push("\nTemperature correlation: "@);
        let b = a.push(t.hot_hours@);
        let c = b.push(" of "@);
        let g = c.push(t.window_hours@);
        let h = g.push(" daytime downtime hours ("@);
        let i = h.push(t.percent@);
        let j = i.push("%) above threshold.\n"@);
        e.lemma_flatten_push("\nTemperature correlation: "@);
        a.lemma_flatten_push(t.hot_hours@);
        b.lemma_flatten_push(" of "@);
        c.lemma_flatten_push(t.window_hours@);
        g.lemma_flatten_push(" daytime downtime hours ("@);
        h.lemma_flatten_push(t.percent@);
        i.lemma_flatten_push("%) above threshold.\n"@);
        assert(a.flatten() == "\nTemperature correlation: "@);
        assert(j == seq![
            "\nTemperature correlation: "@,
            t.hot_hours@,
            " of "@,
            t.window_hours@,
            " daytime downtime hours ("@,
            t.percent@,
            "%) above threshold.\n"@,
        ]);
    }
}

/// The appendix has one part for each outage among the records, in order, with the
/// date on which it started, its category and all of its hops; other records have
/// none.
pub proof fn law_appendix_parts(
    before: Seq<BlockView>,
    records: Seq<Record>,
    times: Seq<Vec<String>>,
    n: nat,
)
    ensures
        with_all_hops(before, records, times, n) == before + Seq::new(
            n,
            |k: int|
                match records[k] {
                    Record::Outage { event, hops, .. } => seq![
                        BlockView::Text(
                            "Event: "@ + date_display(event.started.clock()) + " - "@ + (
                            if event.category == AgcomCategory::CompleteInterruption {
                                "CompleteInterruption"@
                            } else {
                                "IrregularService"@
                            }),
                        ),
                        BlockView::Gap(3),
                    ] + (if hops@.len() == 0 {
                        seq![BlockView::Text("(no hop data)"@)]
                    } else {
                        seq![
                            BlockView::Table(
                                seq![1usize, 3, 2],
                                hop_grid(hops@, times[k]@, hops@.len()),
                            ),
                            BlockView::Gap(3),
                        ]
                    }),
                    _ => Seq::<BlockView>::empty(),
                },
        ).flatten(),
    decreases n,
{
    let part = |k: int|
        match records[k] {
            Record::Outage { event, hops, .. } => seq![
                BlockView::Text(
                    "Event: "@ + date_display(event.started.clock()) + " - "@ + (
                    if event.category == AgcomCategory::CompleteInterruption {
                        "CompleteInterruption"@
                    } else {
                        "IrregularService"@
                    }),
                ),
                BlockView::Gap(3),
            ] + (if hops@.len() == 0 {
                seq![BlockView::Text("(no hop data)"@)]
            } else {
                seq![
                    BlockView::Table(
                        seq![1usize, 3, 2],
                        hop_grid(hops@, times[k]@, hops@.len()),
                    ),
                    BlockView::Gap(3),
                ]
            }),
            _ => Seq::<BlockView>::empty(),
        };
    if n > 0 {
        let m = (n - 1) as nat;
        law_appendix_parts(before, records, times, m);
        let parts = Seq::new(m, part);
        parts.lemma_flatten_push(part(n - 1));
        assert(Seq::new(n, part) == parts.push(part(n - 1)));
        let sofar = with_all_hops(before, records, times, m);
        assert(sofar == before + parts.flatten());
        assert(with_all_hops(before, records, times, n) == sofar + part(n - 1));
        assert(sofar + part(n - 1) == before + (parts.flatten() + part(n - 1)));
    } else {
        assert(Seq::new(n, part) == Seq::<Seq<BlockView>>::empty());
        assert(before + Seq::<BlockView>::empty() == before);
    }
}

/// The section on the integrity of the chain gives its status, the sequence numbers
/// of the first and the last record, and the hash of the last record.
pub proof fn law_integrity_part(before: Seq<BlockView>, d: Dossier, records: Seq<Record>)
    ensures
        with_integrity(before, d, records) == before + (seq![
            BlockView::Heading("Chain Integrity"@, 16),
            BlockView::Gap(5),
            BlockView::Text(
                if d.chain_status.intact {
                    "Status: OK - Intact"@
                } else {
                    "Status: BROKEN at seq "@ + decimal(
                        if d.chain_status.break_at is Some {
                            d.chain_status.break_at->0 as nat
                        } else {
                            0
                        },
                    )
                },
            ),
        ] + (if records.len() > 0 {
            seq![
                BlockView::Text(
                    "Record range: seq "@ + decimal(records[0].chain().seq as nat) + " - "@
                        + decimal(records[records.len() - 1].chain().seq as nat),
                ),
                BlockView::Text("Head hash: "@ + records[records.len() - 1].chain().hash@),
            ]
        } else {
            seq![]
        }) + seq![BlockView::Text("Re-verify: cargo run -- report"@), BlockView::Gap(10)]),
{
}

/// The section on the events holds the table of all indemnity lines.
pub proof fn law_events_part(before: Seq<BlockView>, d: Dossier, f: Figures)
    ensures
        with_events(before, d, f) == before + seq![
            BlockView::Heading("Chronological Events"@, 16),
            BlockView::Gap(5),
            BlockView::Table(
                seq![1usize, 3, 3, 2, 3, 2],
                event_grid(
                    d.per_event_indemnities@,
                    f.lines@,
                    d.per_event_indemnities@.len(),
                ),
            ),
            BlockView::Gap(10),
        ],
{
}

/// The section on the indemnities gives the total, and the repair window and the
/// rate of the first line when there is one.
pub proof fn law_indemnities_part(before: Seq<BlockView>, d: Dossier, f: Figures)
    ensures
        with_indemnities(before, d, f) == before + (seq![
            BlockView::Heading("Indemnity Summary"@, 16),
            BlockView::Gap(5),
            BlockView::Text("Total estimated indemnity: "@ + f.total_indemnity@),
        ] + (if d.per_event_indemnities@.len() > 0 {
            seq![
                BlockView::Text(
                    "Repair window: "@ + decimal(
                        d.per_event_indemnities@[0].repair_window_days as nat,
                    ) + " day(s)"@,
                ),
                BlockView::Text(
                    "Tariff (complete / irregular): "@ + f.lines@[0].rate@ + " / "@
                        + f.lines@[0].rate@ + " per day"@,
                ),
            ]
        } else {
            seq![]
        }) + seq![BlockView::Gap(10)]),
{
}

/// The document has all sections, in order: the title and the summary, the chart if
/// there is one, the integrity of the chain, the events, the indemnities, the hops,
/// and the hash of the last record.
pub proof fn law_pages_sections(
    d: Dossier,
    records: Seq<Record>,
    chart: Option<Seq<char>>,
    f: Figures,
)
    ensures
        ({
            let e = Seq::<BlockView>::empty();
            pages(d, records, chart, f) == seq![
                seq![
                    BlockView::Heading("Linewatch Dossier"@, 22),
                    BlockView::Gap(10),
                    BlockView::Heading("Executive Summary"@, 16),
                    BlockView::Gap(5),
                    BlockView::Text(summary_note(d, f)),
                    BlockView::Gap(5),
                ],
                if chart is Some {
                    seq![BlockView::Picture(chart->0), BlockView::Gap(5)]
                } else {
                    e
                },
                with_integrity(e, d, records),
                with_events(e, d, f),
                with_indemnities(e, d, f),
                seq![BlockView::Heading("Appendix A - Traceroute Hops"@, 16), BlockView::Gap(5)],
                with_all_hops(e, records, f.hop_times@, records.len()),
                seq![
                    BlockView::Gap(10),
                    BlockView::Text(
                        "Chain head hash: "@ + (if records.len() > 0 {
                            records[records.len() - 1].chain().hash@
                        } else {
                            ""@
                        }),
                    ),
                ],
            ].flatten()
        }),
{
    let e = Seq::<BlockView>::empty();
    let p0 = seq![
        BlockView::Heading("Linewatch Dossier"@, 22),
        BlockView::Gap(10),
        BlockView::Heading("Executive Summary"@, 16),
        BlockView::Gap(5),
        BlockView::Text(summary_note(d, f)),
        BlockView::Gap(5),
    ];
    assert(with_summary(d, f) == p0);
    let p1 = if chart is Some {
        seq![BlockView::Picture(chart->0), BlockView::Gap(5)]
    } else {
        e
    };
    assert(with_chart(p0, chart) == p0 + p1);
    let t1 = p0 + p1;
    lemma_integrity_follows(t1, d, records);
    let p2 = with_integrity(e, d, records);
    let t2 = t1 + p2;
    lemma_events_follow(t2, d, f);
    let p3 = with_events(e, d, f);
    let t3 = t2 + p3;
    lemma_indemnities_follow(t3, d, f);
    let p4 = with_indemnities(e, d, f);
    let t4 = t3 + p4;
    let p5 = seq![BlockView::Heading("Appendix A - Traceroute Hops"@, 16), BlockView::Gap(5)];
    lemma_section_follows(t4, "Appendix A - Traceroute Hops"@);
    let t5 = t4 + p5;
    lemma_hops_follow(t5, records, f.hop_times@, records.len());
    let p6 = with_all_hops(e, records, f.hop_times@, records.len());
    let t6 = t5 + p6;
    let last = BlockView::Text("Chain head hash: "@ + head_hash(records));
    let p7 = seq![BlockView::Gap(10), last];
    assert(t6.push(BlockView::Gap(10)).push(last) == t6 + p7);
    let none = Seq::<Seq<BlockView>>::empty();
    let q0 = none.push(p0);
    let q1 = q0.push(p1);
    let q2 = q1.push(p2);
    let q3 = q2.push(p3);
    let q4 = q3.push(p4);
    let q5 = q4.push(p5);
    let q6 = q5.push(p6);
    let q7 = q6.push(p7);
    none.lemma_flatten_push(p0);
    assert(q0.flatten() == p0);
    q0.lemma_flatten_push(p1);
    q1.lemma_flatten_push(p2);
    q2.lemma_flatten_push(p3);
    q3.lemma_flatten_push(p4);
    q4.lemma_flatten_push(p5);
    q5.lemma_flatten_push(p6);
    q6.lemma_flatten_push(p7);
    assert(q7 == seq![p0, p1, p2, p3, p4, p5, p6, p7]);
}

proof fn lemma_section_follows(before: Seq<BlockView>, title: Seq<char>)
    ensures
        section(before, title) == before + seq![BlockView::Heading(title, 16), BlockView::Gap(5)],
{
}

proof fn lemma_integrity_follows(before: Seq<BlockView>, d: Dossier, records: Seq<Record>)
    ensures
        with_integrity(before, d, records) == before + with_integrity(Seq::empty(), d, records),
{
}

proof fn lemma_events_follow(before: Seq<BlockView>, d: Dossier, f: Figures)
    ensures
        with_events(before, d, f) == before + with_events(Seq::empty(), d, f),
{
}

proof fn lemma_indemnities_follow(before: Seq<BlockView>, d: Dossier, f: Figures)
    ensures
        with_indemnities(before, d, f) == before + with_indemnities(Seq::empty(), d, f),
{
}

proof fn lemma_hops_follow(
    before: Seq<BlockView>,
    records: Seq<Record>,
    times: Seq<Vec<String>>,
    n: nat,
)
    ensures
        with_all_hops(before, records, times, n) == before + with_all_hops(
            Seq::empty(),
            records,
            times,
            n,
        ),
    decreases n,
{
    if n > 0 {
        lemma_hops_follow(before, records, times, (n - 1) as nat);
    }
}

/// The contents of a list of blocks are those of each block, in order: its text, its
/// size, or its rows, cell for cell.
pub proof fn law_block_contents(v: Seq<Block>, i: int, rows: Seq<Vec<String>>, r: int, c: int)
    requires
        0 <= i < v.len(),
    ensures
        blocks_view(v).len() == v.len(),
        v[i] matches Block::Heading(s, size) ==> blocks_view(v)[i] == BlockView::Heading(s@, size),
        v[i] matches Block::Text(s) ==> blocks_view(v)[i] == BlockView::Text(s@),
        v[i] matches Block::Gap(n) ==> blocks_view(v)[i] == BlockView::Gap(n),
        v[i] matches Block::Picture(s) ==> blocks_view(v)[i] == BlockView::Picture(s@),
        v[i] matches Block::Table(widths, cells) ==> blocks_view(v)[i] == BlockView::Table(
            widths@,
            rows_view(cells@),
        ),
        rows_view(rows).len() == rows.len(),
        0 <= r < rows.len() ==> rows_view(rows)[r].len() == rows[r]@.len(),
        0 <= r < rows.len() && 0 <= c < rows[r]@.len() ==> rows_view(rows)[r][c] == rows[r]@[c]@,
{
}

/// The path of a chart is there when a chart is.
pub proof fn law_chart_path(chart: Option<String>)
    ensures
        chart is None ==> path_view(chart) is None,
        chart matches Some(s) ==> path_view(chart) == Some(s@),
{
}

} // verus!
