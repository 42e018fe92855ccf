//! The dossier: what the event log shows about the line.
//!
//! Every figure is computed from the records alone. Durations are whole
//! nanoseconds.
use crate::chain::{documents, status_of_chain, verify_chain, ChainStatus, Record};
use crate::daytime::{
    hour, hour_of, law_cut, law_part_of_span, law_quarters, law_slice, nanos_in_hours, next_slice,
    slice_end, time_in_hours,
};
use crate::events::{AgcomCategory, OutageEvent};
use crate::json::Json;
use crate::metrics::{category_label, label_of_category};
use crate::quantity::Quantity;
use crate::timestamp::{
    parse_rfc3339, rfc3339, timestamp_display, timestamp_text, Timestamp, DAY, HOUR, SECOND,
};
use vstd::prelude::*;

verus! {

// ---------------------------------------------------------------------------
// Inputs
// ---------------------------------------------------------------------------

/// What the provider has promised.
#[derive(Clone, Copy, Debug)]
pub struct ServiceCharter {
    /// Number of full days before indemnity starts accruing.
    pub repair_window_days: u32,
}

/// Daily tariff amounts.
#[derive(Clone, Copy, Debug)]
pub struct Tariff {
    /// Indemnity per day of a complete interruption.
    pub complete_per_day: Quantity,
    /// Indemnity per day of irregular service.
    pub irregular_per_day: Quantity,
}

/// What the temperature correlation looks at.
#[derive(Clone, Copy, Debug)]
pub struct DossierConfig {
    /// The hour at which the daytime window starts.
    pub daytime_start: u8,
    /// The hour at which the daytime window ends.
    pub daytime_end: u8,
    /// The temperature above which downtime is counted, in degrees Celsius.
    pub temp_threshold: Quantity,
}

/// The most records that a dossier is made of.
pub const MAX_RECORDS: u64 = 288_230_376_151_711_744;

// ---------------------------------------------------------------------------
// Outputs
// ---------------------------------------------------------------------------

/// How downtime goes together with heat.
#[derive(Clone, Copy, Debug, PartialEq, Eq, Structural)]
pub struct TempCorrelation {
    /// Downtime in the daytime window.
    pub downtime_in_window: u128,
    /// The part of it in hours that began above the temperature threshold.
    pub downtime_above_threshold: u128,
}

/// The indemnity that is due for one outage.
#[derive(Clone, Debug, PartialEq)]
pub struct IndemnityLine {
    pub event_start: String,
    pub event_end: String,
    pub duration: u128,
    pub category: String,
    pub repair_window_days: u32,
    pub tariff_daily: Quantity,
    /// The part of the duration for which indemnity accrues.
    pub effective: u128,
}

/// The complete dossier.
#[derive(Clone, Debug, PartialEq)]
pub struct Dossier {
    pub chain_status: ChainStatus,
    /// Time from the first to the last timestamp.
    pub observed: u128,
    pub outage_count: u32,
    pub total_downtime: u128,
    /// Downtime from midnight to six, to noon, to eighteen, and to midnight.
    pub downtime_by_hour_band: [u128; 4],
    pub temp_correlation: Option<TempCorrelation>,
    pub per_event_indemnities: Vec<IndemnityLine>,
}

// ---------------------------------------------------------------------------
// Outages
// ---------------------------------------------------------------------------

/// The outages among the records that have ended, in order.
pub open spec fn closed_events(records: Seq<Record>) -> Seq<OutageEvent>
    decreases records.len(),
{
    if records.len() == 0 {
        seq![]
    } else {
        let before = closed_events(records.drop_last());
        match records.last() {
            Record::Outage { event, .. } => if event.ended is Some {
                before.push(event)
            } else {
                before
            },
            _ => before,
        }
    }
}

/// How long an outage took; zero when it ended before it started.
pub open spec fn duration(e: OutageEvent) -> int {
    match e.ended {
        Some(end) => if end.instant() > e.started.instant() {
            end.instant() - e.started.instant()
        } else {
            0
        },
        None => 0,
    }
}

/// How long all outages took.
pub open spec fn total_duration(events: Seq<OutageEvent>) -> int
    decreases events.len(),
{
    if events.len() == 0 {
        0
    } else {
        total_duration(events.drop_last()) + duration(events.last())
    }
}

/// The part of an outage between two hours of the day, on the clock that read
/// its start.
pub open spec fn downtime_in(e: OutageEvent, lo: int, hi: int) -> int {
    time_in_hours(e.started.clock(), e.started.clock() + duration(e), lo, hi)
}

/// The part of all outages between two hours of the day.
pub open spec fn total_in(events: Seq<OutageEvent>, lo: int, hi: int) -> int
    decreases events.len(),
{
    if events.len() == 0 {
        0
    } else {
        total_in(events.drop_last(), lo, hi) + downtime_in(events.last(), lo, hi)
    }
}

/// An upper bound on the duration of an outage.
pub const MAX_OUTAGE: u128 = 1_000_000_000_000_000_000_000;

/// The outages among the records that have ended.
pub fn collect_outages(records: &[Record]) -> (res: Vec<OutageEvent>)
    ensures
        res@ == closed_events(records@),
        res@.len() <= records@.len(),
{
    let mut res: Vec<OutageEvent> = Vec::new();
    let mut i: usize = 0;
    assert(records@.take(0) == Seq::<Record>::empty());
    while i < records.len()
        invariant
            i <= records@.len(),
            res@.len() <= i,
            res@ == closed_events(records@.take(i as int)),
        decreases records@.len() - i,
    {
        assert(records@.take(i + 1).drop_last() == records@.take(i as int));
        assert(records@.take(i + 1).last() == records@[i as int]);
        match &records[i] {
            Record::Outage { event, .. } => {
                if event.ended.is_some() {
                    res.push(*event);
                }
            },
            _ => {},
        }
        i += 1;
    }
    assert(records@.take(i as int) == records@);
    res
}

/// The duration of an outage, and the clock readings between which it lies.
fn span_of(e: &OutageEvent) -> (res: (u128, i128, i128))
    ensures
        res.0 == duration(*e),
        res.0 <= MAX_OUTAGE,
        res.1 == e.started.clock(),
        res.2 == e.started.clock() + duration(*e),
        -crate::daytime::MAX_READING <= res.1 <= res.2 <= crate::daytime::MAX_READING,
{
    let from = e.started.clock_nanos();
    let started = e.started.instant_nanos();
    match &e.ended {
        Some(end) => {
            let ended = end.instant_nanos();
            if ended > started {
                ((ended - started) as u128, from, from + (ended - started))
            } else {
                (0, from, from)
            }
        },
        None => (0, from, from),
    }
}

/// The sum of the durations of all outages.
pub fn compute_total_downtime(events: &Vec<OutageEvent>) -> (res: u128)
    requires
        events@.len() <= MAX_RECORDS,
    ensures
        res == total_duration(events@),
{
    let mut res: u128 = 0;
    let mut i: usize = 0;
    assert(events@.take(0) == Seq::<OutageEvent>::empty());
    while i < events.len()
        invariant
            i <= events@.len() <= MAX_RECORDS,
            res == total_duration(events@.take(i as int)),
            res <= i * MAX_OUTAGE,
        decreases events@.len() - i,
    {
        assert(events@.take(i + 1).drop_last() == events@.take(i as int));
        assert(events@.take(i + 1).last() == events@[i as int]);
        let (d, _, _) = span_of(&events[i]);
        res = res + d;
        i += 1;
    }
    assert(events@.take(i as int) == events@);
    res
}

/// The part of all outages between two hours of the day.
fn compute_total_in(events: &Vec<OutageEvent>, lo: u8, hi: u8) -> (res: u128)
    requires
        events@.len() <= MAX_RECORDS,
        hi <= 24,
    ensures
        res == total_in(events@, lo as int, hi as int),
        res <= events@.len() * MAX_OUTAGE,
{
    let mut res: u128 = 0;
    let mut i: usize = 0;
    assert(events@.take(0) == Seq::<OutageEvent>::empty());
    while i < events.len()
        invariant
            i <= events@.len() <= MAX_RECORDS,
            hi <= 24,
            res == total_in(events@.take(i as int), lo as int, hi as int),
            res <= i * MAX_OUTAGE,
        decreases events@.len() - i,
    {
        assert(events@.take(i + 1).drop_last() == events@.take(i as int));
        assert(events@.take(i + 1).last() == events@[i as int]);
        let (_, from, to) = span_of(&events[i]);
        proof {
            law_part_of_span(from as int, to as int, lo as int, hi as int);
        }
        res = res + nanos_in_hours(from, to, lo, hi);
        i += 1;
    }
    assert(events@.take(i as int) == events@);
    res
}

/// The downtime in each quarter of the day.
pub fn compute_hour_bands(events: &Vec<OutageEvent>) -> (res: [u128; 4])
    requires
        events@.len() <= MAX_RECORDS,
    ensures
        forall|b: int|
            0 <= b < 4 ==> #[trigger] res@[b] == total_in(events@, 6 * b, 6 * b + 6),
{
    [
        compute_total_in(events, 0, 6),
        compute_total_in(events, 6, 12),
        compute_total_in(events, 12, 18),
        compute_total_in(events, 18, 24),
    ]
}


// ---------------------------------------------------------------------------
// Time observed
// ---------------------------------------------------------------------------

/// The instant that a text gives as an RFC 3339 date and time, in nanoseconds.
pub open spec fn instant_of(text: Seq<char>) -> Option<int> {
    match rfc3339(text) {
        Some((clock, offset)) => Some(clock - offset * SECOND),
        None => None,
    }
}

/// The instant of a record: when its sample was taken or its outage started.
pub open spec fn record_instant(r: Record) -> Option<int> {
    match r {
        Record::Sample { ts, .. } => instant_of(ts@),
        Record::Outage { event, .. } => Some(event.started.instant()),
        Record::MonitorRestart { .. } => None,
    }
}

/// The instants of all records that have one.
pub open spec fn instants(records: Seq<Record>) -> Seq<int>
    decreases records.len(),
{
    if records.len() == 0 {
        seq![]
    } else {
        let before = instants(records.drop_last());
        match record_instant(records.last()) {
            Some(t) => before.push(t),
            None => before,
        }
    }
}

/// Whether `span` is the distance between the earliest and the latest of some
/// instants, or zero when there are none.
pub open spec fn spans(times: Seq<int>, span: int) -> bool {
    if times.len() == 0 {
        span == 0
    } else {
        exists|i: int, j: int|
            0 <= i < times.len() && 0 <= j < times.len() && span == #[trigger] times[j]
                - #[trigger] times[i] && forall|k: int|
                0 <= k < times.len() ==> times[i] <= #[trigger] times[k] <= times[j]
    }
}

/// The instants of timestamps.
pub open spec fn instants_view(v: Seq<Timestamp>) -> Seq<int> {
    Seq::new(v.len(), |i: int| v[i].instant())
}

fn time_of_record(r: &Record) -> (res: Option<Timestamp>)
    ensures
        res is Some == record_instant(*r) is Some,
        res matches Some(t) ==> record_instant(*r) == Some(t.instant()),
{
    match r {
        Record::Sample { ts, .. } => parse_rfc3339(ts.as_str()),
        Record::Outage { event, .. } => Some(event.started),
        Record::MonitorRestart { .. } => None,
    }
}

fn collect_times(records: &[Record]) -> (res: Vec<Timestamp>)
    ensures
        instants_view(res@) == instants(records@),
{
    let mut res: Vec<Timestamp> = Vec::new();
    let mut i: usize = 0;
    assert(records@.take(0) == Seq::<Record>::empty());
    assert(instants_view(res@) == instants(records@.take(0)));
    while i < records.len()
        invariant
            i <= records@.len(),
            instants_view(res@) == instants(records@.take(i as int)),
        decreases records@.len() - i,
    {
        assert(records@.take(i + 1).drop_last() == records@.take(i as int));
        assert(records@.take(i + 1).last() == records@[i as int]);
        if let Some(t) = time_of_record(&records[i]) {
            let ghost before = res@;
            res.push(t);
            assert(instants_view(res@) == instants_view(before).push(t.instant()));
        }
        i += 1;
    }
    assert(records@.take(i as int) == records@);
    res
}

/// The time from the earliest to the latest of some timestamps.
pub fn time_span(times: &Vec<Timestamp>) -> (res: u128)
    ensures
        spans(instants_view(times@), res as int),
{
    let ghost all = instants_view(times@);
    if times.len() == 0 {
        return 0;
    }
    let mut first: i128 = times[0].instant_nanos();
    let mut last: i128 = first;
    let ghost mut lo: int = 0;
    let ghost mut hi: int = 0;
    let mut i: usize = 1;
    while i < times.len()
        invariant
            1 <= i <= times@.len(),
            all == instants_view(times@),
            0 <= lo < i,
            0 <= hi < i,
            all[lo] == first,
            all[hi] == last,
            forall|k: int| 0 <= k < i ==> first <= #[trigger] all[k] <= last,
            -MAX_OUTAGE <= 2 * first,
            2 * last <= MAX_OUTAGE,
        decreases times@.len() - i,
    {
        let t = times[i].instant_nanos();
        assert(all[i as int] == t);
        if t < first {
            first = t;
            proof {
                lo = i as int;
            }
        }
        if t > last {
            last = t;
            proof {
                hi = i as int;
            }
        }
        i += 1;
    }
    assert(all[lo] <= all[hi]);
    assert((last - first) == all[hi] - all[lo]);
    (last - first) as u128
}

/// The time from the earliest to the latest timestamp of the records.
pub fn compute_time_observed(records: &[Record]) -> (res: u128)
    ensures
        spans(instants(records@), res as int),
{
    time_span(&collect_times(records))
}

// ---------------------------------------------------------------------------
// Temperature
// ---------------------------------------------------------------------------

/// The temperature of a record, with its instant.
pub open spec fn record_reading(r: Record) -> Option<(int, Quantity)> {
    match r {
        Record::Sample { ts, temp_c, .. } => match (instant_of(ts@), temp_c) {
            (Some(t), Some(c)) => Some((t, c)),
            _ => None,
        },
        _ => None,
    }
}

/// The temperatures in the records, in the order of the log.
pub open spec fn readings(records: Seq<Record>) -> Seq<(int, Quantity)>
    decreases records.len(),
{
    if records.len() == 0 {
        seq![]
    } else {
        let before = readings(records.drop_last());
        match record_reading(records.last()) {
            Some(r) => before.push(r),
            None => before,
        }
    }
}

/// The last reading in the log that was not taken after an instant.
pub open spec fn reading_before(temps: Seq<(int, Quantity)>, t: int) -> Option<Quantity>
    decreases temps.len(),
{
    if temps.len() == 0 {
        None
    } else if temps.last().0 <= t {
        Some(temps.last().1)
    } else {
        reading_before(temps.drop_last(), t)
    }
}

/// The temperature that counts at an instant: that of the last reading in the
/// log that was not taken after it, or else of the first reading in the log.
pub open spec fn reading_at(temps: Seq<(int, Quantity)>, t: int) -> Option<Quantity> {
    if reading_before(temps, t) is Some {
        reading_before(temps, t)
    } else if temps.len() > 0 {
        Some(temps[0].1)
    } else {
        None
    }
}

/// Whether the temperature that counts at an instant is above a threshold.
pub open spec fn warm_at(temps: Seq<(int, Quantity)>, t: int, threshold: Quantity) -> bool {
    match reading_at(temps, t) {
        Some(c) => c.above(threshold),
        None => false,
    }
}

/// The part of a span between the hours `lo` and `hi` that lies in hours at
/// whose start, or at the start of the span, it was warm. The clock is ahead of
/// UTC by `ahead` nanoseconds.
pub open spec fn warm_time(
    from: int,
    to: int,
    lo: int,
    hi: int,
    ahead: int,
    temps: Seq<(int, Quantity)>,
    threshold: Quantity,
) -> int
    decreases to - from,
{
    if from >= to {
        0
    } else {
        let n = slice_end(from, to);
        let counted = lo <= hour_of(from) < hi && warm_at(temps, from - ahead, threshold);
        (if counted {
            n - from
        } else {
            0
        }) + warm_time(n, to, lo, hi, ahead, temps, threshold)
    }
}

/// The warm part of an outage between two hours of the day.
pub open spec fn warm_downtime(
    e: OutageEvent,
    lo: int,
    hi: int,
    temps: Seq<(int, Quantity)>,
    threshold: Quantity,
) -> int {
    warm_time(
        e.started.clock(),
        e.started.clock() + duration(e),
        lo,
        hi,
        e.started.offset() * SECOND,
        temps,
        threshold,
    )
}

/// The warm part of all outages between two hours of the day.
pub open spec fn total_warm(
    events: Seq<OutageEvent>,
    lo: int,
    hi: int,
    temps: Seq<(int, Quantity)>,
    threshold: Quantity,
) -> int
    decreases events.len(),
{
    if events.len() == 0 {
        0
    } else {
        total_warm(events.drop_last(), lo, hi, temps, threshold) + warm_downtime(
            events.last(),
            lo,
            hi,
            temps,
            threshold,
        )
    }
}

/// The hour at which a window ends that is asked to end at `h`.
pub open spec fn window_end(h: u8) -> int {
    if h > 24 {
        24
    } else {
        h as int
    }
}

/// The temperature correlation for some readings: nothing without a temperature
/// or without downtime in the window.
pub open spec fn correlation_of(
    temps: Seq<(int, Quantity)>,
    events: Seq<OutageEvent>,
    cfg: DossierConfig,
) -> Option<TempCorrelation> {
    let lo = cfg.daytime_start as int;
    let hi = window_end(cfg.daytime_end);
    if temps.len() == 0 || total_in(events, lo, hi) == 0 {
        None
    } else {
        Some(
            TempCorrelation {
                downtime_in_window: total_in(events, lo, hi) as u128,
                downtime_above_threshold: total_warm(
                    events,
                    lo,
                    hi,
                    temps,
                    cfg.temp_threshold,
                ) as u128,
            },
        )
    }
}

/// The temperature correlation for the readings in the records.
pub open spec fn correlation(
    records: Seq<Record>,
    events: Seq<OutageEvent>,
    cfg: DossierConfig,
) -> Option<TempCorrelation> {
    correlation_of(readings(records), events, cfg)
}

/// The readings as they are held, as mathematical values.
pub open spec fn readings_view(v: Seq<(i128, Quantity)>) -> Seq<(int, Quantity)> {
    Seq::new(v.len(), |i: int| (v[i].0 as int, v[i].1))
}

fn collect_readings(records: &[Record]) -> (res: Vec<(i128, Quantity)>)
    ensures
        readings_view(res@) == readings(records@),
{
    let mut res: Vec<(i128, Quantity)> = Vec::new();
    let mut i: usize = 0;
    assert(records@.take(0) == Seq::<Record>::empty());
    assert(readings_view(res@) == readings(records@.take(0)));
    while i < records.len()
        invariant
            i <= records@.len(),
            readings_view(res@) == readings(records@.take(i as int)),
        decreases records@.len() - i,
    {
        assert(records@.take(i + 1).drop_last() == records@.take(i as int));
        assert(records@.take(i + 1).last() == records@[i as int]);
        match &records[i] {
            Record::Sample { temp_c: Some(c), .. } => {
                if let Some(t) = time_of_record(&records[i]) {
                    let ghost before = res@;
                    res.push((t.instant_nanos(), *c));
                    assert(readings_view(res@) == readings_view(before).push((t.instant(), *c)));
                }
            },
            _ => {},
        }
        i += 1;
    }
    assert(records@.take(i as int) == records@);
    res
}

fn is_warm_at(temps: &Vec<(i128, Quantity)>, t: i128, threshold: Quantity) -> (res: bool)
    ensures
        res == warm_at(readings_view(temps@), t as int, threshold),
{
    let ghost all = readings_view(temps@);
    let mut i: usize = temps.len();
    assert(all.take(i as int) == all);
    while i > 0
        invariant
            i <= temps@.len(),
            all == readings_view(temps@),
            reading_before(all, t as int) == reading_before(all.take(i as int), t as int),
        decreases i,
    {
        assert(all.take(i as int).last() == all[i - 1]);
        assert(all.take(i as int).drop_last() == all.take(i - 1));
        if temps[i - 1].0 <= t {
            return temps[i - 1].1.is_above(threshold);
        }
        i -= 1;
    }
    if temps.len() > 0 {
        temps[0].1.is_above(threshold)
    } else {
        false
    }
}

proof fn lemma_warm_part(
    from: int,
    to: int,
    lo: int,
    hi: int,
    ahead: int,
    temps: Seq<(int, Quantity)>,
    threshold: Quantity,
)
    requires
        from <= to,
        0 <= lo,
        hi <= 24,
    ensures
        0 <= warm_time(from, to, lo, hi, ahead, temps, threshold) <= time_in_hours(from, to, lo, hi),
        lo >= hi ==> warm_time(from, to, lo, hi, ahead, temps, threshold) == 0,
    decreases to - from,
{
    if from < to {
        let n = slice_end(from, to);
        if lo < hi {
            law_slice(from, to, lo, hi);
            law_cut(from, n, to, lo, hi);
        } else {
            law_slice(from, to, 0, 24);
        }
        lemma_warm_part(n, to, lo, hi, ahead, temps, threshold);
    }
}

fn warm_nanos(
    e: &OutageEvent,
    lo: u8,
    hi: u8,
    temps: &Vec<(i128, Quantity)>,
    threshold: Quantity,
) -> (res: u128)
    requires
        hi <= 24,
    ensures
        res == warm_downtime(*e, lo as int, hi as int, readings_view(temps@), threshold),
        res <= downtime_in(*e, lo as int, hi as int),
        res <= MAX_OUTAGE,
{
    let (d, from, to) = span_of(e);
    let ahead: i128 = e.started.offset_secs() as i128 * SECOND;
    let ghost view = readings_view(temps@);
    let mut cursor: i128 = from;
    let mut res: u128 = 0;
    while cursor < to
        invariant
            -crate::daytime::MAX_READING <= from <= cursor <= to <= crate::daytime::MAX_READING,
            -MAX_OUTAGE <= ahead <= MAX_OUTAGE,
            res <= cursor - from,
            hi <= 24,
            view == readings_view(temps@),
            res + warm_time(
                cursor as int,
                to as int,
                lo as int,
                hi as int,
                ahead as int,
                view,
                threshold,
            ) == warm_time(
                from as int,
                to as int,
                lo as int,
                hi as int,
                ahead as int,
                view,
                threshold,
            ),
        decreases to - cursor,
    {
        let next = next_slice(cursor, to);
        let h = hour(cursor);
        if lo <= h && h < hi && is_warm_at(temps, cursor - ahead, threshold) {
            res = res + (next - cursor) as u128;
        }
        cursor = next;
    }
    proof {
        lemma_warm_part(
            from as int,
            to as int,
            lo as int,
            hi as int,
            ahead as int,
            view,
            threshold,
        );
        law_part_of_span(from as int, to as int, lo as int, hi as int);
    }
    res
}

fn compute_total_warm(
    events: &Vec<OutageEvent>,
    lo: u8,
    hi: u8,
    temps: &Vec<(i128, Quantity)>,
    threshold: Quantity,
) -> (res: u128)
    requires
        events@.len() <= MAX_RECORDS,
        hi <= 24,
    ensures
        res == total_warm(events@, lo as int, hi as int, readings_view(temps@), threshold),
{
    let mut res: u128 = 0;
    let mut i: usize = 0;
    assert(events@.take(0) == Seq::<OutageEvent>::empty());
    while i < events.len()
        invariant
            i <= events@.len() <= MAX_RECORDS,
            hi <= 24,
            res == total_warm(
                events@.take(i as int),
                lo as int,
                hi as int,
                readings_view(temps@),
                threshold,
            ),
            res <= i * MAX_OUTAGE,
        decreases events@.len() - i,
    {
        assert(events@.take(i + 1).drop_last() == events@.take(i as int));
        assert(events@.take(i + 1).last() == events@[i as int]);
        res = res + warm_nanos(&events[i], lo, hi, temps, threshold);
        i += 1;
    }
    assert(events@.take(i as int) == events@);
    res
}

/// The downtime in the daytime window, and the part of it above the
/// temperature threshold, for readings with their instants in nanoseconds.
pub fn correlate(
    temps: &Vec<(i128, Quantity)>,
    events: &Vec<OutageEvent>,
    cfg: &DossierConfig,
) -> (res: Option<TempCorrelation>)
    requires
        events@.len() <= MAX_RECORDS,
    ensures
        res == correlation_of(readings_view(temps@), events@, *cfg),
{
    if temps.len() == 0 {
        return None;
    }
    let hi: u8 = if cfg.daytime_end > 24 {
        24
    } else {
        cfg.daytime_end
    };
    let downtime_in_window = compute_total_in(events, cfg.daytime_start, hi);
    let downtime_above_threshold = compute_total_warm(
        events,
        cfg.daytime_start,
        hi,
        temps,
        cfg.temp_threshold,
    );
    if downtime_in_window == 0 {
        return None;
    }
    Some(TempCorrelation { downtime_in_window, downtime_above_threshold })
}

/// The downtime in the daytime window, and the part of it above the
/// temperature threshold, for the readings in the records.
pub fn compute_temp_correlation(
    records: &[Record],
    events: &Vec<OutageEvent>,
    cfg: &DossierConfig,
) -> (res: Option<TempCorrelation>)
    requires
        events@.len() <= MAX_RECORDS,
    ensures
        res == correlation(records@, events@, *cfg),
{
    correlate(&collect_readings(records), events, cfg)
}

// ---------------------------------------------------------------------------
// Indemnities
// ---------------------------------------------------------------------------

/// The daily rate for a category.
pub open spec fn rate_for(category: AgcomCategory, tariff: Tariff) -> Quantity {
    match category {
        AgcomCategory::CompleteInterruption => tariff.complete_per_day,
        AgcomCategory::IrregularService => tariff.irregular_per_day,
    }
}

/// The part of a duration that goes beyond a repair window.
pub open spec fn beyond_window(nanos: int, days: u32) -> int {
    if nanos > days * DAY {
        nanos - days * DAY
    } else {
        0
    }
}

/// How a timestamp is displayed.
pub open spec fn display(t: Timestamp) -> Seq<char> {
    timestamp_display(t.clock(), t.offset())
}

/// Whether a line gives the indemnity for an outage whose start and end are
/// displayed as given.
pub open spec fn indemnifies_as(
    line: IndemnityLine,
    start: Seq<char>,
    end: Seq<char>,
    e: OutageEvent,
    charter: ServiceCharter,
    tariff: Tariff,
) -> bool {
    &&& line.event_start@ == start
    &&& line.event_end@ == end
    &&& line.duration == duration(e)
    &&& line.category@ == label_of_category(e.category)
    &&& line.repair_window_days == charter.repair_window_days
    &&& line.tariff_daily == rate_for(e.category, tariff)
    &&& line.effective == beyond_window(duration(e), charter.repair_window_days)
}

/// Whether a line gives the indemnity for an outage.
pub open spec fn indemnifies(
    line: IndemnityLine,
    e: OutageEvent,
    charter: ServiceCharter,
    tariff: Tariff,
) -> bool {
    e.ended is Some && indemnifies_as(
        line,
        display(e.started),
        display(e.ended->0),
        e,
        charter,
        tariff,
    )
}

/// The indemnity for an outage whose start and end are displayed as given.
pub fn indemnity_line(
    event_start: String,
    event_end: String,
    event: &OutageEvent,
    charter: &ServiceCharter,
    tariff: &Tariff,
) -> (res: IndemnityLine)
    ensures
        indemnifies_as(res, event_start@, event_end@, *event, *charter, *tariff),
{
    let (nanos, _, _) = span_of(event);
    let window: u128 = charter.repair_window_days as u128 * 86_400_000_000_000;
    let effective: u128 = if nanos > window {
        nanos - window
    } else {
        0
    };
    let tariff_daily = match event.category {
        AgcomCategory::CompleteInterruption => tariff.complete_per_day,
        AgcomCategory::IrregularService => tariff.irregular_per_day,
    };
    IndemnityLine {
        event_start,
        event_end,
        duration: nanos,
        category: category_label(&event.category).to_owned(),
        repair_window_days: charter.repair_window_days,
        tariff_daily,
        effective,
    }
}

/// The indemnity for an outage; none is due while the outage has not ended.
pub fn compute_indemnity(event: &OutageEvent, charter: &ServiceCharter, tariff: &Tariff) -> (res:
    Option<IndemnityLine>)
    ensures
        res is Some == event.ended is Some,
        res matches Some(line) ==> indemnifies(line, *event, *charter, *tariff),
{
    match &event.ended {
        Some(end) => {
            let event_start = timestamp_text(&event.started);
            let event_end = timestamp_text(end);
            Some(indemnity_line(event_start, event_end, event, charter, tariff))
        },
        None => None,
    }
}

// ---------------------------------------------------------------------------
// Projection
// ---------------------------------------------------------------------------

/// Projects the log, given as its documents and as the records in them, to a
/// dossier.
pub fn project(
    lines: &[Json],
    records: &[Record],
    charter: &ServiceCharter,
    tariff: &Tariff,
    cfg: &DossierConfig,
) -> (res: Dossier)
    requires
        records@.len() <= MAX_RECORDS,
    ensures
        res.chain_status == status_of_chain(documents(lines@)),
        spans(instants(records@), res.observed as int),
        res.outage_count == closed_events(records@).len() as u32,
        res.total_downtime == total_duration(closed_events(records@)),
        forall|b: int|
            0 <= b < 4 ==> #[trigger] res.downtime_by_hour_band@[b] == total_in(
                closed_events(records@),
                6 * b,
                6 * b + 6,
            ),
        res.temp_correlation == correlation(records@, closed_events(records@), *cfg),
        res.per_event_indemnities@.len() == closed_events(records@).len(),
        forall|i: int|
            0 <= i < res.per_event_indemnities@.len() ==> indemnifies(
                #[trigger] res.per_event_indemnities@[i],
                closed_events(records@)[i],
                *charter,
                *tariff,
            ),
{
    let chain_status = verify_chain(lines);
    let outages = collect_outages(records);
    let observed = compute_time_observed(records);
    let total_downtime = compute_total_downtime(&outages);
    let downtime_by_hour_band = compute_hour_bands(&outages);
    let temp_correlation = compute_temp_correlation(records, &outages, cfg);
    let mut per_event_indemnities: Vec<IndemnityLine> = Vec::new();
    proof {
        lemma_closed_ended(records@);
    }
    let mut i: usize = 0;
    while i < outages.len()
        invariant
            i <= outages@.len(),
            per_event_indemnities@.len() == i,
            forall|j: int| 0 <= j < outages@.len() ==> (#[trigger] outages@[j]).ended is Some,
            forall|j: int|
                0 <= j < i ==> indemnifies(
                    #[trigger] per_event_indemnities@[j],
                    outages@[j],
                    *charter,
                    *tariff,
                ),
        decreases outages@.len() - i,
    {
        if let Some(line) = compute_indemnity(&outages[i], charter, tariff) {
            per_event_indemnities.push(line);
        }
        i += 1;
    }
    Dossier {
        chain_status,
        observed,
        outage_count: outages.len() as u32,
        total_downtime,
        downtime_by_hour_band,
        temp_correlation,
        per_event_indemnities,
    }
}

proof fn lemma_closed_ended(records: Seq<Record>)
    ensures
        forall|i: int|
            0 <= i < closed_events(records).len() ==> (#[trigger] closed_events(
                records,
            )[i]).ended is Some,
    decreases records.len(),
{
    if records.len() > 0 {
        lemma_closed_ended(records.drop_last());
    }
}

// ---------------------------------------------------------------------------
// Laws
// ---------------------------------------------------------------------------

/// The four quarters of the day make up the total downtime.
pub proof fn law_bands_make_total(events: Seq<OutageEvent>)
    ensures
        total_in(events, 0, 6) + total_in(events, 6, 12) + total_in(events, 12, 18) + total_in(
            events,
            18,
            24,
        ) == total_duration(events),
    decreases events.len(),
{
    if events.len() > 0 {
        let e = events.last();
        law_bands_make_total(events.drop_last());
        law_quarters(e.started.clock(), e.started.clock() + duration(e));
    }
}

/// The downtime in a window is a part of the total downtime.
pub proof fn law_window_within_total(events: Seq<OutageEvent>, lo: int, hi: int)
    requires
        0 <= lo,
        hi <= 24,
    ensures
        0 <= total_in(events, lo, hi) <= total_duration(events),
    decreases events.len(),
{
    if events.len() > 0 {
        let e = events.last();
        law_window_within_total(events.drop_last(), lo, hi);
        law_part_of_span(e.started.clock(), e.started.clock() + duration(e), lo, hi);
    }
}

/// The downtime above the threshold is a part of the downtime in the window.
pub proof fn law_warm_within_window(
    events: Seq<OutageEvent>,
    lo: int,
    hi: int,
    temps: Seq<(int, Quantity)>,
    threshold: Quantity,
)
    requires
        0 <= lo,
        hi <= 24,
    ensures
        0 <= total_warm(events, lo, hi, temps, threshold) <= total_in(events, lo, hi),
    decreases events.len(),
{
    if events.len() > 0 {
        let e = events.last();
        law_warm_within_window(events.drop_last(), lo, hi, temps, threshold);
        lemma_warm_part(
            e.started.clock(),
            e.started.clock() + duration(e),
            lo,
            hi,
            e.started.offset() * SECOND,
            temps,
            threshold,
        );
    }
}

/// Indemnity accrues exactly for the time beyond the repair window; none
/// accrues for an outage within it, and without a window all of it counts.
pub proof fn law_repair_window(e: OutageEvent, days: u32)
    ensures
        beyond_window(duration(e), days) == 0 <==> duration(e) <= days * DAY,
        0 <= beyond_window(duration(e), days) <= duration(e),
        beyond_window(duration(e), 0) == duration(e),
{
}

/// Indemnity accrues for exactly what is left of an outage after as many whole
/// days as the repair window has.
pub proof fn law_window_is_taken_off(e: OutageEvent, days: u32)
    ensures
        duration(e) >= days * 86_400_000_000_000 ==> beyond_window(duration(e), days) + days
            * 86_400_000_000_000 == duration(e),
        duration(e) <= days * 86_400_000_000_000 ==> beyond_window(duration(e), days) == 0,
{
}

/// Every outage record with an end is in the dossier, once and in the order of
/// the log, and nothing else is: the places of the outages in the log ascend, and
/// each record with an ended outage is at one of them.
pub proof fn law_every_closed_outage_counts(records: Seq<Record>) -> (places: Seq<int>)
    ensures
        places.len() == closed_events(records).len(),
        forall|a: int, b: int|
            0 <= a < b < places.len() ==> #[trigger] places[a] < #[trigger] places[b],
        forall|a: int|
            0 <= a < places.len() ==> 0 <= #[trigger] places[a] < records.len()
                && records[places[a]] is Outage && records[places[a]]->event == closed_events(
                records,
            )[a] && closed_events(records)[a].ended is Some,
        forall|i: int|
            0 <= i < records.len() && #[trigger] records[i] is Outage && records[i]->event.ended
                is Some ==> places.contains(i),
    decreases records.len(),
{
    if records.len() == 0 {
        Seq::empty()
    } else {
        let head = records.drop_last();
        let before = law_every_closed_outage_counts(head);
        let n = records.len() - 1;
        assert(forall|i: int| 0 <= i < n ==> head[i] == records[i]);
        if records.last() is Outage && records.last()->event.ended is Some {
            let places = before.push(n);
            assert(places[places.len() - 1] == n);
            assert forall|i: int|
                0 <= i < records.len() && #[trigger] records[i] is Outage && records[i]->event.ended
                    is Some implies places.contains(i) by {
                if i < n {
                    assert(head[i] is Outage);
                    let k = before.index_of(i);
                    assert(places[k] == i);
                }
            }
            places
        } else {
            assert forall|i: int|
                0 <= i < records.len() && #[trigger] records[i] is Outage && records[i]->event.ended
                    is Some implies before.contains(i) by {
                assert(head[i] is Outage);
            }
            before
        }
    }
}

/// The outages of a log that goes on are those of its beginning, followed by
/// those of the rest.
pub proof fn law_outages_of_a_longer_log(a: Seq<Record>, b: Seq<Record>)
    ensures
        closed_events(a + b) == closed_events(a) + closed_events(b),
    decreases b.len(),
{
    if b.len() == 0 {
        assert(a + b == a);
        assert(closed_events(a) + closed_events(b) == closed_events(a));
    } else {
        assert((a + b).last() == b.last());
        assert((a + b).drop_last() == a + b.drop_last());
        law_outages_of_a_longer_log(a, b.drop_last());
        assert(closed_events(a + b) == closed_events(a) + closed_events(b));
    }
}

/// An outage lasts from its start to its end on the clock of UTC, whatever the
/// offsets of the two, and never less than nothing.
pub proof fn law_duration_is_end_minus_start(e: OutageEvent, end: Timestamp)
    requires
        e.ended == Some(end),
    ensures
        ({
            let span = (end.clock() - end.offset() * 1_000_000_000) - (e.started.clock()
                - e.started.offset() * 1_000_000_000);
            &&& span >= 0 ==> duration(e) == span
            &&& span <= 0 ==> duration(e) == 0
        }),
{
}

/// What holds for all outages together is the sum of what holds for some and for
/// the rest.
pub proof fn law_totals_add_up(
    a: Seq<OutageEvent>,
    b: Seq<OutageEvent>,
    lo: int,
    hi: int,
    temps: Seq<(int, Quantity)>,
    threshold: Quantity,
)
    ensures
        total_duration(a + b) == total_duration(a) + total_duration(b),
        total_in(a + b, lo, hi) == total_in(a, lo, hi) + total_in(b, lo, hi),
        total_warm(a + b, lo, hi, temps, threshold) == total_warm(a, lo, hi, temps, threshold)
            + total_warm(b, lo, hi, temps, threshold),
    decreases b.len(),
{
    if b.len() == 0 {
        assert(a + b == a);
    } else {
        assert((a + b).last() == b.last());
        assert((a + b).drop_last() == a + b.drop_last());
        law_totals_add_up(a, b.drop_last(), lo, hi, temps, threshold);
    }
}

/// The totals of one outage are those of that outage.
pub proof fn law_totals_of_one(
    e: OutageEvent,
    lo: int,
    hi: int,
    temps: Seq<(int, Quantity)>,
    threshold: Quantity,
)
    ensures
        total_duration(seq![e]) == duration(e),
        total_in(seq![e], lo, hi) == downtime_in(e, lo, hi),
        total_warm(seq![e], lo, hi, temps, threshold) == warm_downtime(
            e,
            lo,
            hi,
            temps,
            threshold,
        ),
{
    let one = seq![e];
    assert(one.drop_last() == Seq::<OutageEvent>::empty());
    assert(one.last() == e);
    reveal_with_fuel(total_duration, 2);
    reveal_with_fuel(total_in, 2);
    reveal_with_fuel(total_warm, 2);
}

/// Every outage adds its whole duration, however short or long it was: without
/// it, the total downtime is less by exactly its duration.
pub proof fn law_every_outage_adds_its_duration(events: Seq<OutageEvent>, i: int)
    requires
        0 <= i < events.len(),
    ensures
        total_duration(events) == total_duration(events.remove(i)) + duration(events[i]),
        forall|lo: int, hi: int| #[trigger]
            total_in(events, lo, hi) == total_in(events.remove(i), lo, hi) + downtime_in(
                events[i],
                lo,
                hi,
            ),
{
    let a = events.take(i);
    let b = events.skip(i + 1);
    let one = seq![events[i]];
    let none: Seq<(int, Quantity)> = Seq::empty();
    let q = Quantity { bits: 0 };
    assert(events == a + (one + b));
    assert(events.remove(i) == a + b);
    law_totals_add_up(a, one + b, 0, 0, none, q);
    law_totals_add_up(one, b, 0, 0, none, q);
    law_totals_add_up(a, b, 0, 0, none, q);
    law_totals_of_one(events[i], 0, 0, none, q);
    assert forall|lo: int, hi: int| #[trigger]
        total_in(events, lo, hi) == total_in(events.remove(i), lo, hi) + downtime_in(
            events[i],
            lo,
            hi,
        ) by {
        law_totals_add_up(a, one + b, lo, hi, none, q);
        law_totals_add_up(one, b, lo, hi, none, q);
        law_totals_add_up(a, b, lo, hi, none, q);
        law_totals_of_one(events[i], lo, hi, none, q);
    }
}

/// Every sample whose time can be read and every outage tells when the line was
/// observed, and nothing else does: the places of the instants in the log ascend,
/// and each record that has an instant is at one of them.
pub proof fn law_every_instant_counts(records: Seq<Record>) -> (places: Seq<int>)
    ensures
        places.len() == instants(records).len(),
        forall|a: int, b: int|
            0 <= a < b < places.len() ==> #[trigger] places[a] < #[trigger] places[b],
        forall|a: int|
            0 <= a < places.len() ==> 0 <= #[trigger] places[a] < records.len() && (
            match records[places[a]] {
                Record::Sample { ts, .. } => rfc3339(ts@) is Some && instants(records)[a] == (
                rfc3339(ts@)->0).0 - (rfc3339(ts@)->0).1 * 1_000_000_000,
                Record::Outage { event, .. } => instants(records)[a] == event.started.clock()
                    - event.started.offset() * 1_000_000_000,
                Record::MonitorRestart { .. } => false,
            }),
        forall|i: int|
            0 <= i < records.len() && (match #[trigger] records[i] {
                Record::Sample { ts, .. } => rfc3339(ts@) is Some,
                Record::Outage { .. } => true,
                Record::MonitorRestart { .. } => false,
            }) ==> places.contains(i),
    decreases records.len(),
{
    if records.len() == 0 {
        Seq::empty()
    } else {
        let head = records.drop_last();
        let before = law_every_instant_counts(head);
        let n = records.len() - 1;
        assert(forall|i: int| 0 <= i < n ==> head[i] == records[i]);
        if record_instant(records.last()) is Some {
            let places = before.push(n);
            assert(places[places.len() - 1] == n);
            assert forall|i: int|
                0 <= i < records.len() && (match #[trigger] records[i] {
                    Record::Sample { ts, .. } => rfc3339(ts@) is Some,
                    Record::Outage { .. } => true,
                    Record::MonitorRestart { .. } => false,
                }) implies places.contains(i) by {
                if i < n {
                    assert(head[i] == records[i]);
                    let k = before.index_of(i);
                    assert(places[k] == i);
                }
            }
            places
        } else {
            assert forall|i: int|
                0 <= i < records.len() && (match #[trigger] records[i] {
                    Record::Sample { ts, .. } => rfc3339(ts@) is Some,
                    Record::Outage { .. } => true,
                    Record::MonitorRestart { .. } => false,
                }) implies before.contains(i) by {
                assert(head[i] == records[i]);
            }
            before
        }
    }
}

/// No two records lie further apart than the time observed, and two of them lie
/// exactly that far apart.
pub proof fn law_time_observed(times: Seq<int>, span: int)
    requires
        spans(times, span),
    ensures
        forall|i: int, j: int|
            0 <= i < times.len() && 0 <= j < times.len() ==> #[trigger] times[j]
                - #[trigger] times[i] <= span,
        times.len() > 0 ==> exists|i: int, j: int|
            0 <= i < times.len() && 0 <= j < times.len() && #[trigger] times[j]
                - #[trigger] times[i] == span,
        times.len() == 0 ==> span == 0,
{
}

/// Every sample with a temperature and a time that can be read gives a reading,
/// in the order of the log, and nothing else does.
pub proof fn law_every_reading_counts(records: Seq<Record>) -> (places: Seq<int>)
    ensures
        places.len() == readings(records).len(),
        forall|a: int, b: int|
            0 <= a < b < places.len() ==> #[trigger] places[a] < #[trigger] places[b],
        forall|a: int|
            0 <= a < places.len() ==> 0 <= #[trigger] places[a] < records.len() && (
            match records[places[a]] {
                Record::Sample { ts, temp_c, .. } => rfc3339(ts@) is Some && temp_c is Some
                    && readings(records)[a].0 == (rfc3339(ts@)->0).0 - (rfc3339(ts@)->0).1
                    * 1_000_000_000 && readings(records)[a].1 == temp_c->0,
                _ => false,
            }),
        forall|i: int|
            0 <= i < records.len() && (match #[trigger] records[i] {
                Record::Sample { ts, temp_c, .. } => rfc3339(ts@) is Some && temp_c is Some,
                _ => false,
            }) ==> places.contains(i),
    decreases records.len(),
{
    if records.len() == 0 {
        Seq::empty()
    } else {
        let head = records.drop_last();
        let before = law_every_reading_counts(head);
        let n = records.len() - 1;
        assert(forall|i: int| 0 <= i < n ==> head[i] == records[i]);
        if record_reading(records.last()) is Some {
            let places = before.push(n);
            assert(places[places.len() - 1] == n);
            assert forall|i: int|
                0 <= i < records.len() && (match #[trigger] records[i] {
                    Record::Sample { ts, temp_c, .. } => rfc3339(ts@) is Some && temp_c is Some,
                    _ => false,
                }) implies places.contains(i) by {
                if i < n {
                    assert(head[i] == records[i]);
                    let k = before.index_of(i);
                    assert(places[k] == i);
                }
            }
            places
        } else {
            assert forall|i: int|
                0 <= i < records.len() && (match #[trigger] records[i] {
                    Record::Sample { ts, temp_c, .. } => rfc3339(ts@) is Some && temp_c is Some,
                    _ => false,
                }) implies before.contains(i) by {
                assert(head[i] == records[i]);
            }
            before
        }
    }
}

/// The last reading in the log that was not taken after an instant gives the
/// temperature at it, however old it is.
pub proof fn law_latest_reading_counts(
    temps: Seq<(int, Quantity)>,
    t: int,
    k: int,
    threshold: Quantity,
)
    requires
        0 <= k < temps.len(),
        temps[k].0 <= t,
        forall|j: int| k < j < temps.len() ==> (#[trigger] temps[j]).0 > t,
    ensures
        reading_at(temps, t) == Some(temps[k].1),
        warm_at(temps, t, threshold) == temps[k].1.above(threshold),
{
    lemma_latest_reading(temps, t, k);
}

proof fn lemma_latest_reading(temps: Seq<(int, Quantity)>, t: int, k: int)
    requires
        0 <= k < temps.len(),
        temps[k].0 <= t,
        forall|j: int| k < j < temps.len() ==> (#[trigger] temps[j]).0 > t,
    ensures
        reading_before(temps, t) == Some(temps[k].1),
    decreases temps.len(),
{
    if k < temps.len() - 1 {
        assert(temps[temps.len() - 1].0 > t);
        assert(forall|j: int| 0 <= j < temps.len() - 1 ==> temps.drop_last()[j] == temps[j]);
        lemma_latest_reading(temps.drop_last(), t, k);
    }
}

/// Only at an instant before all readings does the first reading in the log give
/// the temperature; without a reading there is none, and nothing is warm.
pub proof fn law_first_reading_counts_before_all(
    temps: Seq<(int, Quantity)>,
    t: int,
    threshold: Quantity,
)
    requires
        forall|j: int| 0 <= j < temps.len() ==> (#[trigger] temps[j]).0 > t,
    ensures
        temps.len() > 0 ==> reading_at(temps, t) == Some(temps[0].1),
        temps.len() > 0 ==> warm_at(temps, t, threshold) == temps[0].1.above(threshold),
        temps.len() == 0 ==> reading_at(temps, t) is None,
        temps.len() == 0 ==> !warm_at(temps, t, threshold),
{
    lemma_no_reading_before(temps, t);
}

proof fn lemma_no_reading_before(temps: Seq<(int, Quantity)>, t: int)
    requires
        forall|j: int| 0 <= j < temps.len() ==> (#[trigger] temps[j]).0 > t,
    ensures
        reading_before(temps, t) is None,
    decreases temps.len(),
{
    if temps.len() > 0 {
        assert(temps[temps.len() - 1].0 > t);
        assert(forall|j: int| 0 <= j < temps.len() - 1 ==> temps.drop_last()[j] == temps[j]);
        lemma_no_reading_before(temps.drop_last(), t);
    }
}

/// A span within one hour counts in full when that hour lies in the window and
/// the temperature at the start of the span is above the threshold, and not at
/// all otherwise.
pub proof fn law_warm_within_hour(
    from: int,
    to: int,
    lo: int,
    hi: int,
    ahead: int,
    temps: Seq<(int, Quantity)>,
    threshold: Quantity,
)
    requires
        from < to,
        from / 3_600_000_000_000 == (to - 1) / 3_600_000_000_000,
    ensures
        warm_time(from, to, lo, hi, ahead, temps, threshold) == if lo <= (from
            / 3_600_000_000_000) % 24 < hi && warm_at(temps, from - ahead, threshold) {
            to - from
        } else {
            0
        },
{
    crate::daytime::law_hour_of_day(from);
    assert(slice_end(from, to) == to);
    reveal_with_fuel(warm_time, 2);
}

/// A span that is cut at a full hour counts as much as its parts.
pub proof fn law_warm_cut(
    from: int,
    mid: int,
    to: int,
    lo: int,
    hi: int,
    ahead: int,
    temps: Seq<(int, Quantity)>,
    threshold: Quantity,
)
    requires
        from <= mid <= to,
        mid % 3_600_000_000_000 == 0,
    ensures
        warm_time(from, to, lo, hi, ahead, temps, threshold) == warm_time(
            from,
            mid,
            lo,
            hi,
            ahead,
            temps,
            threshold,
        ) + warm_time(mid, to, lo, hi, ahead, temps, threshold),
    decreases mid - from,
{
    if from < mid {
        let n = slice_end(from, to);
        assert((from / (HOUR as int) + 1) * HOUR <= mid);
        assert(slice_end(from, mid) == n);
        assert(from < n <= mid);
        law_warm_cut(n, mid, to, lo, hi, ahead, temps, threshold);
    }
}

/// An outage within one hour counts in the window by the hour in which it started
/// on its own clock, and as warm by the temperature when it started.
pub proof fn law_short_outage(
    e: OutageEvent,
    lo: int,
    hi: int,
    temps: Seq<(int, Quantity)>,
    threshold: Quantity,
)
    requires
        duration(e) > 0,
        e.started.clock() % 3_600_000_000_000 + duration(e) <= 3_600_000_000_000,
        0 <= lo,
        hi <= 24,
    ensures
        ({
            let within = lo <= (e.started.clock() / 3_600_000_000_000) % 24 < hi;
            let start = e.started.clock() - e.started.offset() * 1_000_000_000;
            &&& downtime_in(e, lo, hi) == if within {
                duration(e)
            } else {
                0
            }
            &&& warm_downtime(e, lo, hi, temps, threshold) == if within && warm_at(
                temps,
                start,
                threshold,
            ) {
                duration(e)
            } else {
                0
            }
        }),
{
    let from = e.started.clock();
    let to = from + duration(e);
    assert(from / 3_600_000_000_000 == (to - 1) / 3_600_000_000_000);
    crate::daytime::law_span_within_hour(from, to, lo, hi);
    law_warm_within_hour(from, to, lo, hi, e.started.offset() * SECOND, temps, threshold);
}

/// When every reading is above the threshold, all downtime in the window is warm;
/// when none is, no downtime is.
pub proof fn law_one_sided_readings(
    events: Seq<OutageEvent>,
    lo: int,
    hi: int,
    temps: Seq<(int, Quantity)>,
    threshold: Quantity,
)
    requires
        0 <= lo,
        hi <= 24,
        temps.len() > 0,
    ensures
        (forall|j: int| 0 <= j < temps.len() ==> (#[trigger] temps[j]).1.above(threshold))
            ==> total_warm(events, lo, hi, temps, threshold) == total_in(events, lo, hi),
        (forall|j: int| 0 <= j < temps.len() ==> !(#[trigger] temps[j]).1.above(threshold))
            ==> total_warm(events, lo, hi, temps, threshold) == 0,
    decreases events.len(),
{
    if events.len() > 0 {
        let e = events.last();
        law_one_sided_readings(events.drop_last(), lo, hi, temps, threshold);
        lemma_one_sided(
            e.started.clock(),
            e.started.clock() + duration(e),
            lo,
            hi,
            e.started.offset() * SECOND,
            temps,
            threshold,
        );
    }
}

proof fn lemma_some_reading(temps: Seq<(int, Quantity)>, t: int) -> (k: int)
    requires
        temps.len() > 0,
    ensures
        0 <= k < temps.len(),
        reading_at(temps, t) == Some(temps[k].1),
    decreases temps.len(),
{
    if temps.last().0 <= t {
        assert(temps[temps.len() - 1] == temps.last());
        temps.len() - 1
    } else if temps.len() == 1 {
        reveal_with_fuel(reading_before, 2);
        0
    } else {
        let k = lemma_some_reading(temps.drop_last(), t);
        assert(temps.drop_last()[0] == temps[0]);
        assert(temps.drop_last()[k] == temps[k]);
        k
    }
}

proof fn lemma_one_sided(
    from: int,
    to: int,
    lo: int,
    hi: int,
    ahead: int,
    temps: Seq<(int, Quantity)>,
    threshold: Quantity,
)
    requires
        from <= to,
        0 <= lo,
        hi <= 24,
        temps.len() > 0,
    ensures
        (forall|j: int| 0 <= j < temps.len() ==> (#[trigger] temps[j]).1.above(threshold))
            ==> warm_time(from, to, lo, hi, ahead, temps, threshold) == time_in_hours(
            from,
            to,
            lo,
            hi,
        ),
        (forall|j: int| 0 <= j < temps.len() ==> !(#[trigger] temps[j]).1.above(threshold))
            ==> warm_time(from, to, lo, hi, ahead, temps, threshold) == 0,
    decreases to - from,
{
    if from < to {
        let n = slice_end(from, to);
        let k = lemma_some_reading(temps, from - ahead);
        if lo < hi {
            law_slice(from, to, lo, hi);
            law_cut(from, n, to, lo, hi);
        } else {
            law_slice(from, to, 0, 24);
        }
        lemma_one_sided(n, to, lo, hi, ahead, temps, threshold);
    }
}

/// There is a correlation exactly when there is a reading and some downtime in
/// the window, which ends at midnight at the latest; it gives the downtime in the
/// window and the warm part of it.
pub proof fn law_correlation(
    temps: Seq<(int, Quantity)>,
    events: Seq<OutageEvent>,
    cfg: DossierConfig,
)
    requires
        total_in(
            events,
            cfg.daytime_start as int,
            if cfg.daytime_end < 24 {
                cfg.daytime_end as int
            } else {
                24
            },
        ) <= u128::MAX,
    ensures
        ({
            let lo = cfg.daytime_start as int;
            let hi = if cfg.daytime_end < 24 {
                cfg.daytime_end as int
            } else {
                24
            };
            let found = correlation_of(temps, events, cfg);
            &&& found is Some <==> temps.len() > 0 && total_in(events, lo, hi) > 0
            &&& found matches Some(c) ==> c.downtime_in_window == total_in(events, lo, hi)
                && c.downtime_above_threshold == total_warm(
                events,
                lo,
                hi,
                temps,
                cfg.temp_threshold,
            ) && c.downtime_above_threshold <= c.downtime_in_window
        }),
{
    let lo = cfg.daytime_start as int;
    let hi = if cfg.daytime_end < 24 {
        cfg.daytime_end as int
    } else {
        24
    };
    law_window_within_total(events, lo, hi);
    law_warm_within_window(events, lo, hi, temps, cfg.temp_threshold);
}

/// The line of an outage gives its start, its end, its duration and its category,
/// the rate of its category, and what is left of it after the repair window.
pub proof fn law_line_of_an_outage(
    line: IndemnityLine,
    e: OutageEvent,
    charter: ServiceCharter,
    tariff: Tariff,
)
    requires
        indemnifies(line, e, charter, tariff),
    ensures
        e.ended is Some,
        line.event_start@ == timestamp_display(e.started.clock(), e.started.offset()),
        line.event_end@ == timestamp_display((e.ended->0).clock(), (e.ended->0).offset()),
        line.duration == duration(e),
        line.repair_window_days == charter.repair_window_days,
        e.category == AgcomCategory::CompleteInterruption ==> line.tariff_daily
            == tariff.complete_per_day && line.category@ == "complete_interruption"@,
        e.category == AgcomCategory::IrregularService ==> line.tariff_daily
            == tariff.irregular_per_day && line.category@ == "irregular_service"@,
        line.duration >= charter.repair_window_days * 86_400_000_000_000 ==> line.effective
            + charter.repair_window_days * 86_400_000_000_000 == line.duration,
        line.duration <= charter.repair_window_days * 86_400_000_000_000 ==> line.effective == 0,
{
}

/// The correlation of a log is that of all readings in it.
pub proof fn law_correlation_of_a_log(
    records: Seq<Record>,
    events: Seq<OutageEvent>,
    cfg: DossierConfig,
)
    ensures
        correlation(records, events, cfg) == correlation_of(readings(records), events, cfg),
{
}

/// Lists of timestamps and of readings stand for the instant and the temperature of
/// each, in order.
pub proof fn law_lists(v: Seq<Timestamp>, w: Seq<(i128, Quantity)>, i: int)
    ensures
        instants_view(v).len() == v.len(),
        0 <= i < v.len() ==> instants_view(v)[i] == v[i].clock() - v[i].offset() * 1_000_000_000,
        readings_view(w).len() == w.len(),
        0 <= i < w.len() ==> readings_view(w)[i] == (w[i].0 as int, w[i].1),
{
}

/// A log with one outage and no other record shows that outage alone: its duration
/// is the total downtime.
pub proof fn law_log_of_one_outage(r: Record)
    requires
        r is Outage,
        r->event.ended is Some,
    ensures
        closed_events(seq![r]) == seq![r->event],
        total_duration(closed_events(seq![r])) == duration(r->event),
{
    assert(seq![r].drop_last() == Seq::<Record>::empty());
    reveal_with_fuel(closed_events, 2);
    assert(closed_events(seq![r]) == seq![r->event]);
    law_totals_of_one(r->event, 0, 0, Seq::empty(), Quantity { bits: 0 });
}

/// An outage counts as much as its two parts when it is cut at a full hour of its
/// own clock: in all, in every window of the day, and above every threshold.
pub proof fn law_outage_cut_at_hour(
    whole: OutageEvent,
    first: OutageEvent,
    rest: OutageEvent,
    lo: int,
    hi: int,
    temps: Seq<(int, Quantity)>,
    threshold: Quantity,
)
    requires
        duration(whole) == duration(first) + duration(rest),
        first.started.clock() == whole.started.clock(),
        first.started.offset() == whole.started.offset(),
        rest.started.clock() == whole.started.clock() + duration(first),
        rest.started.offset() == whole.started.offset(),
        rest.started.clock() % 3_600_000_000_000 == 0,
    ensures
        downtime_in(whole, lo, hi) == downtime_in(first, lo, hi) + downtime_in(rest, lo, hi),
        warm_downtime(whole, lo, hi, temps, threshold) == warm_downtime(
            first,
            lo,
            hi,
            temps,
            threshold,
        ) + warm_downtime(rest, lo, hi, temps, threshold),
{
    let from = whole.started.clock();
    let mid = rest.started.clock();
    let to = from + duration(whole);
    law_cut(from, mid, to, lo, hi);
    law_warm_cut(from, mid, to, lo, hi, whole.started.offset() * SECOND, temps, threshold);
}

} // verus!
