//! What the timeline of temperatures and outages shows.
use crate::chain::Record;
use crate::daytime::{hour, hour_of, law_hour_of_day};
use crate::events::{AgcomCategory, OutageEvent};
use crate::quantity::Quantity;
use crate::render_md::{category_name, category_name_text};
use crate::text::{decimal_value, law_two_digits, two_digits, two_digits_text};
use crate::timestamp::{parse_rfc3339, rfc3339, MAX_CLOCK, MIN_CLOCK, SECOND};
use time::OffsetDateTime;
use vstd::prelude::*;

verus! {

/// A shaded span on the timeline, in seconds since 1970.
#[derive(Clone, Copy, Debug, PartialEq, Eq, Structural)]
pub struct OutageSpan {
    pub from: i64,
    pub to: i64,
    pub category: AgcomCategory,
}

/// What is drawn: temperatures by the second, and outages.
#[derive(Clone, Debug)]
pub struct ChartData {
    pub temps: Vec<(i64, Quantity)>,
    pub outages: Vec<OutageSpan>,
}

/// The temperature of a record, by the second at which it was taken.
pub open spec fn record_temp(r: Record) -> Option<(i64, Quantity)> {
    match r {
        Record::Sample { ts, temp_c, .. } => match (rfc3339(ts@), temp_c) {
            (Some((clock, offset)), Some(c)) => Some(
                (((clock - offset * SECOND) / (SECOND as int)) as i64, c),
            ),
            _ => None,
        },
        _ => None,
    }
}

/// The temperatures in the records, in order.
pub open spec fn temp_series(records: Seq<Record>) -> Seq<(i64, Quantity)>
    decreases records.len(),
{
    if records.len() == 0 {
        seq![]
    } else {
        let before = temp_series(records.drop_last());
        match record_temp(records.last()) {
            Some(p) => before.push(p),
            None => before,
        }
    }
}

/// The span of an outage that has ended.
pub open spec fn span_of_event(e: OutageEvent) -> Option<OutageSpan> {
    match e.ended {
        Some(end) => Some(
            OutageSpan {
                from: (e.started.instant() / (SECOND as int)) as i64,
                to: (end.instant() / (SECOND as int)) as i64,
                category: e.category,
            },
        ),
        None => None,
    }
}

/// The outages in the records that have ended, in order.
pub open spec fn outage_spans(records: Seq<Record>) -> Seq<OutageSpan>
    decreases records.len(),
{
    if records.len() == 0 {
        seq![]
    } else {
        let before = outage_spans(records.drop_last());
        match records.last() {
            Record::Outage { event, .. } => match span_of_event(event) {
                Some(s) => before.push(s),
                None => before,
            },
            _ => before,
        }
    }
}

/// Collects what is drawn; nothing is drawn without a temperature.
pub fn chart_data(records: &[Record]) -> (res: Result<ChartData, &'static str>)
    ensures
        match res {
            Ok(c) => temp_series(records@).len() > 0 && c.temps@ == temp_series(records@)
                && c.outages@ == outage_spans(records@),
            Err(e) => temp_series(records@).len() == 0 && e@ == "no temperature data to chart"@,
        },
{
    let mut temps: Vec<(i64, Quantity)> = Vec::new();
    let mut outages: Vec<OutageSpan> = Vec::new();
    let mut i: usize = 0;
    assert(records@.take(0) == Seq::<Record>::empty());
    while i < records.len()
        invariant
            i <= records@.len(),
            temps@ == temp_series(records@.take(i as int)),
            outages@ == outage_spans(records@.take(i as int)),
        decreases records@.len() - i,
    {
        assert(records@.take(i + 1).drop_last() == records@.take(i as int));
        assert(records@.take(i + 1).last() == records@[i as int]);
        match &records[i] {
            Record::Sample { ts, temp_c: Some(c), .. } => {
                if let Some(t) = parse_rfc3339(ts.as_str()) {
                    temps.push((t.unix_seconds(), *c));
                }
            },
            Record::Outage { event, .. } => {
                if let Some(end) = &event.ended {
                    outages.push(
                        OutageSpan {
                            from: event.started.unix_seconds(),
                            to: end.unix_seconds(),
                            category: event.category,
                        },
                    );
                }
            },
            _ => {},
        }
        i += 1;
    }
    assert(records@.take(i as int) == records@);
    if temps.len() == 0 {
        Err("no temperature data to chart")
    } else {
        Ok(ChartData { temps, outages })
    }
}

// ---------------------------------------------------------------------------
// Axis labels and daytime
// ---------------------------------------------------------------------------

/// Whether an instant in seconds since 1970 lies in the years that have a date.
pub open spec fn has_date(unix: int) -> bool {
    MIN_CLOCK <= unix * SECOND <= MAX_CLOCK
}

/// The month and the day of the month of an instant, in UTC.
pub uninterp spec fn utc_month_day(unix: int) -> (u8, u8);

/// Calls `OffsetDateTime::from_unix_timestamp` and takes the month and the day
/// of the result. The contract names the two, and says that the call succeeds
/// exactly for the years -9999 to 9999.
#[verifier::external_body]
fn month_day(unix: i64) -> (res: Option<(u8, u8)>)
    ensures
        res is Some == has_date(unix as int),
        res matches Some(md) ==> md == utc_month_day(unix as int),
{
    OffsetDateTime::from_unix_timestamp(unix).ok().map(|t| (u8::from(t.month()), t.day()))
}

/// The label of a tick with a month, a day of the month and an hour.
pub open spec fn tick_of(month: u8, day: u8, hour: nat) -> Seq<char> {
    two_digits(month as nat) + "/"@ + two_digits(day as nat) + " "@ + two_digits(hour) + ":00"@
}

/// The label of a tick on the time axis: the date and the hour in UTC.
pub open spec fn tick(unix: int) -> Seq<char> {
    tick_of(utc_month_day(unix).0, utc_month_day(unix).1, hour_of(unix * SECOND) as nat)
}

/// The label of a tick with a month, a day of the month and an hour.
pub fn tick_text(month: u8, day: u8, hour: u8) -> (res: String)
    ensures
        res@ == tick_of(month, day, hour as nat),
{
    let mut s = two_digits_text(month);
    s.append("/");
    s.append(two_digits_text(day).as_str());
    s.append(" ");
    s.append(two_digits_text(hour).as_str());
    s.append(":00");
    s
}

/// The label of a tick on the time axis; there is none beyond the years that
/// have a date.
pub fn tick_label(unix: i64) -> (res: Option<String>)
    ensures
        res is Some == has_date(unix as int),
        res matches Some(s) ==> s@ == tick(unix as int),
{
    match month_day(unix) {
        Some((month, day)) => Some(tick_text(month, day, hour(unix as i128 * SECOND))),
        None => None,
    }
}

/// The first hour of the day that is marked.
pub const DAY_START_HOUR: u8 = 8;

/// The hour of the day at which the mark ends.
pub const DAY_END_HOUR: u8 = 20;

/// Whether an instant in seconds since 1970 lies in the daytime, in UTC; nothing
/// beyond the years that have a date.
pub fn in_daytime(unix: i64) -> (res: Option<bool>)
    ensures
        res is Some == has_date(unix as int),
        res matches Some(b) ==> b == (DAY_START_HOUR <= hour_of(unix * SECOND) < DAY_END_HOUR),
{
    let nanos: i128 = unix as i128 * SECOND;
    if MIN_CLOCK <= nanos && nanos <= MAX_CLOCK {
        let h = hour(nanos);
        Some(DAY_START_HOUR <= h && h < DAY_END_HOUR)
    } else {
        None
    }
}

/// The label and the colour, in red, green and blue, of an outage.
pub fn span_style(category: &AgcomCategory) -> (res: (&'static str, u8, u8, u8))
    ensures
        res.0@ == category_name(*category),
        (res.1, res.2, res.3) == match *category {
            AgcomCategory::CompleteInterruption => (220u8, 50u8, 50u8),
            AgcomCategory::IrregularService => (255u8, 165u8, 0u8),
        },
{
    match category {
        AgcomCategory::CompleteInterruption => (category_name_text(category), 220, 50, 50),
        AgcomCategory::IrregularService => (category_name_text(category), 255, 165, 0),
    }
}

// ---------------------------------------------------------------------------
// Laws
// ---------------------------------------------------------------------------

/// Every sample with a temperature and a time that can be read is drawn, in the
/// order of the log and at the second of its instant, and nothing else is.
pub proof fn law_every_temperature_is_drawn(records: Seq<Record>) -> (places: Seq<int>)
    ensures
        places.len() == temp_series(records).len(),
        forall|a: int, b: int|
            0 <= a < b < places.len() ==> #[trigger] places[a] < #[trigger] places[b],
        forall|a: int|
            0 <= a < places.len() ==> 0 <= #[trigger] places[a] < records.len() && (
            match records[places[a]] {
                Record::Sample { ts, temp_c, .. } => rfc3339(ts@) is Some && temp_c is Some
                    && temp_series(records)[a].1 == temp_c->0 && temp_series(records)[a].0 == (((
                rfc3339(ts@)->0).0 - (rfc3339(ts@)->0).1 * 1_000_000_000) / 1_000_000_000) as i64,
                _ => false,
            }),
        forall|i: int|
            0 <= i < records.len() && (match #[trigger] records[i] {
                Record::Sample { ts, temp_c, .. } => rfc3339(ts@) is Some && temp_c is Some,
                _ => false,
            }) ==> places.contains(i),
    decreases records.len(),
{
    if records.len() == 0 {
        Seq::empty()
    } else {
        let head = records.drop_last();
        let before = law_every_temperature_is_drawn(head);
        let n = records.len() - 1;
        assert(forall|i: int| 0 <= i < n ==> head[i] == records[i]);
        if record_temp(records.last()) is Some {
            let places = before.push(n);
            assert(places[places.len() - 1] == n);
            assert forall|i: int|
                0 <= i < records.len() && (match #[trigger] records[i] {
                    Record::Sample { ts, temp_c, .. } => rfc3339(ts@) is Some && temp_c is Some,
                    _ => false,
                }) implies places.contains(i) by {
                if i < n {
                    assert(head[i] == records[i]);
                    let k = before.index_of(i);
                    assert(places[k] == i);
                }
            }
            places
        } else {
            assert forall|i: int|
                0 <= i < records.len() && (match #[trigger] records[i] {
                    Record::Sample { ts, temp_c, .. } => rfc3339(ts@) is Some && temp_c is Some,
                    _ => false,
                }) implies before.contains(i) by {
                assert(head[i] == records[i]);
            }
            before
        }
    }
}

/// Every outage that has ended is drawn, in the order of the log, from the second
/// of its start to the second of its end and in its category, and nothing else is.
pub proof fn law_every_outage_is_drawn(records: Seq<Record>) -> (places: Seq<int>)
    ensures
        places.len() == outage_spans(records).len(),
        forall|a: int, b: int|
            0 <= a < b < places.len() ==> #[trigger] places[a] < #[trigger] places[b],
        forall|a: int|
            0 <= a < places.len() ==> 0 <= #[trigger] places[a] < records.len()
                && records[places[a]] is Outage && ({
                let e = records[places[a]]->event;
                &&& e.ended is Some
                &&& outage_spans(records)[a].category == e.category
                &&& outage_spans(records)[a].from == ((e.started.clock() - e.started.offset()
                    * 1_000_000_000) / 1_000_000_000) as i64
                &&& outage_spans(records)[a].to == (((e.ended->0).clock() - (e.ended->0).offset()
                    * 1_000_000_000) / 1_000_000_000) as i64
            }),
        forall|i: int|
            0 <= i < records.len() && #[trigger] records[i] is Outage && records[i]->event.ended
                is Some ==> places.contains(i),
    decreases records.len(),
{
    if records.len() == 0 {
        Seq::empty()
    } else {
        let head = records.drop_last();
        let before = law_every_outage_is_drawn(head);
        let n = records.len() - 1;
        assert(forall|i: int| 0 <= i < n ==> head[i] == records[i]);
        if records.last() is Outage && records.last()->event.ended is Some {
            let places = before.push(n);
            assert(places[places.len() - 1] == n);
            assert forall|i: int|
                0 <= i < records.len() && #[trigger] records[i] is Outage && records[i]->event.ended
                    is Some implies places.contains(i) by {
                if i < n {
                    assert(head[i] is Outage);
                    let k = before.index_of(i);
                    assert(places[k] == i);
                }
            }
            places
        } else {
            assert forall|i: int|
                0 <= i < records.len() && #[trigger] records[i] is Outage && records[i]->event.ended
                    is Some implies before.contains(i) by {
                assert(head[i] is Outage);
            }
            before
        }
    }
}

/// The label of a tick has two digits each for the month, the day and the hour, and
/// the full hour.
pub proof fn law_tick(month: u8, day: u8, hour: nat)
    requires
        month < 100,
        day < 100,
        hour < 100,
    ensures
        ({
            let s = tick_of(month, day, hour);
            &&& s.len() == 11
            &&& decimal_value(s.subrange(0, 2)) == month
            &&& s[2] == '/'
            &&& decimal_value(s.subrange(3, 5)) == day
            &&& s[5] == ' '
            &&& decimal_value(s.subrange(6, 8)) == hour
            &&& s.skip(8) == seq![':', '0', '0']
        }),
{
    reveal_strlit("/");
    reveal_strlit(" ");
    reveal_strlit(":00");
    law_two_digits(month as nat);
    law_two_digits(day as nat);
    law_two_digits(hour);
    let s = tick_of(month, day, hour);
    assert(s.subrange(0, 2) == two_digits(month as nat));
    assert(s.subrange(3, 5) == two_digits(day as nat));
    assert(s.subrange(6, 8) == two_digits(hour));
    assert(s.skip(8) == seq![':', '0', '0']);
}

/// A tick shows the hour of the day, in UTC, of the second that it stands for.
pub proof fn law_tick_hour(unix: int)
    ensures
        tick(unix) == tick_of(
            utc_month_day(unix).0,
            utc_month_day(unix).1,
            ((unix / 3600) % 24) as nat,
        ),
        DAY_START_HOUR <= hour_of(unix * SECOND) < DAY_END_HOUR <==> 8 <= (unix / 3600) % 24 < 20,
{
    law_hour_of_day(unix * SECOND);
    assert((unix * SECOND) / 3_600_000_000_000 == unix / 3600);
}

} // verus!
