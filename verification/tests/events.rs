use linewatch::events::{
    category, min_opt, most_severe, severity, AgcomCategory, DebounceCfg, Machine, OutageEvent,
};
use linewatch::quantity::Quantity;
use linewatch::timestamp::Timestamp;
use linewatch::types::Status;

fn cfg(open: u32, close: u32) -> DebounceCfg {
    DebounceCfg {
        open_after: open,
        close_after: close,
    }
}

fn celsius(t: f64) -> Option<Quantity> {
    Some(Quantity { bits: t.to_bits() })
}

/// A time on 2026-07-05, UTC.
fn ts(hour: u8, min: u8, sec: u8) -> Timestamp {
    let secs = 1_783_209_600i128 + hour as i128 * 3600 + min as i128 * 60 + sec as i128;
    Timestamp::new(secs * 1_000_000_000, 0).unwrap()
}

/// Feed a sequence of statuses into a fresh Machine and collect events.
fn run(statuses: &[Status], open_after: u32, close_after: u32) -> Vec<OutageEvent> {
    let mut m = Machine::new();
    let cfg = cfg(open_after, close_after);
    let mut events = Vec::new();
    for (i, s) in statuses.iter().enumerate() {
        let t = ts(0, 0, i as u8);
        if let Some(ev) = m.advance(t, *s, None, &cfg) {
            events.push(ev);
        }
    }
    events
}

// -- 1. Single blip below open_after → no event --------------------------

#[test]
fn single_blip_does_not_open() {
    let events = run(&[Status::Degraded], 3, 2);
    assert_eq!(events.len(), 0);
}

// -- 2. Sustained down ---------------------------------------------------

#[test]
fn sustained_down_opens_and_closes() {
    // 3 downs open → then 2 oks close
    let events = run(
        &[
            Status::Down,
            Status::Down,
            Status::Down, // opens at this sample
            Status::Good,
            Status::Good, // closes at this sample
        ],
        3,
        2,
    );
    assert_eq!(events.len(), 1);
    let ev = &events[0];
    assert_eq!(ev.worst_status, Status::Down);
    assert_eq!(ev.category, AgcomCategory::CompleteInterruption);
    assert_eq!(ev.samples_count, 5);
    assert!(ev.ended.is_some());
}

#[test]
fn sustained_down_even_longer() {
    // 4 downs, 4 more downs, then 2 oks
    let events = run(
        &[
            Status::Down,
            Status::Down,
            Status::Down,
            Status::Down, // opens at #3 (0-indexed)
            Status::Down,
            Status::Down,
            Status::Down,
            Status::Down,
            Status::Good,
            Status::Good, // closes
        ],
        4,
        2,
    );
    assert_eq!(events.len(), 1);
    assert_eq!(events[0].samples_count, 10);
}

// -- 3. Degraded → Down escalation --------------------------------------

#[test]
fn degraded_then_down_escalates_to_complete_interruption() {
    let events = run(
        &[
            Status::Degraded,
            Status::Degraded, // opens after 2 degraded (open_after=2)
            Status::Down,     // escalates
            Status::Good,
            Status::Good, // closes
        ],
        2,
        2,
    );
    assert_eq!(events.len(), 1);
    let ev = &events[0];
    // worst_status should have escalated to Down
    assert_eq!(ev.worst_status, Status::Down);
    assert_eq!(ev.category, AgcomCategory::CompleteInterruption);
    assert_eq!(ev.samples_count, 5);
}

#[test]
fn degraded_only_stays_irregular_service() {
    let events = run(
        &[
            Status::Degraded,
            Status::Degraded, // opens
            Status::Degraded,
            Status::Degraded,
            Status::Good,
            Status::Good, // closes
        ],
        2,
        2,
    );
    assert_eq!(events.len(), 1);
    assert_eq!(events[0].worst_status, Status::Degraded);
    assert_eq!(events[0].category, AgcomCategory::IrregularService);
}

// -- 4. Flapping at the boundary -----------------------------------------

#[test]
fn flapping_below_open_never_opens() {
    // Degraded, Ok, Degraded, Ok – never 3 in a row
    let events = run(
        &[
            Status::Degraded,
            Status::Degraded,
            Status::Good, // resets
            Status::Degraded,
            Status::Degraded,
            Status::Good, // resets
        ],
        3,
        2,
    );
    assert_eq!(events.len(), 0);
}

#[test]
fn close_resets_then_opens_again() {
    // 3 downs → opens, 1 ok (not enough), 1 down (resets close counter),
    // 2 more oks → finally closes.
    let mut m = Machine::new();
    let cfg = cfg(3, 2);
    let times = [
        ts(0, 0, 0),
        ts(0, 0, 1),
        ts(0, 0, 2), // 3 downs → opens
        ts(0, 0, 3), // 1st Ok (close_count=1)
        ts(0, 0, 4), // Down resets close_count to 0
        ts(0, 0, 5),
        ts(0, 0, 6), // 2 Oks → closes
    ];
    let statuses = [
        Status::Down,
        Status::Down,
        Status::Down,
        Status::Good,
        Status::Down,
        Status::Good,
        Status::Good,
    ];
    let mut events = Vec::new();
    for (t, s) in times.iter().zip(statuses.iter()) {
        if let Some(ev) = m.advance(*t, *s, None, &cfg) {
            events.push(ev);
        }
    }
    assert_eq!(events.len(), 1);
    // The Down at t4 reset the close counter, so the event spans all 7
    // samples (3 open + 1 Ok + 1 Down + 2 Ok).
    assert_eq!(events[0].samples_count, 7);
    assert_eq!(events[0].worst_status, Status::Down);
    assert_eq!(events[0].ended, Some(ts(0, 0, 6)));
}

// -- 5. Multiple events --------------------------------------------------

#[test]
fn two_separate_events() {
    let events = run(
        &[
            Status::Down,
            Status::Down,
            Status::Down, // open
            Status::Good,
            Status::Good, // close event 1
            Status::Degraded,
            Status::Degraded,
            Status::Degraded, // open
            Status::Good,
            Status::Good, // close event 2
        ],
        3,
        2,
    );
    assert_eq!(events.len(), 2);
    assert_eq!(events[0].worst_status, Status::Down);
    assert_eq!(events[0].category, AgcomCategory::CompleteInterruption);
    assert_eq!(events[1].worst_status, Status::Degraded);
    assert_eq!(events[1].category, AgcomCategory::IrregularService);
}

// -- 6. Temperature tracking --------------------------------------------

#[test]
fn tracks_min_temperature() {
    let mut m = Machine::new();
    let cfg = cfg(2, 2);
    let times = [ts(0, 0, 0), ts(0, 0, 1), ts(0, 0, 2), ts(0, 0, 3)];
    let statuses = [Status::Down, Status::Down, Status::Good, Status::Good];
    let temps = [celsius(30.0), celsius(28.5), celsius(27.0), celsius(29.0)];
    let mut events = Vec::new();
    for (t, (s, tmp)) in times.iter().zip(statuses.iter().zip(temps.iter())) {
        if let Some(ev) = m.advance(*t, *s, *tmp, &cfg) {
            events.push(ev);
        }
    }
    assert_eq!(events.len(), 1);
    // Min across all samples: 27.0
    let min_temp = f64::from_bits(events[0].min_temp_c.unwrap().bits);
    assert!((min_temp - 27.0).abs() < f64::EPSILON);
}

// -- 7. Transparent statuses, forced close, and the helpers ----------------

#[test]
fn local_or_power_resets_the_streak() {
    let events = run(
        &[
            Status::Down,
            Status::Down,
            Status::LocalOrPower,
            Status::Down,
            Status::Down,
            Status::Good,
            Status::Good,
        ],
        3,
        2,
    );
    assert_eq!(events.len(), 0);
}

#[test]
fn local_or_power_does_not_close() {
    let events = run(
        &[
            Status::Down,
            Status::Good,
            Status::LocalOrPower,
            Status::Good,
            Status::Good,
        ],
        1,
        2,
    );
    assert_eq!(events.len(), 1);
    assert_eq!(events[0].samples_count, 5);
    assert_eq!(events[0].started, ts(0, 0, 0));
    assert_eq!(events[0].ended, Some(ts(0, 0, 4)));
}

#[test]
fn force_close_emits_the_open_event() {
    let mut m = Machine::new();
    let cfg = cfg(2, 2);
    assert_eq!(m.force_close(ts(0, 0, 0)), None);
    m.advance(ts(0, 0, 1), Status::DnsFail, celsius(20.0), &cfg);
    assert_eq!(m.force_close(ts(0, 0, 2)), None);
    m.advance(ts(0, 0, 3), Status::HttpFail, celsius(19.0), &cfg);
    let ev = m.force_close(ts(0, 0, 9)).unwrap();
    assert_eq!(ev.started, ts(0, 0, 1));
    assert_eq!(ev.ended, Some(ts(0, 0, 9)));
    assert_eq!(ev.worst_status, Status::DnsFail);
    assert_eq!(ev.min_temp_c, celsius(19.0));
    assert_eq!(ev.samples_count, 2);
    assert_eq!(ev.category, AgcomCategory::IrregularService);
    assert_eq!(m.force_close(ts(0, 0, 10)), None);
}

#[test]
fn severity_ranks() {
    assert_eq!(severity(&Status::Down), 4);
    assert_eq!(severity(&Status::DnsFail), 3);
    assert_eq!(severity(&Status::HttpFail), 2);
    assert_eq!(severity(&Status::Degraded), 1);
    assert_eq!(severity(&Status::LocalOrPower), 0);
    assert_eq!(severity(&Status::Good), 0);
    assert_eq!(most_severe(&Status::Degraded, &Status::HttpFail), Status::HttpFail);
    assert_eq!(most_severe(&Status::Good, &Status::LocalOrPower), Status::Good);
    assert_eq!(category(&Status::DnsFail), AgcomCategory::IrregularService);
    assert_eq!(category(&Status::Down), AgcomCategory::CompleteInterruption);
}

#[test]
fn minimum_of_optional_temperatures() {
    assert_eq!(min_opt(celsius(-3.5), celsius(2.0)), celsius(-3.5));
    assert_eq!(min_opt(celsius(-3.5), celsius(-4.0)), celsius(-4.0));
    assert_eq!(min_opt(None, celsius(2.0)), celsius(2.0));
    assert_eq!(min_opt(celsius(2.0), None), celsius(2.0));
    assert_eq!(min_opt(None, None), None);
    assert_eq!(min_opt(celsius(f64::NAN), celsius(2.0)), celsius(2.0));
}

#[test]
fn next_event_needs_a_new_streak() {
    // The bad samples of the first event do not open a second one.
    let events = run(
        &[
            Status::Down,
            Status::Down,
            Status::Good,
            Status::Down,
            Status::Good,
            Status::Down,
            Status::Down,
            Status::Good,
        ],
        2,
        1,
    );
    assert_eq!(events.len(), 2);
    assert_eq!(events[0].ended, Some(ts(0, 0, 2)));
    assert_eq!(events[1].started, ts(0, 0, 5));
    assert_eq!(events[1].ended, Some(ts(0, 0, 7)));
}
