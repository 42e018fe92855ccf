//! Hysteresis: turning a stream of statuses into outage events.
use crate::quantity::Quantity;
use crate::timestamp::Timestamp;
use crate::types::Status;
use vstd::prelude::*;

verus! {

/// The regulatory category of an outage.
#[derive(Clone, Copy, Debug, PartialEq, Eq, Structural)]
pub enum AgcomCategory {
    /// At least one `Down` sample was observed.
    CompleteInterruption,
    /// No `Down` sample was observed.
    IrregularService,
}

/// An outage, from its first bad sample to its close.
#[derive(Clone, Copy, Debug, PartialEq)]
pub struct OutageEvent {
    pub started: Timestamp,
    pub ended: Option<Timestamp>,
    pub worst_status: Status,
    pub min_temp_c: Option<Quantity>,
    pub samples_count: u32,
    pub category: AgcomCategory,
}

/// How many samples open and close an event.
#[derive(Clone, Copy, Debug)]
pub struct DebounceCfg {
    /// Number of consecutive bad samples before opening.
    pub open_after: u32,
    /// Number of consecutive good samples before closing.
    pub close_after: u32,
}

/// The state of the hysteresis machine.
#[derive(Clone, Copy, Debug)]
pub enum MachineState {
    /// No event is open; `bad_count` bad samples came in a row.
    Idle {
        bad_count: u32,
        streak_started: Timestamp,
        streak_worst: Status,
        streak_min_temp: Option<Quantity>,
    },
    /// An event is open; the last `close_count` samples were good.
    Open {
        close_count: u32,
        started: Timestamp,
        worst_status: Status,
        min_temp_c: Option<Quantity>,
        samples_count: u32,
    },
}

/// The hysteresis machine.
#[derive(Clone, Copy, Debug)]
pub struct Machine {
    state: MachineState,
}

// ---------------------------------------------------------------------------
// Severity, category and temperature
// ---------------------------------------------------------------------------

/// Severity ranking used for the worst status. Higher is worse.
pub open spec fn severity_rank(s: Status) -> u8 {
    match s {
        Status::Down => 4,
        Status::DnsFail => 3,
        Status::HttpFail => 2,
        Status::Degraded => 1,
        Status::LocalOrPower => 0,
        Status::Good => 0,
    }
}

/// The more severe of two statuses; the first when they rank equal.
pub open spec fn worse(a: Status, b: Status) -> Status {
    if severity_rank(a) >= severity_rank(b) {
        a
    } else {
        b
    }
}

/// The category of an event whose worst status is `s`.
pub open spec fn category_for(s: Status) -> AgcomCategory {
    if s == Status::Down {
        AgcomCategory::CompleteInterruption
    } else {
        AgcomCategory::IrregularService
    }
}

/// The smaller of two optional temperatures, of which either may be missing.
pub open spec fn colder(a: Option<Quantity>, b: Option<Quantity>) -> Option<Quantity> {
    match (a, b) {
        (Some(x), Some(y)) => Some(x.lesser(y)),
        (Some(x), None) => Some(x),
        (None, b) => b,
    }
}

/// Whether a status counts toward an outage. `Good` and `LocalOrPower` are
/// transparent: they reset the count of bad samples.
pub open spec fn bad(s: Status) -> bool {
    s != Status::Good && s != Status::LocalOrPower
}

/// Severity ranking used for the worst status. Higher is worse.
pub fn severity(s: &Status) -> (res: u8)
    ensures
        res == severity_rank(*s),
{
    match s {
        Status::Down => 4,
        Status::DnsFail => 3,
        Status::HttpFail => 2,
        Status::Degraded => 1,
        Status::LocalOrPower => 0,
        Status::Good => 0,
    }
}

/// Picks the more severe of two statuses.
pub fn most_severe(a: &Status, b: &Status) -> (res: Status)
    ensures
        res == worse(*a, *b),
{
    if severity(a) >= severity(b) {
        *a
    } else {
        *b
    }
}

/// The smaller of two optional temperatures.
pub fn min_opt(a: Option<Quantity>, b: Option<Quantity>) -> (res: Option<Quantity>)
    ensures
        res == colder(a, b),
{
    match (a, b) {
        (Some(x), Some(y)) => Some(x.min_of(y)),
        (Some(x), None) => Some(x),
        (None, Some(y)) => Some(y),
        (None, None) => None,
    }
}

/// The category of an event with the given worst status.
pub fn category(s: &Status) -> (res: AgcomCategory)
    ensures
        res == category_for(*s),
{
    match s {
        Status::Down => AgcomCategory::CompleteInterruption,
        _ => AgcomCategory::IrregularService,
    }
}

// ---------------------------------------------------------------------------
// Transitions
// ---------------------------------------------------------------------------

/// The state of a fresh machine.
pub open spec fn initial_state() -> MachineState {
    MachineState::Idle {
        bad_count: 0,
        streak_started: Timestamp::at_epoch(),
        streak_worst: Status::Good,
        streak_min_temp: None,
    }
}

/// One classified sample as the machine sees it.
pub struct Observation {
    pub ts: Timestamp,
    pub status: Status,
    pub temp_c: Option<Quantity>,
}

/// The event that an open state describes when it ends at `ts`.
pub open spec fn event_of(s: MachineState, ts: Timestamp) -> Option<OutageEvent> {
    match s {
        MachineState::Idle { .. } => None,
        MachineState::Open { started, worst_status, min_temp_c, samples_count, .. } => Some(
            OutageEvent {
                started,
                ended: Some(ts),
                worst_status,
                min_temp_c,
                samples_count,
                category: category_for(worst_status),
            },
        ),
    }
}

/// The state with one more sample counted into it, before it is decided
/// whether the event closes.
pub open spec fn counted(s: MachineState, o: Observation, cfg: DebounceCfg) -> MachineState {
    match s {
        MachineState::Idle { bad_count, streak_started, streak_worst, streak_min_temp } => {
            let first = bad_count == 0;
            let count = (bad_count + 1) as u32;
            let started = if first {
                o.ts
            } else {
                streak_started
            };
            let worst = if first {
                o.status
            } else {
                worse(streak_worst, o.status)
            };
            let min_temp = if first {
                o.temp_c
            } else {
                colder(streak_min_temp, o.temp_c)
            };
            if !bad(o.status) {
                MachineState::Idle { bad_count: 0, streak_started, streak_worst, streak_min_temp }
            } else if count >= cfg.open_after {
                MachineState::Open {
                    close_count: 0,
                    started,
                    worst_status: worst,
                    min_temp_c: min_temp,
                    samples_count: count,
                }
            } else {
                MachineState::Idle {
                    bad_count: count,
                    streak_started: started,
                    streak_worst: worst,
                    streak_min_temp: min_temp,
                }
            }
        },
        MachineState::Open { close_count, started, worst_status, min_temp_c, samples_count } => {
            MachineState::Open {
                close_count: if o.status == Status::Good {
                    (close_count + 1) as u32
                } else {
                    0
                },
                started,
                worst_status: worse(worst_status, o.status),
                min_temp_c: colder(min_temp_c, o.temp_c),
                samples_count: (samples_count + 1) as u32,
            }
        },
    }
}

/// Whether a sample closes the event that is open in `s`.
pub open spec fn closes(s: MachineState, o: Observation, cfg: DebounceCfg) -> bool {
    match s {
        MachineState::Idle { .. } => false,
        MachineState::Open { close_count, .. } => o.status == Status::Good && close_count + 1
            >= cfg.close_after,
    }
}

/// The state after one sample.
pub open spec fn next_state(s: MachineState, o: Observation, cfg: DebounceCfg) -> MachineState {
    if closes(s, o, cfg) {
        initial_state()
    } else {
        counted(s, o, cfg)
    }
}

/// The event that one sample emits.
pub open spec fn emitted(s: MachineState, o: Observation, cfg: DebounceCfg) -> Option<OutageEvent> {
    if closes(s, o, cfg) {
        event_of(counted(s, o, cfg), o.ts)
    } else {
        None
    }
}

/// Whether one more sample can be counted in a state.
pub open spec fn has_room(s: MachineState) -> bool {
    match s {
        MachineState::Idle { .. } => true,
        MachineState::Open { samples_count, .. } => samples_count < u32::MAX,
    }
}

impl Machine {
    #[verifier::type_invariant]
    spec fn counters_in_range(self) -> bool {
        match self.state {
            MachineState::Idle { bad_count, .. } => bad_count < u32::MAX,
            MachineState::Open { close_count, samples_count, .. } => close_count <= samples_count,
        }
    }

    /// The state of the machine.
    pub closed spec fn state(self) -> MachineState {
        self.state
    }

    /// Whether one more sample can be counted into the open event.
    pub open spec fn can_count(self) -> bool {
        has_room(self.state())
    }

    /// A machine with no event open.
    pub fn new() -> (res: Machine)
        ensures
            res.state() == initial_state(),
    {
        Machine {
            state: MachineState::Idle {
                bad_count: 0,
                streak_started: Timestamp::epoch(),
                streak_worst: Status::Good,
                streak_min_temp: None,
            },
        }
    }

    /// Whether one more sample can be counted into the open event.
    pub fn has_room(&self) -> (res: bool)
        ensures
            res == self.can_count(),
    {
        match self.state {
            MachineState::Idle { .. } => true,
            MachineState::Open { samples_count, .. } => samples_count < u32::MAX,
        }
    }

    /// Feed one sample into the state machine.
    ///
    /// Returns an event only when a previously opened event closes after
    /// `close_after` consecutive good samples.
    pub fn advance(
        &mut self,
        ts: Timestamp,
        status: Status,
        temp_c: Option<Quantity>,
        cfg: &DebounceCfg,
    ) -> (res: Option<OutageEvent>)
        requires
            old(self).can_count(),
        ensures
            final(self).state() == next_state(
                old(self).state(),
                (Observation { ts, status, temp_c }),
                *cfg,
            ),
            res == emitted(old(self).state(), (Observation { ts, status, temp_c }), *cfg),
    {
        proof {
            use_type_invariant(&*self);
        }
        let (next, event): (MachineState, Option<OutageEvent>) = match self.state {
            MachineState::Idle { bad_count, streak_started, streak_worst, streak_min_temp } => {
                if status == Status::Good || status == Status::LocalOrPower {
                    (
                        MachineState::Idle {
                            bad_count: 0,
                            streak_started,
                            streak_worst,
                            streak_min_temp,
                        },
                        None,
                    )
                } else {
                    let first = bad_count == 0;
                    let count: u32 = bad_count + 1;
                    let started = if first {
                        ts
                    } else {
                        streak_started
                    };
                    let worst = if first {
                        status
                    } else {
                        most_severe(&streak_worst, &status)
                    };
                    let min_temp = if first {
                        temp_c
                    } else {
                        min_opt(streak_min_temp, temp_c)
                    };
                    if count >= cfg.open_after {
                        (
                            MachineState::Open {
                                close_count: 0,
                                started,
                                worst_status: worst,
                                min_temp_c: min_temp,
                                samples_count: count,
                            },
                            None,
                        )
                    } else {
                        (
                            MachineState::Idle {
                                bad_count: count,
                                streak_started: started,
                                streak_worst: worst,
                                streak_min_temp: min_temp,
                            },
                            None,
                        )
                    }
                }
            },
            MachineState::Open { close_count, started, worst_status, min_temp_c, samples_count } => {
                let good = status == Status::Good;
                let close_count: u32 = if good {
                    close_count + 1
                } else {
                    0
                };
                let samples_count: u32 = samples_count + 1;
                let min_temp_c = min_opt(min_temp_c, temp_c);
                let worst_status = most_severe(&worst_status, &status);
                if good && close_count >= cfg.close_after {
                    (
                        MachineState::Idle {
                            bad_count: 0,
                            streak_started: Timestamp::epoch(),
                            streak_worst: Status::Good,
                            streak_min_temp: None,
                        },
                        Some(
                            OutageEvent {
                                started,
                                ended: Some(ts),
                                worst_status,
                                min_temp_c,
                                samples_count,
                                category: category(&worst_status),
                            },
                        ),
                    )
                } else {
                    (
                        MachineState::Open {
                            close_count,
                            started,
                            worst_status,
                            min_temp_c,
                            samples_count,
                        },
                        None,
                    )
                }
            },
        };
        self.state = next;
        event
    }

    /// End the event that is open, if any, at `ts`, and go back to idle. Called
    /// on graceful shutdown.
    pub fn force_close(&mut self, ts: Timestamp) -> (res: Option<OutageEvent>)
        ensures
            final(self).state() == (if old(self).state() is Open {
                initial_state()
            } else {
                old(self).state()
            }),
            res == event_of(old(self).state(), ts),
    {
        match self.state {
            MachineState::Idle { .. } => None,
            MachineState::Open { started, worst_status, min_temp_c, samples_count, .. } => {
                self.state = MachineState::Idle {
                    bad_count: 0,
                    streak_started: Timestamp::epoch(),
                    streak_worst: Status::Good,
                    streak_min_temp: None,
                };
                Some(
                    OutageEvent {
                        started,
                        ended: Some(ts),
                        worst_status,
                        min_temp_c,
                        samples_count,
                        category: category(&worst_status),
                    },
                )
            },
        }
    }
}

impl Default for Machine {
    fn default() -> (res: Machine)
        ensures
            res.state() == initial_state(),
    {
        Machine::new()
    }
}

// ---------------------------------------------------------------------------
// Laws
// ---------------------------------------------------------------------------

/// A line that is down is worse than one on which names cannot be resolved, that
/// is worse than one without the web, and that is worse than a degraded one; a
/// local fault ranks with a good line, below all of them.
pub proof fn law_severity_order()
    ensures
        severity_rank(Status::Down) > severity_rank(Status::DnsFail),
        severity_rank(Status::DnsFail) > severity_rank(Status::HttpFail),
        severity_rank(Status::HttpFail) > severity_rank(Status::Degraded),
        severity_rank(Status::Degraded) > severity_rank(Status::LocalOrPower),
        severity_rank(Status::LocalOrPower) == severity_rank(Status::Good),
        severity_rank(Status::Good) == 0,
        severity_rank(Status::Down) == 4,
{
}

/// The worse of two statuses is one of the two and ranks as high as each; the
/// first stays when they rank equal.
pub proof fn law_worse(a: Status, b: Status)
    ensures
        worse(a, b) == a || worse(a, b) == b,
        severity_rank(worse(a, b)) >= severity_rank(a),
        severity_rank(worse(a, b)) >= severity_rank(b),
        severity_rank(a) == severity_rank(b) ==> worse(a, b) == a,
        worse(a, b) == Status::Down <==> a == Status::Down || b == Status::Down,
{
}

/// Only an outage on which the line was down is a complete interruption; any
/// other is irregular service.
pub proof fn law_category(s: Status)
    ensures
        category_for(s) == AgcomCategory::CompleteInterruption <==> s == Status::Down,
        category_for(s) == AgcomCategory::IrregularService <==> s != Status::Down,
{
}

/// A line that is degraded, down, or without names or the web counts toward an
/// outage; a good line and a local fault do not.
pub proof fn law_bad(s: Status)
    ensures
        bad(s) <==> s == Status::Degraded || s == Status::Down || s == Status::DnsFail || s
            == Status::HttpFail,
{
}

/// The colder of two temperatures is the one that is known, or, when both are, the
/// one that is not above the other.
pub proof fn law_colder(a: Option<Quantity>, b: Option<Quantity>)
    ensures
        a is None ==> colder(a, b) == b,
        b is None ==> colder(a, b) == a,
        a is Some && b is Some ==> colder(a, b) is Some && (colder(a, b) == a || colder(a, b) == b)
            && !(colder(a, b)->0).above(a->0) && !(colder(a, b)->0).above(b->0),
        a is Some && b is Some && a->0.nan() ==> colder(a, b) == b,
        a is Some && b is Some && b->0.nan() && !a->0.nan() ==> colder(a, b) == a,
{
}

/// A sample that does not count toward an outage opens none, and the next sample
/// that does starts a new count; good samples alone count toward closing, and any
/// other sample starts that count anew.
pub proof fn law_counts_start_anew(s: MachineState, o: Observation, cfg: DebounceCfg)
    requires
        has_room(s),
        s matches MachineState::Open { close_count, samples_count, .. } ==> close_count
            <= samples_count,
    ensures
        s is Idle && (o.status == Status::Good || o.status == Status::LocalOrPower) ==> next_state(
            s,
            o,
            cfg,
        ) is Idle && next_state(s, o, cfg)->bad_count == 0,
        s is Open && o.status != Status::Good ==> next_state(s, o, cfg) is Open && next_state(
            s,
            o,
            cfg,
        )->close_count == 0 && emitted(s, o, cfg) is None,
        s is Open && o.status == Status::Good && s->close_count + 1 < cfg.close_after
            ==> next_state(s, o, cfg) is Open && next_state(s, o, cfg)->close_count
            == s->close_count + 1 && emitted(s, o, cfg) is None,
        s is Open && o.status == Status::Good && s->close_count + 1 >= cfg.close_after
            ==> next_state(s, o, cfg) is Idle && next_state(s, o, cfg)->bad_count == 0 && emitted(
            s,
            o,
            cfg,
        ) is Some && (emitted(s, o, cfg)->0).samples_count == s->samples_count + 1 && (emitted(
            s,
            o,
            cfg,
        )->0).started == s->started,
        s is Idle ==> emitted(s, o, cfg) is None,
{
}

} // verus!
