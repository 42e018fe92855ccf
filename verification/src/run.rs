//! The monitoring loop: what to do next after everything that happens.
use crate::chain::{Record, RecordChain};
use crate::chart::record_temp;
use crate::classify::{classify, status_of};
use crate::config::{Config, TargetsCfg};
use crate::dossier::{display, record_instant, record_reading};
use crate::events::{
    emitted, event_of, initial_state, next_state, DebounceCfg, Machine, MachineState, Observation,
    OutageEvent,
};
use crate::quantity::Quantity;
use crate::timestamp::{
    has_rfc3339, rfc3339, rfc3339_form, rfc3339_text, timestamp_display, timestamp_text, Timestamp,
    SECOND,
};
use crate::trace::Hop;
use crate::types::{ProbeOutcome, Sample, Status, Thresholds};
use vstd::prelude::*;

verus! {

// ---------------------------------------------------------------------------
// Probes of a cycle
// ---------------------------------------------------------------------------

/// One probe of a cycle. Anchors are given by their index.
#[derive(Clone, Copy, Debug, PartialEq, Eq, Structural)]
pub enum Probe {
    Tcp(usize),
    Ping(usize),
    /// An anchor that cannot be pinged and counts as unreachable.
    NoPing(usize),
    Gateway,
    Http,
    Dns,
}

/// What the text of an anchor is.
#[derive(Clone, Copy, Debug, PartialEq, Eq, Structural)]
pub enum AnchorAddress {
    V4,
    V6,
    Invalid,
}

/// The probes of the first `n` TCP anchors.
pub open spec fn tcp_probes(n: nat) -> Seq<Probe> {
    Seq::new(n, |i: int| Probe::Tcp(i as usize))
}

/// The probes of the first `n` ICMP anchors; one that is no address is left out.
pub open spec fn ping_probes(addresses: Seq<AnchorAddress>, n: nat) -> Seq<Probe>
    decreases n,
{
    if n == 0 {
        seq![]
    } else {
        let before = ping_probes(addresses, (n - 1) as nat);
        match addresses[n - 1] {
            AnchorAddress::V4 => before.push(Probe::Ping((n - 1) as usize)),
            AnchorAddress::V6 => before.push(Probe::NoPing((n - 1) as usize)),
            AnchorAddress::Invalid => before,
        }
    }
}

/// The probe of the gateway, when there is one.
pub open spec fn gateway_probe(has_gateway: bool) -> Seq<Probe> {
    if has_gateway {
        seq![Probe::Gateway]
    } else {
        seq![]
    }
}

/// All probes of a cycle, in order.
pub open spec fn plan(tcp: nat, addresses: Seq<AnchorAddress>, has_gateway: bool) -> Seq<Probe> {
    tcp_probes(tcp) + ping_probes(addresses, addresses.len()) + gateway_probe(has_gateway) + seq![
        Probe::Http,
        Probe::Dns,
    ]
}

/// The probes of a cycle: TCP anchors, ICMP anchors, the gateway, HTTP and DNS.
pub fn probe_plan(
    targets: &TargetsCfg,
    addresses: &Vec<AnchorAddress>,
    has_gateway: bool,
) -> (res: Vec<Probe>)
    ensures
        res@ == plan(targets.tcp_anchors@.len(), addresses@, has_gateway),
{
    let mut res: Vec<Probe> = Vec::new();
    let mut i: usize = 0;
    while i < targets.tcp_anchors.len()
        invariant
            i <= targets.tcp_anchors@.len(),
            res@ == tcp_probes(i as nat),
        decreases targets.tcp_anchors@.len() - i,
    {
        res.push(Probe::Tcp(i));
        i += 1;
        assert(res@ == tcp_probes(i as nat));
    }
    let ghost tcp = res@;
    let mut j: usize = 0;
    assert(res@ == tcp + ping_probes(addresses@, 0));
    while j < addresses.len()
        invariant
            j <= addresses@.len(),
            res@ == tcp + ping_probes(addresses@, j as nat),
        decreases addresses@.len() - j,
    {
        let ghost before = ping_probes(addresses@, j as nat);
        match addresses[j] {
            AnchorAddress::V4 => {
                res.push(Probe::Ping(j));
                assert(res@ == tcp + before.push(Probe::Ping(j)));
            },
            AnchorAddress::V6 => {
                res.push(Probe::NoPing(j));
                assert(res@ == tcp + before.push(Probe::NoPing(j)));
            },
            AnchorAddress::Invalid => {},
        }
        j += 1;
    }
    let ghost pinged = res@;
    if has_gateway {
        res.push(Probe::Gateway);
    }
    assert(res@ == pinged + gateway_probe(has_gateway));
    let ghost asked = res@;
    res.push(Probe::Http);
    res.push(Probe::Dns);
    assert(res@ == asked + seq![Probe::Http, Probe::Dns]);
    res
}

/// The address that is traced: the gateway, or 1.1.1.1 without one.
pub fn trace_target(gateway: Option<u32>) -> (res: u32)
    ensures
        res == match gateway {
            Some(g) => g,
            None => 0x0101_0101,
        },
{
    match gateway {
        Some(g) => g,
        None => 0x0101_0101,
    }
}

// ---------------------------------------------------------------------------
// The loop
// ---------------------------------------------------------------------------

/// What the monitor waits for.
pub enum Phase {
    /// The probes of the next cycle, or the end.
    Waiting,
    /// The temperature for a cycle whose probes are done.
    Reading { ts: Timestamp, outcomes: Vec<ProbeOutcome> },
    /// The path to the target, for an outage that has ended; after the last one
    /// the monitor stops.
    Tracing { event: OutageEvent, last: bool },
    /// Nothing any more.
    Stopped,
}

/// Something that has happened.
pub enum Event {
    /// All probes of a cycle are done.
    Probed { ts: Timestamp, outcomes: Vec<ProbeOutcome> },
    /// The temperature was read, or could not be read.
    Temperature(Option<Quantity>),
    /// The path to the target was traced.
    Path(Vec<Hop>),
    /// The monitor is asked to stop.
    Shutdown(Timestamp),
}

/// What to do next.
pub enum Action {
    /// Read the temperature.
    ReadTemperature,
    /// Publish a sample and its status and append the sample to the log. Then
    /// trace the path to the target, when an outage has ended, or wait for the
    /// next cycle.
    Publish { sample: Sample, status: Status, outage: Option<OutageEvent> },
    /// Append an outage to the log, and count it unless the monitor stops. Then
    /// stop, or wait for the next cycle.
    AppendOutage { event: OutageEvent, hops: Vec<Hop>, last: bool },
    /// Trace the path to the target for an outage that is cut off.
    TracePath,
    /// Stop.
    Stop,
    /// Nothing.
    Nothing,
}

/// The monitor between two events.
pub struct Monitor {
    pub machine: Machine,
    pub phase: Phase,
    pub thresholds: Thresholds,
    pub debounce: DebounceCfg,
}

/// Whether some target was reached.
pub open spec fn any_reachable(outcomes: Seq<ProbeOutcome>) -> bool {
    exists|i: int| 0 <= i < outcomes.len() && (#[trigger] outcomes[i]).reachable
}

/// A phase, a state of the hysteresis machine, and an action.
pub struct Decision {
    pub phase: Phase,
    pub state: MachineState,
    pub action: Action,
}

/// What a finished cycle leads to.
pub open spec fn finished_cycle(
    state: MachineState,
    sample: Sample,
    thresholds: Thresholds,
    debounce: DebounceCfg,
) -> Decision {
    let status = status_of(sample.outcomes@, thresholds);
    let o = Observation { ts: sample.ts, status, temp_c: sample.temp_c };
    let outage = emitted(state, o, debounce);
    Decision {
        phase: match outage {
            Some(event) => Phase::Tracing { event, last: false },
            None => Phase::Waiting,
        },
        state: next_state(state, o, debounce),
        action: Action::Publish { sample, status, outage },
    }
}

/// What an event leads to. The temperature is read only when some target was
/// reached. An event that is not waited for changes nothing.
pub open spec fn decide(
    phase: Phase,
    state: MachineState,
    event: Event,
    thresholds: Thresholds,
    debounce: DebounceCfg,
) -> Decision {
    match (phase, event) {
        (Phase::Waiting, Event::Probed { ts, outcomes }) => if any_reachable(outcomes@) {
            Decision {
                phase: Phase::Reading { ts, outcomes },
                state,
                action: Action::ReadTemperature,
            }
        } else {
            finished_cycle(state, Sample { ts, temp_c: None, outcomes }, thresholds, debounce)
        },
        (Phase::Reading { ts, outcomes }, Event::Temperature(temp_c)) => finished_cycle(
            state,
            Sample { ts, temp_c, outcomes },
            thresholds,
            debounce,
        ),
        (Phase::Tracing { event, last }, Event::Path(hops)) => Decision {
            phase: if last {
                Phase::Stopped
            } else {
                Phase::Waiting
            },
            state,
            action: Action::AppendOutage { event, hops, last },
        },
        (Phase::Waiting, Event::Shutdown(ts)) => match event_of(state, ts) {
            Some(event) => Decision {
                phase: Phase::Tracing { event, last: true },
                state: initial_state(),
                action: Action::TracePath,
            },
            None => Decision { phase: Phase::Stopped, state, action: Action::Stop },
        },
        (phase, _) => Decision { phase, state, action: Action::Nothing },
    }
}

fn reached(outcomes: &Vec<ProbeOutcome>) -> (res: bool)
    ensures
        res == any_reachable(outcomes@),
{
    let mut i: usize = 0;
    while i < outcomes.len()
        invariant
            i <= outcomes@.len(),
            forall|j: int| 0 <= j < i ==> !(#[trigger] outcomes@[j]).reachable,
        decreases outcomes@.len() - i,
    {
        if outcomes[i].reachable {
            return true;
        }
        i += 1;
    }
    false
}

impl Monitor {
    /// A monitor that waits for its first cycle.
    pub fn new(config: &Config) -> (res: Monitor)
        ensures
            res.machine.state() == initial_state(),
            res.phase == Phase::Waiting,
            res.thresholds == config.thresholds,
            res.debounce == config.debounce,
    {
        Monitor {
            machine: Machine::new(),
            phase: Phase::Waiting,
            thresholds: config.thresholds,
            debounce: config.debounce,
        }
    }

    /// Counts a finished cycle.
    fn finish_cycle(self, sample: Sample) -> (res: (Monitor, Action))
        requires
            self.machine.can_count(),
        ensures
            ({
                let d = finished_cycle(
                    self.machine.state(),
                    sample,
                    self.thresholds,
                    self.debounce,
                );
                &&& res.0.phase == d.phase
                &&& res.0.machine.state() == d.state
                &&& res.1 == d.action
            }),
            res.0.thresholds == self.thresholds,
            res.0.debounce == self.debounce,
    {
        let Monitor { machine, phase: _, thresholds, debounce } = self;
        let mut machine = machine;
        let status = classify(&sample, &thresholds);
        let outage = machine.advance(sample.ts, status, sample.temp_c, &debounce);
        let phase = match outage {
            Some(event) => Phase::Tracing { event, last: false },
            None => Phase::Waiting,
        };
        (
            Monitor { machine, phase, thresholds, debounce },
            Action::Publish { sample, status, outage },
        )
    }

    /// Takes an event and says what to do next.
    pub fn step(self, event: Event) -> (res: (Monitor, Action))
        requires
            self.machine.can_count(),
        ensures
            ({
                let d = decide(
                    self.phase,
                    self.machine.state(),
                    event,
                    self.thresholds,
                    self.debounce,
                );
                &&& res.0.phase == d.phase
                &&& res.0.machine.state() == d.state
                &&& res.1 == d.action
            }),
            res.0.thresholds == self.thresholds,
            res.0.debounce == self.debounce,
    {
        let Monitor { machine, phase, thresholds, debounce } = self;
        let mut machine = machine;
        match (phase, event) {
            (Phase::Waiting, Event::Probed { ts, outcomes }) => {
                if reached(&outcomes) {
                    (
                        Monitor {
                            machine,
                            phase: Phase::Reading { ts, outcomes },
                            thresholds,
                            debounce,
                        },
                        Action::ReadTemperature,
                    )
                } else {
                    let m = Monitor { machine, phase: Phase::Waiting, thresholds, debounce };
                    m.finish_cycle(Sample { ts, temp_c: None, outcomes })
                }
            },
            (Phase::Reading { ts, outcomes }, Event::Temperature(temp_c)) => {
                let m = Monitor { machine, phase: Phase::Waiting, thresholds, debounce };
                m.finish_cycle(Sample { ts, temp_c, outcomes })
            },
            (Phase::Tracing { event, last }, Event::Path(hops)) => {
                let phase = if last {
                    Phase::Stopped
                } else {
                    Phase::Waiting
                };
                (
                    Monitor { machine, phase, thresholds, debounce },
                    Action::AppendOutage { event, hops, last },
                )
            },
            (Phase::Waiting, Event::Shutdown(ts)) => match machine.force_close(ts) {
                Some(event) => (
                    Monitor {
                        machine,
                        phase: Phase::Tracing { event, last: true },
                        thresholds,
                        debounce,
                    },
                    Action::TracePath,
                ),
                None => (
                    Monitor { machine, phase: Phase::Stopped, thresholds, debounce },
                    Action::Stop,
                ),
            },
            (phase, _) => (Monitor { machine, phase, thresholds, debounce }, Action::Nothing),
        }
    }
}

// ---------------------------------------------------------------------------
// Records
// ---------------------------------------------------------------------------

/// Chain fields that are still to be filled in.
pub open spec fn unplaced(chain: RecordChain) -> bool {
    chain.seq == 0 && chain.prev_hash@ == ""@ && chain.hash@ == ""@
}

fn no_place() -> (res: RecordChain)
    ensures
        unplaced(res),
{
    RecordChain { seq: 0, prev_hash: "".to_owned(), hash: "".to_owned() }
}

/// The text that stands in the log for the time of a sample: its RFC 3339 form,
/// or its displayed form when it has none.
pub open spec fn log_time(t: Timestamp) -> Seq<char> {
    if has_rfc3339(t.clock(), t.offset()) {
        rfc3339_form(t.clock(), t.offset())
    } else {
        display(t)
    }
}

/// The record of a sample. A time that has an RFC 3339 form is read back from
/// the record as it was.
pub fn sample_record(sample: Sample) -> (res: Record)
    ensures
        res matches Record::Sample { chain, ts, temp_c, outcomes } && unplaced(chain) && ts@
            == log_time(sample.ts) && temp_c == sample.temp_c && outcomes == sample.outcomes,
        has_rfc3339(sample.ts.clock(), sample.ts.offset()) ==> (res matches Record::Sample {
            ts,
            ..
        } && rfc3339(ts@) == Some((sample.ts.clock(), sample.ts.offset()))),
{
    let ts = match rfc3339_text(&sample.ts) {
        Some(s) => s,
        None => timestamp_text(&sample.ts),
    };
    Record::Sample { chain: no_place(), ts, temp_c: sample.temp_c, outcomes: sample.outcomes }
}

/// The record of an outage.
pub fn outage_record(event: OutageEvent, hops: Vec<Hop>) -> (res: Record)
    ensures
        res matches Record::Outage { chain, event: e, hops: h } && unplaced(chain) && e == event
            && h == hops,
{
    Record::Outage { chain: no_place(), event, hops }
}

// ---------------------------------------------------------------------------
// Laws
// ---------------------------------------------------------------------------

/// Every cycle publishes exactly one sample, with the outcomes of its probes:
/// at once and without a temperature when no target was reached, and otherwise
/// when the temperature is there.
pub proof fn law_one_sample_per_cycle(
    state: MachineState,
    ts: Timestamp,
    outcomes: Vec<ProbeOutcome>,
    temp_c: Option<Quantity>,
    thresholds: Thresholds,
    debounce: DebounceCfg,
)
    ensures
        ({
            let first = decide(
                Phase::Waiting,
                state,
                Event::Probed { ts, outcomes },
                thresholds,
                debounce,
            );
            let second = decide(
                first.phase,
                first.state,
                Event::Temperature(temp_c),
                thresholds,
                debounce,
            );
            let status = status_of(outcomes@, thresholds);
            if any_reachable(outcomes@) {
                &&& first.action is ReadTemperature
                &&& first.state == state
                &&& second.action matches Action::Publish { sample, status: s, .. } && s == status
                    && sample == (Sample { ts, temp_c, outcomes })
            } else {
                &&& first.action matches Action::Publish { sample, status: s, .. } && s == status
                    && sample == (Sample { ts, temp_c: None, outcomes })
                &&& second.action is Nothing
            }
        }),
{
}

/// An outage whose path is traced is appended with that path, and only once.
pub proof fn law_outage_is_appended_once(
    state: MachineState,
    event: OutageEvent,
    last: bool,
    hops: Vec<Hop>,
    thresholds: Thresholds,
    debounce: DebounceCfg,
)
    ensures
        ({
            let first = decide(
                Phase::Tracing { event, last },
                state,
                Event::Path(hops),
                thresholds,
                debounce,
            );
            &&& first.action == (Action::AppendOutage { event, hops, last })
            &&& first.state == state
            &&& decide(first.phase, state, Event::Path(hops), thresholds, debounce).action is Nothing
        }),
{
}

/// A sample record whose time reads as a timestamp counts in the dossier and in
/// the chart at that instant: it has that instant, and its temperature, when it
/// has one, is a reading at it.
pub proof fn law_sample_counts(r: Record, t: Timestamp)
    requires
        r matches Record::Sample { ts, .. } && rfc3339(ts@) == Some((t.clock(), t.offset())),
    ensures
        record_instant(r) == Some(t.instant()),
        r matches Record::Sample { temp_c, .. } && record_reading(r) == match temp_c {
            Some(c) => Some((t.instant(), c)),
            None => None,
        },
        r matches Record::Sample { temp_c, .. } && record_temp(r) == match temp_c {
            Some(c) => Some(((t.instant() / (SECOND as int)) as i64, c)),
            None => None,
        },
{
}

/// A stop with no event open ends the monitor at once; with an event open, the
/// event is cut off at that instant, traced and appended, and then the monitor
/// ends.
pub proof fn law_shutdown(
    state: MachineState,
    ts: Timestamp,
    hops: Vec<Hop>,
    thresholds: Thresholds,
    debounce: DebounceCfg,
)
    ensures
        ({
            let first = decide(
                Phase::Waiting,
                state,
                Event::Shutdown(ts),
                thresholds,
                debounce,
            );
            let second = decide(first.phase, first.state, Event::Path(hops), thresholds, debounce);
            match event_of(state, ts) {
                None => first.action is Stop && first.phase is Stopped,
                Some(event) => {
                    &&& event.ended == Some(ts)
                    &&& first.action is TracePath
                    &&& second.action == (Action::AppendOutage { event, hops, last: true })
                    &&& second.phase is Stopped
                },
            }
        }),
{
}

/// Every anchor that can be pinged is pinged and every other one with an address
/// is counted as unreachable, once each and in order; an anchor without an address
/// is left out.
pub proof fn law_ping_probes(addresses: Seq<AnchorAddress>, n: nat) -> (places: Seq<int>)
    requires
        n <= addresses.len(),
        n <= usize::MAX,
    ensures
        places.len() == ping_probes(addresses, n).len(),
        forall|a: int, b: int|
            0 <= a < b < places.len() ==> #[trigger] places[a] < #[trigger] places[b],
        forall|a: int|
            0 <= a < places.len() ==> 0 <= #[trigger] places[a] < n && (addresses[places[a]]
                == AnchorAddress::V4 && ping_probes(addresses, n)[a] == Probe::Ping(
                places[a] as usize,
            ) || addresses[places[a]] == AnchorAddress::V6 && ping_probes(addresses, n)[a]
                == Probe::NoPing(places[a] as usize)),
        forall|i: int|
            0 <= i < n && #[trigger] addresses[i] != AnchorAddress::Invalid ==> places.contains(i),
    decreases n,
{
    if n == 0 {
        Seq::empty()
    } else {
        let before = law_ping_probes(addresses, (n - 1) as nat);
        let last = n - 1;
        if addresses[last] == AnchorAddress::Invalid {
            before
        } else {
            let places = before.push(last);
            assert(places[places.len() - 1] == last);
            assert forall|i: int|
                0 <= i < n && #[trigger] addresses[i] != AnchorAddress::Invalid implies places.contains(
                i,
            ) by {
                if i < last {
                    let k = before.index_of(i);
                    assert(places[k] == i);
                }
            }
            places
        }
    }
}

/// A cycle connects to every TCP anchor in order, then pings the ICMP anchors, then
/// the gateway when there is one, and asks the web and the name server last.
pub proof fn law_plan(tcp: nat, addresses: Seq<AnchorAddress>, has_gateway: bool)
    ensures
        ({
            let all = plan(tcp, addresses, has_gateway);
            let pings = ping_probes(addresses, addresses.len());
            let n = (tcp + pings.len()) as int;
            &&& all.len() == n + (if has_gateway {
                3int
            } else {
                2
            })
            &&& forall|i: int| 0 <= i < tcp ==> #[trigger] all[i] == Probe::Tcp(i as usize)
            &&& all.subrange(tcp as int, n) == pings
            &&& has_gateway ==> all[n] == Probe::Gateway
            &&& all[all.len() - 2] == Probe::Http
            &&& all[all.len() - 1] == Probe::Dns
        }),
{
    let all = plan(tcp, addresses, has_gateway);
    let pings = ping_probes(addresses, addresses.len());
    assert(all.subrange(tcp as int, (tcp + pings.len()) as int) == pings);
}

/// A finished cycle counts its sample, with its time, its status and its
/// temperature. When that ends an outage, the outage is published with the sample,
/// traced and appended, once, and the next cycle is waited for; else the next cycle
/// is waited for at once.
pub proof fn law_finished_cycle(
    state: MachineState,
    ts: Timestamp,
    outcomes: Vec<ProbeOutcome>,
    temp_c: Option<Quantity>,
    hops: Vec<Hop>,
    thresholds: Thresholds,
    debounce: DebounceCfg,
)
    ensures
        ({
            let reached = exists|i: int|
                0 <= i < outcomes@.len() && (#[trigger] outcomes@[i]).reachable;
            let first = decide(
                Phase::Waiting,
                state,
                Event::Probed { ts, outcomes },
                thresholds,
                debounce,
            );
            let done = if reached {
                decide(
                    first.phase,
                    first.state,
                    Event::Temperature(temp_c),
                    thresholds,
                    debounce,
                )
            } else {
                first
            };
            let seen = Observation {
                ts,
                status: status_of(outcomes@, thresholds),
                temp_c: if reached {
                    temp_c
                } else {
                    None
                },
            };
            let traced = decide(done.phase, done.state, Event::Path(hops), thresholds, debounce);
            &&& done.state == next_state(state, seen, debounce)
            &&& done.action == (Action::Publish {
                sample: Sample { ts, temp_c: seen.temp_c, outcomes },
                status: seen.status,
                outage: emitted(state, seen, debounce),
            })
            &&& emitted(state, seen, debounce) is None ==> done.phase is Waiting
            &&& emitted(state, seen, debounce) matches Some(event) ==> traced.action == (
            Action::AppendOutage { event, hops, last: false }) && traced.phase is Waiting
                && traced.state == done.state
        }),
{
}

/// What is not waited for changes nothing: neither the phase nor the state, and
/// nothing is done.
pub proof fn law_unexpected_event(
    phase: Phase,
    state: MachineState,
    event: Event,
    thresholds: Thresholds,
    debounce: DebounceCfg,
)
    requires
        phase is Waiting ==> !(event is Probed) && !(event is Shutdown),
        phase is Reading ==> !(event is Temperature),
        phase is Tracing ==> !(event is Path),
    ensures
        decide(phase, state, event, thresholds, debounce) == (Decision {
            phase,
            state,
            action: Action::Nothing,
        }),
{
}

/// A stop closes the open event: afterwards no event is open.
pub proof fn law_shutdown_closes(
    state: MachineState,
    ts: Timestamp,
    thresholds: Thresholds,
    debounce: DebounceCfg,
)
    ensures
        decide(Phase::Waiting, state, Event::Shutdown(ts), thresholds, debounce).state is Idle,
        state is Open ==> decide(
            Phase::Waiting,
            state,
            Event::Shutdown(ts),
            thresholds,
            debounce,
        ).action is TracePath,
        state is Idle ==> decide(
            Phase::Waiting,
            state,
            Event::Shutdown(ts),
            thresholds,
            debounce,
        ).action is Stop,
{
}

/// The time of a sample is logged in its RFC 3339 form when it has one, and as it is
/// displayed otherwise; a record that is not in the log yet has no place in it.
pub proof fn law_log_time(t: Timestamp, chain: RecordChain)
    ensures
        has_rfc3339(t.clock(), t.offset()) ==> log_time(t) == rfc3339_form(t.clock(), t.offset()),
        !has_rfc3339(t.clock(), t.offset()) ==> log_time(t) == timestamp_display(
            t.clock(),
            t.offset(),
        ),
        unplaced(chain) <==> chain.seq == 0 && chain.prev_hash@.len() == 0 && chain.hash@.len()
            == 0,
{
    reveal_strlit("");
    if chain.prev_hash@.len() == 0 && chain.hash@.len() == 0 {
        assert(chain.prev_hash@ == ""@);
        assert(chain.hash@ == ""@);
    }
}

} // verus!
