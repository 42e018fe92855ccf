//! What the hysteresis machine says about the samples it was fed.
use crate::events::{
    bad, category_for, colder, counted, emitted, event_of, has_room, initial_state, next_state,
    severity_rank, worse, AgcomCategory, DebounceCfg, MachineState, Observation, OutageEvent,
};
use crate::quantity::Quantity;
use crate::timestamp::Timestamp;
use crate::types::Status;
use vstd::prelude::*;

verus! {

/// The state of a fresh machine after a history of samples.
pub open spec fn state_after(h: Seq<Observation>, cfg: DebounceCfg) -> MachineState
    decreases h.len(),
{
    if h.len() == 0 {
        initial_state()
    } else {
        next_state(state_after(h.drop_last(), cfg), h.last(), cfg)
    }
}

/// Whether every sample of a history could be counted: whenever one came while
/// an event was open, the count of that event had room.
pub open spec fn countable(h: Seq<Observation>, cfg: DebounceCfg) -> bool
    decreases h.len(),
{
    h.len() > 0 ==> {
        &&& countable(h.drop_last(), cfg)
        &&& has_room(state_after(h.drop_last(), cfg))
    }
}

/// The most severe status among samples, the earliest of equals.
pub open spec fn worst_over(h: Seq<Observation>) -> Status
    decreases h.len(),
{
    if h.len() <= 1 {
        h[0].status
    } else {
        worse(worst_over(h.drop_last()), h.last().status)
    }
}

/// The lowest temperature known among samples.
pub open spec fn coldest_over(h: Seq<Observation>) -> Option<Quantity>
    decreases h.len(),
{
    if h.len() <= 1 {
        h[0].temp_c
    } else {
        colder(coldest_over(h.drop_last()), h.last().temp_c)
    }
}

/// Whether every sample from `lo` up to `hi` counts toward an outage.
pub open spec fn all_bad(h: Seq<Observation>, lo: int, hi: int) -> bool {
    forall|i: int| lo <= i < hi ==> bad((#[trigger] h[i]).status)
}

/// Whether every sample from `lo` up to `hi` is good.
pub open spec fn all_good(h: Seq<Observation>, lo: int, hi: int) -> bool {
    forall|i: int| lo <= i < hi ==> (#[trigger] h[i]).status == Status::Good
}

/// Whether no bad sample comes right before the one at `first`.
pub open spec fn starts_run(h: Seq<Observation>, first: int) -> bool {
    first == 0 || !bad(h[first - 1].status)
}

/// How many bad samples in a row open an event. The first one always can.
pub open spec fn opening(cfg: DebounceCfg) -> int {
    if cfg.open_after == 0 {
        1
    } else {
        cfg.open_after as int
    }
}

/// What an open event says of the history it was built from: it covers the
/// last `count` samples. The first of them gives the start, and no bad sample
/// comes right before it. The leading ones, as many as open an event, are all
/// bad. The worst status and the lowest
/// temperature are taken over all of them, and the last `good` are good.
pub open spec fn covers(
    h: Seq<Observation>,
    cfg: DebounceCfg,
    count: int,
    good: int,
    started: Timestamp,
    worst: Status,
    min_temp: Option<Quantity>,
) -> bool {
    let first = h.len() - count;
    let span = h.skip(first);
    &&& opening(cfg) <= count <= h.len()
    &&& 0 <= good <= count - opening(cfg)
    &&& started == h[first].ts
    &&& starts_run(h, first)
    &&& all_bad(h, first, first + opening(cfg))
    &&& all_good(h, h.len() - good, h.len() as int)
    &&& h[h.len() - good - 1].status != Status::Good
    &&& worst == worst_over(span)
    &&& min_temp == coldest_over(span)
}

/// What a state says of the history it was reached by.
pub open spec fn explains(s: MachineState, h: Seq<Observation>, cfg: DebounceCfg) -> bool {
    match s {
        MachineState::Idle { bad_count, streak_started, streak_worst, streak_min_temp } => {
            let first = h.len() - bad_count;
            &&& bad_count <= h.len()
            &&& bad_count > 0 ==> bad_count < cfg.open_after
            &&& all_bad(h, first, h.len() as int)
            &&& starts_run(h, first)
            &&& bad_count > 0 ==> {
                &&& streak_started == h[first].ts
                &&& streak_worst == worst_over(h.skip(first))
                &&& streak_min_temp == coldest_over(h.skip(first))
            }
        },
        MachineState::Open { close_count, started, worst_status, min_temp_c, samples_count } => {
            &&& covers(
                h,
                cfg,
                samples_count as int,
                close_count as int,
                started,
                worst_status,
                min_temp_c,
            )
            &&& close_count > 0 ==> close_count < cfg.close_after
        },
    }
}

proof fn lemma_span_grows(h: Seq<Observation>, first: int)
    requires
        0 <= first < h.len() - 1,
    ensures
        worst_over(h.skip(first)) == worse(worst_over(h.drop_last().skip(first)), h.last().status),
        coldest_over(h.skip(first)) == colder(
            coldest_over(h.drop_last().skip(first)),
            h.last().temp_c,
        ),
{
    assert(h.skip(first).drop_last() == h.drop_last().skip(first));
    assert(h.skip(first).last() == h.last());
}

proof fn lemma_counted(s: MachineState, h: Seq<Observation>, cfg: DebounceCfg)
    requires
        0 < h.len(),
        has_room(s),
        explains(s, h.drop_last(), cfg),
    ensures
        s is Idle ==> explains(counted(s, h.last(), cfg), h, cfg),
        counted(s, h.last(), cfg) matches MachineState::Open {
            close_count,
            started,
            worst_status,
            min_temp_c,
            samples_count,
        } ==> covers(
            h,
            cfg,
            samples_count as int,
            close_count as int,
            started,
            worst_status,
            min_temp_c,
        ),
{
    let g = h.drop_last();
    let o = h.last();
    let n = g.len() as int;
    assert(forall|i: int| 0 <= i < n ==> h[i] == g[i]);
    match s {
        MachineState::Idle { bad_count, .. } => {
            let first = n - bad_count;
            if bad(o.status) {
                if bad_count == 0 {
                    assert(h.skip(n) == seq![o]);
                } else {
                    lemma_span_grows(h, first);
                }
                assert forall|i: int| first <= i < h.len() implies bad((#[trigger] h[i]).status) by {
                    if i < n {
                        assert(bad(g[i].status));
                    }
                }
            }
        },
        MachineState::Open { close_count, samples_count, .. } => {
            let first = n - samples_count;
            lemma_span_grows(h, first);
            assert forall|i: int| first <= i < first + opening(cfg) implies bad(
                (#[trigger] h[i]).status,
            ) by {
                assert(bad(g[i].status));
            }
            let good: int = if o.status == Status::Good {
                close_count + 1
            } else {
                0
            };
            assert forall|i: int| h.len() - good <= i < h.len() implies (#[trigger] h[i]).status
                == Status::Good by {
                if i < n {
                    assert(g[i].status == Status::Good);
                }
            }
        },
    }
}

/// Every state that a fresh machine reaches describes the samples that led to
/// it: an idle state with a count of bad samples has just seen that many in a
/// row, and an open state covers its event as [`covers`] says.
pub proof fn law_state_explains_history(h: Seq<Observation>, cfg: DebounceCfg)
    requires
        countable(h, cfg),
    ensures
        explains(state_after(h, cfg), h, cfg),
    decreases h.len(),
{
    if h.len() > 0 {
        law_state_explains_history(h.drop_last(), cfg);
        lemma_counted(state_after(h.drop_last(), cfg), h, cfg);
    }
}

/// A history of no more samples than can be counted at all is countable.
pub proof fn law_short_history_is_countable(h: Seq<Observation>, cfg: DebounceCfg)
    requires
        h.len() <= u32::MAX,
    ensures
        countable(h, cfg),
    decreases h.len(),
{
    if h.len() > 0 {
        law_short_history_is_countable(h.drop_last(), cfg);
        law_state_explains_history(h.drop_last(), cfg);
    }
}

proof fn lemma_worst_is_down(h: Seq<Observation>)
    requires
        h.len() > 0,
    ensures
        worst_over(h) == Status::Down <==> exists|i: int|
            0 <= i < h.len() && (#[trigger] h[i]).status == Status::Down,
    decreases h.len(),
{
    if h.len() > 1 {
        let g = h.drop_last();
        lemma_worst_is_down(g);
        if exists|i: int| 0 <= i < h.len() && (#[trigger] h[i]).status == Status::Down {
            let i = choose|i: int| 0 <= i < h.len() && (#[trigger] h[i]).status == Status::Down;
            if i < g.len() {
                assert(g[i].status == Status::Down);
            }
        }
        if exists|i: int| 0 <= i < g.len() && (#[trigger] g[i]).status == Status::Down {
            let i = choose|i: int| 0 <= i < g.len() && (#[trigger] g[i]).status == Status::Down;
            assert(h[i].status == Status::Down);
        }
        if h.last().status == Status::Down {
            assert(h[h.len() - 1].status == Status::Down);
        }
    } else {
        assert(h[0].status == worst_over(h));
    }
}

proof fn lemma_worst_bounds(h: Seq<Observation>, i: int)
    requires
        0 <= i < h.len(),
    ensures
        severity_rank(h[i].status) <= severity_rank(worst_over(h)),
    decreases h.len(),
{
    if h.len() > 1 && i < h.len() - 1 {
        lemma_worst_bounds(h.drop_last(), i);
    }
}

/// Whether an event tells the truth about the last `samples_count` samples of
/// a history, the last `good` of which are good.
pub open spec fn truthful(
    ev: OutageEvent,
    h: Seq<Observation>,
    cfg: DebounceCfg,
    good: int,
) -> bool {
    let first = h.len() - ev.samples_count;
    &&& covers(
        h,
        cfg,
        ev.samples_count as int,
        good,
        ev.started,
        ev.worst_status,
        ev.min_temp_c,
    )
    &&& forall|i: int|
        first <= i < h.len() ==> severity_rank((#[trigger] h[i]).status) <= severity_rank(
            ev.worst_status,
        )
    &&& ev.category == AgcomCategory::CompleteInterruption <==> exists|i: int|
        first <= i < h.len() && (#[trigger] h[i]).status == Status::Down
}

proof fn lemma_truthful(ev: OutageEvent, h: Seq<Observation>, cfg: DebounceCfg, good: int)
    requires
        covers(h, cfg, ev.samples_count as int, good, ev.started, ev.worst_status, ev.min_temp_c),
        ev.category == category_for(ev.worst_status),
    ensures
        truthful(ev, h, cfg, good),
{
    let first = h.len() - ev.samples_count;
    let span = h.skip(first);
    lemma_worst_is_down(span);
    assert forall|i: int| first <= i < h.len() implies severity_rank((#[trigger] h[i]).status)
        <= severity_rank(ev.worst_status) by {
        lemma_worst_bounds(span, i - first);
    }
    if exists|i: int| first <= i < h.len() && (#[trigger] h[i]).status == Status::Down {
        let i = choose|i: int| first <= i < h.len() && (#[trigger] h[i]).status == Status::Down;
        assert(span[i - first].status == Status::Down);
    }
    if exists|i: int| 0 <= i < span.len() && (#[trigger] span[i]).status == Status::Down {
        let i = choose|i: int| 0 <= i < span.len() && (#[trigger] span[i]).status == Status::Down;
        assert(h[first + i].status == Status::Down);
    }
}

/// An event that the last sample of a history emits ends at that sample, after
/// at least `close_after` good samples in a row, and is truthful: it opened on
/// at least `open_after` bad samples in a row, starts at the first of them,
/// counts every sample since, and is a complete interruption exactly when one
/// of them was `Down`.
pub proof fn law_emitted_event_is_truthful(h: Seq<Observation>, cfg: DebounceCfg)
    requires
        0 < h.len(),
        countable(h, cfg),
    ensures
        emitted(state_after(h.drop_last(), cfg), h.last(), cfg) matches Some(ev) ==> {
            &&& ev.ended == Some(h.last().ts)
            &&& exists|good: int| good >= cfg.close_after && good > 0 && #[trigger] truthful(ev, h, cfg, good)
        },
{
    let s = state_after(h.drop_last(), cfg);
    law_state_explains_history(h.drop_last(), cfg);
    lemma_counted(s, h, cfg);
    if let Some(ev) = emitted(s, h.last(), cfg) {
        match counted(s, h.last(), cfg) {
            MachineState::Open { close_count, .. } => {
                lemma_truthful(ev, h, cfg, close_count as int);
            },
            _ => {},
        }
    }
}

/// An event that is closed by force ends at the given time and is truthful
/// about the history so far.
pub proof fn law_forced_event_is_truthful(h: Seq<Observation>, cfg: DebounceCfg, ts: Timestamp)
    requires
        countable(h, cfg),
    ensures
        event_of(state_after(h, cfg), ts) matches Some(ev) ==> {
            &&& ev.ended == Some(ts)
            &&& exists|good: int| #[trigger] truthful(ev, h, cfg, good)
        },
{
    law_state_explains_history(h, cfg);
    match state_after(h, cfg) {
        MachineState::Open { close_count, .. } => {
            lemma_truthful(event_of(state_after(h, cfg), ts)->0, h, cfg, close_count as int);
        },
        _ => {},
    }
}

/// A history without `open_after` bad samples in a row opens no event: short
/// blips and flapping are filtered out.
pub proof fn law_no_event_without_streak(h: Seq<Observation>, cfg: DebounceCfg)
    requires
        forall|lo: int|
            0 <= lo && lo + opening(cfg) <= h.len() ==> !#[trigger] all_bad(
                h,
                lo,
                lo + opening(cfg),
            ),
    ensures
        state_after(h, cfg) is Idle,
        h.len() > 0 ==> emitted(state_after(h.drop_last(), cfg), h.last(), cfg) is None,
        countable(h, cfg),
    decreases h.len(),
{
    if h.len() > 0 {
        let g = h.drop_last();
        assert forall|lo: int| 0 <= lo && lo + opening(cfg) <= g.len() implies !#[trigger] all_bad(
            g,
            lo,
            lo + opening(cfg),
        ) by {
            assert(!all_bad(h, lo, lo + opening(cfg)));
            let i = choose|i: int|
                lo <= i < lo + opening(cfg) && !bad((#[trigger] h[i]).status);
            assert(!bad(g[i].status));
        }
        law_no_event_without_streak(g, cfg);
    }
    law_state_explains_history(h, cfg);
    if let MachineState::Open { samples_count, .. } = state_after(h, cfg) {
        let lo = h.len() - samples_count;
        assert(!all_bad(h, lo, lo + opening(cfg)));
    }
}

/// How many good samples in a row close an event. One is always needed.
pub open spec fn closing(cfg: DebounceCfg) -> int {
    if cfg.close_after == 0 {
        1
    } else {
        cfg.close_after as int
    }
}

/// After `close_after` good samples in a row no event is open, whatever came
/// before them.
pub proof fn law_good_run_closes(h: Seq<Observation>, cfg: DebounceCfg)
    requires
        closing(cfg) <= h.len(),
        countable(h, cfg),
        all_good(h, h.len() - closing(cfg), h.len() as int),
    ensures
        state_after(h, cfg) is Idle,
{
    law_state_explains_history(h, cfg);
    if let MachineState::Open { close_count, .. } = state_after(h, cfg) {
        assert(h[h.len() - close_count - 1].status != Status::Good);
    }
}

/// `open_after` bad samples in a row open an event, whatever came before them.
pub proof fn law_streak_opens(h: Seq<Observation>, cfg: DebounceCfg)
    requires
        opening(cfg) <= h.len(),
        countable(h, cfg),
        all_bad(h, h.len() - opening(cfg), h.len() as int),
    ensures
        state_after(h, cfg) is Open,
{
    lemma_streak_counts(h, cfg, opening(cfg));
}

proof fn lemma_streak_counts(h: Seq<Observation>, cfg: DebounceCfg, k: int)
    requires
        0 <= k <= h.len(),
        countable(h, cfg),
        all_bad(h, h.len() - k, h.len() as int),
    ensures
        state_after(h, cfg) matches MachineState::Idle { bad_count, .. } ==> k <= bad_count && (k > 0
            ==> bad_count < opening(cfg)),
    decreases h.len(),
{
    if k > 0 {
        let g = h.drop_last();
        assert(all_bad(g, g.len() - (k - 1), g.len() as int)) by {
            assert forall|i: int| g.len() - (k - 1) <= i < g.len() implies bad(
                (#[trigger] g[i]).status,
            ) by {
                assert(bad(h[i].status));
            }
        }
        lemma_streak_counts(g, cfg, k - 1);
        assert(bad(h[h.len() - 1].status));
        law_state_explains_history(g, cfg);
    }
}


// ---------------------------------------------------------------------------
// When an event is emitted
// ---------------------------------------------------------------------------

/// Whether the last sample of a history emits an event.
pub open spec fn emits(h: Seq<Observation>, cfg: DebounceCfg) -> bool {
    h.len() > 0 && emitted(state_after(h.drop_last(), cfg), h.last(), cfg) is Some
}

/// The number of samples up to and with the last one that emitted an event; zero
/// when none did.
pub open spec fn last_emission(h: Seq<Observation>, cfg: DebounceCfg) -> nat
    decreases h.len(),
{
    if h.len() == 0 {
        0
    } else if emits(h, cfg) {
        h.len()
    } else {
        last_emission(h.drop_last(), cfg)
    }
}

/// Whether `open_after` bad samples in a row stand between two places.
pub open spec fn streak_between(
    h: Seq<Observation>,
    cfg: DebounceCfg,
    from: int,
    to: int,
) -> bool {
    exists|lo: int|
        from <= lo && lo + opening(cfg) <= to && #[trigger] all_bad(h, lo, lo + opening(cfg))
}

/// What a state says of the samples since the last event: while it is idle
/// there was no streak among them, and when it is open it was opened by the
/// streak at the start of what it covers.
spec fn since_event(s: MachineState, h: Seq<Observation>, cfg: DebounceCfg) -> bool {
    let from = last_emission(h, cfg) as int;
    &&& 0 <= from <= h.len()
    &&& from > 0 ==> !bad(h[from - 1].status)
    &&& match s {
        MachineState::Idle { bad_count, .. } => {
            &&& from <= h.len() - bad_count
            &&& !streak_between(h, cfg, from, h.len() as int)
        },
        MachineState::Open { samples_count, .. } => from <= h.len() - samples_count,
    }
}

proof fn lemma_streak_shorter(h: Seq<Observation>, cfg: DebounceCfg, from: int, to: int)
    requires
        0 < h.len(),
        0 <= from,
        to < h.len(),
    ensures
        streak_between(h, cfg, from, to) == streak_between(h.drop_last(), cfg, from, to),
{
    let g = h.drop_last();
    assert(forall|i: int| 0 <= i < g.len() ==> h[i] == g[i]);
    assert forall|lo: int| from <= lo && lo + opening(cfg) <= to implies #[trigger] all_bad(
        h,
        lo,
        lo + opening(cfg),
    ) == all_bad(g, lo, lo + opening(cfg)) by {
        if all_bad(h, lo, lo + opening(cfg)) {
            assert forall|i: int| lo <= i < lo + opening(cfg) implies bad(
                (#[trigger] g[i]).status,
            ) by {
                assert(bad(h[i].status));
            }
        }
        if all_bad(g, lo, lo + opening(cfg)) {
            assert forall|i: int| lo <= i < lo + opening(cfg) implies bad(
                (#[trigger] h[i]).status,
            ) by {
                assert(bad(g[i].status));
            }
        }
    }
    if streak_between(g, cfg, from, to) {
        let lo = choose|lo: int|
            from <= lo && lo + opening(cfg) <= to && #[trigger] all_bad(g, lo, lo + opening(cfg));
        assert(all_bad(h, lo, lo + opening(cfg)));
    }
}

proof fn lemma_since_event(h: Seq<Observation>, cfg: DebounceCfg)
    requires
        countable(h, cfg),
    ensures
        since_event(state_after(h, cfg), h, cfg),
    decreases h.len(),
{
    if h.len() > 0 {
        let g = h.drop_last();
        let s = state_after(g, cfg);
        let from = last_emission(g, cfg) as int;
        lemma_since_event(g, cfg);
        law_state_explains_history(g, cfg);
        assert(forall|i: int| 0 <= i < g.len() ==> h[i] == g[i]);
        if !emits(h, cfg) {
            if let MachineState::Idle { bad_count, .. } = s {
                lemma_streak_shorter(h, cfg, from, g.len() as int);
                if state_after(h, cfg) is Idle && streak_between(h, cfg, from, h.len() as int) {
                    let lo = choose|lo: int|
                        from <= lo && lo + opening(cfg) <= h.len() && #[trigger] all_bad(
                            h,
                            lo,
                            lo + opening(cfg),
                        );
                    if lo + opening(cfg) <= g.len() {
                        assert(streak_between(h, cfg, from, g.len() as int));
                    } else {
                        assert(bad(h[h.len() - 1].status));
                        let first = g.len() - bad_count;
                        if first > lo {
                            assert(bad(h[first - 1].status));
                        }
                    }
                }
            }
        }
    }
}

/// A sample emits an event exactly when the last `close_after` samples, with
/// this one, are good, and `open_after` bad samples in a row stand before them
/// since the last event.
pub proof fn law_emits_exactly(h: Seq<Observation>, cfg: DebounceCfg)
    requires
        0 < h.len(),
        countable(h, cfg),
    ensures
        emits(h, cfg) <==> {
            &&& closing(cfg) <= h.len()
            &&& all_good(h, h.len() - closing(cfg), h.len() as int)
            &&& streak_between(
                h,
                cfg,
                last_emission(h.drop_last(), cfg) as int,
                h.len() - closing(cfg),
            )
        },
{
    let g = h.drop_last();
    let s = state_after(g, cfg);
    let from = last_emission(g, cfg) as int;
    let n = closing(cfg);
    lemma_since_event(g, cfg);
    law_state_explains_history(g, cfg);
    assert(forall|i: int| 0 <= i < g.len() ==> h[i] == g[i]);
    if emits(h, cfg) {
        if let MachineState::Open { close_count, samples_count, .. } = s {
            let first = g.len() - samples_count;
            assert(all_bad(h, first, first + opening(cfg))) by {
                assert forall|i: int| first <= i < first + opening(cfg) implies bad(
                    (#[trigger] h[i]).status,
                ) by {
                    assert(bad(g[i].status));
                }
            }
            assert forall|i: int| h.len() - n <= i < h.len() implies (#[trigger] h[i]).status
                == Status::Good by {
                if i < g.len() {
                    assert(g[i].status == Status::Good);
                }
            }
        }
    }
    if n <= h.len() && all_good(h, h.len() - n, h.len() as int) && streak_between(
        h,
        cfg,
        from,
        h.len() - n,
    ) {
        lemma_streak_shorter(h, cfg, from, h.len() - n);
        let lo = choose|lo: int|
            from <= lo && lo + opening(cfg) <= h.len() - n && #[trigger] all_bad(
                g,
                lo,
                lo + opening(cfg),
            );
        assert(streak_between(g, cfg, from, g.len() as int));
        assert(h[h.len() - 1].status == Status::Good);
        if let MachineState::Open { close_count, .. } = s {
            assert(g[g.len() - close_count - 1].status != Status::Good);
        }
    }
}

/// The worst status of some samples is that of one of them, no sample has a worse
/// one, and no earlier sample has one as bad.
pub proof fn law_worst_over(h: Seq<Observation>) -> (k: int)
    requires
        h.len() > 0,
    ensures
        0 <= k < h.len(),
        worst_over(h) == h[k].status,
        forall|i: int|
            0 <= i < h.len() ==> severity_rank((#[trigger] h[i]).status) <= severity_rank(
                h[k].status,
            ),
        forall|i: int|
            0 <= i < k ==> severity_rank((#[trigger] h[i]).status) < severity_rank(h[k].status),
    decreases h.len(),
{
    if h.len() == 1 {
        0
    } else {
        let g = h.drop_last();
        let k = law_worst_over(g);
        assert(forall|i: int| 0 <= i < g.len() ==> g[i] == h[i]);
        if severity_rank(h.last().status) > severity_rank(g[k].status) {
            h.len() - 1
        } else {
            k
        }
    }
}

/// The lowest temperature of some samples is unknown only when all are; else it is
/// that of one of them, and it is above none of the others.
pub proof fn law_coldest_over(h: Seq<Observation>)
    requires
        h.len() > 0,
    ensures
        coldest_over(h) is None <==> forall|i: int|
            0 <= i < h.len() ==> (#[trigger] h[i]).temp_c is None,
        coldest_over(h) is Some ==> exists|i: int|
            0 <= i < h.len() && (#[trigger] h[i]).temp_c == coldest_over(h),
        forall|i: int|
            0 <= i < h.len() && (#[trigger] h[i]).temp_c is Some ==> coldest_over(h) is Some && !(
            coldest_over(h)->0).above(h[i].temp_c->0) && ((coldest_over(h)->0).nan()
                ==> h[i].temp_c->0.nan()),
    decreases h.len(),
{
    if h.len() > 1 {
        let g = h.drop_last();
        law_coldest_over(g);
        assert(forall|i: int| 0 <= i < g.len() ==> g[i] == h[i]);
        let before = coldest_over(g);
        let last = h[h.len() - 1].temp_c;
        assert(coldest_over(h) == colder(before, last));
        if coldest_over(h) is Some {
            if coldest_over(h) == last {
                assert(h[h.len() - 1].temp_c == coldest_over(h));
            } else {
                let i = choose|i: int| 0 <= i < g.len() && (#[trigger] g[i]).temp_c == before;
                assert(h[i].temp_c == coldest_over(h));
            }
        }
        assert forall|i: int|
            0 <= i < h.len() && (#[trigger] h[i]).temp_c is Some implies coldest_over(h) is Some
            && !(coldest_over(h)->0).above(h[i].temp_c->0) && ((coldest_over(h)->0).nan()
            ==> h[i].temp_c->0.nan()) by {
            if i < g.len() {
                assert(g[i].temp_c is Some);
            }
        }
        if forall|i: int| 0 <= i < h.len() ==> (#[trigger] h[i]).temp_c is None {
            assert(forall|i: int| 0 <= i < g.len() ==> (#[trigger] g[i]).temp_c is None);
        }
        if coldest_over(h) is None {
            assert(before is None && last is None);
            assert forall|i: int| 0 <= i < h.len() implies (#[trigger] h[i]).temp_c is None by {
                if i < g.len() {
                    assert(g[i].temp_c is None);
                }
            }
        }
    } else {
        assert(h[0].temp_c == coldest_over(h));
    }
}

} // verus!
