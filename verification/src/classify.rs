//! Classification of a sample by strict precedence.
use crate::types::{ProbeOutcome, Sample, Status, TargetKind, Thresholds, MILLISECOND};
use vstd::prelude::*;

verus! {

/// Whether some outcome of the given kind is unreachable.
pub open spec fn unreachable(outcomes: Seq<ProbeOutcome>, kind: TargetKind) -> bool {
    exists|i: int|
        0 <= i < outcomes.len() && (#[trigger] outcomes[i]).kind == kind && !outcomes[i].reachable
}

/// Whether an outcome belongs to an external anchor.
pub open spec fn anchor(o: ProbeOutcome) -> bool {
    o.kind == TargetKind::IcmpAnchor || o.kind == TargetKind::TcpAnchor
}

/// Whether there are external anchors and none of them is reachable.
pub open spec fn anchors_down(outcomes: Seq<ProbeOutcome>) -> bool {
    &&& exists|i: int| 0 <= i < outcomes.len() && anchor(#[trigger] outcomes[i])
    &&& forall|i: int|
        0 <= i < outcomes.len() && anchor(#[trigger] outcomes[i]) ==> !outcomes[i].reachable
}

/// Whether a reachable outcome exceeds the loss or the latency limit. The
/// latency counts in whole milliseconds.
pub open spec fn exceeds(o: ProbeOutcome, t: Thresholds) -> bool {
    o.reachable && (o.loss_pct > t.max_loss_pct || (o.rtt matches Some(rtt) && rtt / MILLISECOND
        > t.max_rtt_ms))
}

/// Whether some outcome exceeds a limit.
pub open spec fn degraded(outcomes: Seq<ProbeOutcome>, t: Thresholds) -> bool {
    exists|i: int| 0 <= i < outcomes.len() && exceeds(#[trigger] outcomes[i], t)
}

/// The status of a set of outcomes.
pub open spec fn status_of(outcomes: Seq<ProbeOutcome>, t: Thresholds) -> Status {
    if unreachable(outcomes, TargetKind::Gateway) {
        Status::LocalOrPower
    } else if anchors_down(outcomes) {
        Status::Down
    } else if unreachable(outcomes, TargetKind::Dns) {
        Status::DnsFail
    } else if unreachable(outcomes, TargetKind::Http) {
        Status::HttpFail
    } else if degraded(outcomes, t) {
        Status::Degraded
    } else {
        Status::Good
    }
}

fn any_unreachable(outcomes: &Vec<ProbeOutcome>, kind: TargetKind) -> (res: bool)
    ensures
        res == unreachable(outcomes@, kind),
{
    let mut i: usize = 0;
    while i < outcomes.len()
        invariant
            i <= outcomes@.len(),
            forall|j: int|
                0 <= j < i ==> !((#[trigger] outcomes@[j]).kind == kind && !outcomes@[j].reachable),
        decreases outcomes@.len() - i,
    {
        if outcomes[i].kind == kind && !outcomes[i].reachable {
            assert(outcomes@[i as int].kind == kind);
            return true;
        }
        i += 1;
    }
    false
}

fn is_anchor(o: &ProbeOutcome) -> (res: bool)
    ensures
        res == anchor(*o),
{
    o.kind == TargetKind::IcmpAnchor || o.kind == TargetKind::TcpAnchor
}

fn all_anchors_down(outcomes: &Vec<ProbeOutcome>) -> (res: bool)
    ensures
        res == anchors_down(outcomes@),
{
    let mut found = false;
    let mut i: usize = 0;
    while i < outcomes.len()
        invariant
            i <= outcomes@.len(),
            found == (exists|j: int| 0 <= j < i && anchor(#[trigger] outcomes@[j])),
            forall|j: int|
                0 <= j < i && anchor(#[trigger] outcomes@[j]) ==> !outcomes@[j].reachable,
        decreases outcomes@.len() - i,
    {
        if is_anchor(&outcomes[i]) {
            assert(anchor(outcomes@[i as int]));
            if outcomes[i].reachable {
                return false;
            }
            found = true;
        }
        i += 1;
    }
    found
}

fn any_exceeds(outcomes: &Vec<ProbeOutcome>, t: &Thresholds) -> (res: bool)
    ensures
        res == degraded(outcomes@, *t),
{
    let mut i: usize = 0;
    while i < outcomes.len()
        invariant
            i <= outcomes@.len(),
            forall|j: int| 0 <= j < i ==> !exceeds(#[trigger] outcomes@[j], *t),
        decreases outcomes@.len() - i,
    {
        let o = outcomes[i];
        let slow = match o.rtt {
            Some(rtt) => rtt / MILLISECOND > t.max_rtt_ms as u128,
            None => false,
        };
        if o.reachable && (o.loss_pct > t.max_loss_pct || slow) {
            assert(exceeds(outcomes@[i as int], *t));
            return true;
        }
        i += 1;
    }
    false
}

/// Classify the status of a sample according to a strict precedence.
///
/// 1. Gateway outcome unreachable: `LocalOrPower`.
/// 2. Else if every external anchor (of at least one) is unreachable: `Down`.
/// 3. Else if the DNS outcome is unreachable: `DnsFail`.
/// 4. Else if the HTTP outcome is unreachable: `HttpFail`.
/// 5. Else if any reachable outcome exceeds a limit: `Degraded`.
/// 6. Else: `Good`.
pub fn classify(sample: &Sample, t: &Thresholds) -> (res: Status)
    ensures
        res == status_of(sample.outcomes@, *t),
{
    if any_unreachable(&sample.outcomes, TargetKind::Gateway) {
        Status::LocalOrPower
    } else if all_anchors_down(&sample.outcomes) {
        Status::Down
    } else if any_unreachable(&sample.outcomes, TargetKind::Dns) {
        Status::DnsFail
    } else if any_unreachable(&sample.outcomes, TargetKind::Http) {
        Status::HttpFail
    } else if any_exceeds(&sample.outcomes, t) {
        Status::Degraded
    } else {
        Status::Good
    }
}

// ---------------------------------------------------------------------------
// Laws
// ---------------------------------------------------------------------------

/// A local fault is reported exactly when some gateway probe failed, whatever
/// the other outcomes and the limits are.
pub proof fn law_gateway_comes_first(outcomes: Seq<ProbeOutcome>, t: Thresholds)
    ensures
        status_of(outcomes, t) == Status::LocalOrPower <==> exists|i: int|
            0 <= i < outcomes.len() && (#[trigger] outcomes[i]).kind == TargetKind::Gateway
                && !outcomes[i].reachable,
{
}

/// With no failed gateway probe, the line is down exactly when there is an
/// anchor, of either kind, and no anchor of either kind answered.
pub proof fn law_down_means_all_anchors(outcomes: Seq<ProbeOutcome>, t: Thresholds)
    requires
        forall|i: int|
            0 <= i < outcomes.len() && (#[trigger] outcomes[i]).kind == TargetKind::Gateway
                ==> outcomes[i].reachable,
    ensures
        status_of(outcomes, t) == Status::Down <==> (exists|i: int|
            0 <= i < outcomes.len() && ((#[trigger] outcomes[i]).kind == TargetKind::IcmpAnchor
                || outcomes[i].kind == TargetKind::TcpAnchor)) && (forall|i: int|
            0 <= i < outcomes.len() && ((#[trigger] outcomes[i]).kind == TargetKind::IcmpAnchor
                || outcomes[i].kind == TargetKind::TcpAnchor) ==> !outcomes[i].reachable),
{
    if exists|i: int|
        0 <= i < outcomes.len() && ((#[trigger] outcomes[i]).kind == TargetKind::IcmpAnchor
            || outcomes[i].kind == TargetKind::TcpAnchor) {
        let i = choose|i: int|
            0 <= i < outcomes.len() && ((#[trigger] outcomes[i]).kind == TargetKind::IcmpAnchor
                || outcomes[i].kind == TargetKind::TcpAnchor);
        assert(anchor(outcomes[i]));
    }
    if anchors_down(outcomes) {
        assert forall|i: int|
            0 <= i < outcomes.len() && ((#[trigger] outcomes[i]).kind == TargetKind::IcmpAnchor
                || outcomes[i].kind == TargetKind::TcpAnchor) implies !outcomes[i].reachable by {
            assert(anchor(outcomes[i]));
        }
    }
}

/// When the gateway answers and the line is not down, a failed name resolution
/// gives `DnsFail` whatever the other outcomes and the limits are; with none
/// failed, a failed web request gives `HttpFail`; and neither status comes about
/// in another way.
pub proof fn law_dns_before_http_before_limits(outcomes: Seq<ProbeOutcome>, t: Thresholds)
    requires
        forall|i: int|
            0 <= i < outcomes.len() && (#[trigger] outcomes[i]).kind == TargetKind::Gateway
                ==> outcomes[i].reachable,
        (exists|i: int|
            0 <= i < outcomes.len() && ((#[trigger] outcomes[i]).kind == TargetKind::IcmpAnchor
                || outcomes[i].kind == TargetKind::TcpAnchor) && outcomes[i].reachable) || (forall|
            i: int,
        |
            0 <= i < outcomes.len() ==> (#[trigger] outcomes[i]).kind != TargetKind::IcmpAnchor
                && outcomes[i].kind != TargetKind::TcpAnchor),
    ensures
        status_of(outcomes, t) == Status::DnsFail <==> exists|i: int|
            0 <= i < outcomes.len() && (#[trigger] outcomes[i]).kind == TargetKind::Dns
                && !outcomes[i].reachable,
        status_of(outcomes, t) == Status::HttpFail <==> (exists|i: int|
            0 <= i < outcomes.len() && (#[trigger] outcomes[i]).kind == TargetKind::Http
                && !outcomes[i].reachable) && (forall|i: int|
            0 <= i < outcomes.len() && (#[trigger] outcomes[i]).kind == TargetKind::Dns
                ==> outcomes[i].reachable),
        status_of(outcomes, t) == Status::Degraded || status_of(outcomes, t) == Status::Good
            ==> forall|i: int|
            0 <= i < outcomes.len() && ((#[trigger] outcomes[i]).kind == TargetKind::Dns
                || outcomes[i].kind == TargetKind::Http) ==> outcomes[i].reachable,
        status_of(outcomes, t) == Status::DnsFail || status_of(outcomes, t) == Status::HttpFail
            || status_of(outcomes, t) == Status::Degraded || status_of(outcomes, t)
            == Status::Good,
{
    law_gateway_comes_first(outcomes, t);
    law_down_means_all_anchors(outcomes, t);
}

/// The statuses of two samples that agree on which targets were reached differ
/// at most between `Good` and `Degraded`, whatever latency, loss and limits they
/// have.
pub proof fn law_latency_and_loss_only_degrade(
    a: Seq<ProbeOutcome>,
    b: Seq<ProbeOutcome>,
    t: Thresholds,
    u: Thresholds,
)
    requires
        a.len() == b.len(),
        forall|i: int|
            0 <= i < a.len() ==> (#[trigger] a[i]).kind == (#[trigger] b[i]).kind && a[i].reachable
                == b[i].reachable,
    ensures
        status_of(a, t) == status_of(b, u) || ((status_of(a, t) == Status::Good || status_of(a, t)
            == Status::Degraded) && (status_of(b, u) == Status::Good || status_of(b, u)
            == Status::Degraded)),
{
    lemma_same_reach(a, b);
    lemma_same_reach(b, a);
}

proof fn lemma_same_reach(a: Seq<ProbeOutcome>, b: Seq<ProbeOutcome>)
    requires
        a.len() == b.len(),
        forall|i: int|
            0 <= i < a.len() ==> (#[trigger] a[i]).kind == (#[trigger] b[i]).kind && a[i].reachable
                == b[i].reachable,
    ensures
        forall|kind: TargetKind| #[trigger] unreachable(a, kind) ==> unreachable(b, kind),
        anchors_down(a) ==> anchors_down(b),
{
    assert forall|kind: TargetKind| #[trigger] unreachable(a, kind) implies unreachable(
        b,
        kind,
    ) by {
        let i = choose|i: int|
            0 <= i < a.len() && (#[trigger] a[i]).kind == kind && !a[i].reachable;
        assert(b[i].kind == kind && !b[i].reachable);
    }
    if anchors_down(a) {
        let i = choose|i: int| 0 <= i < a.len() && anchor(#[trigger] a[i]);
        assert(anchor(b[i]));
        assert forall|j: int| 0 <= j < b.len() && anchor(#[trigger] b[j]) implies !b[j].reachable by {
            assert(anchor(a[j]));
        }
    }
}

/// A sample with no failure is degraded exactly when some target that answered
/// lost more than the limit, or took at least one whole millisecond more than
/// the limit.
pub proof fn law_degraded_means_over_a_limit(outcomes: Seq<ProbeOutcome>, t: Thresholds)
    requires
        status_of(outcomes, t) == Status::Degraded || status_of(outcomes, t) == Status::Good,
    ensures
        status_of(outcomes, t) == Status::Degraded <==> exists|i: int|
            0 <= i < outcomes.len() && (#[trigger] outcomes[i]).reachable && (
            outcomes[i].loss_pct > t.max_loss_pct || (outcomes[i].rtt is Some
                && outcomes[i].rtt->0 >= (t.max_rtt_ms + 1) * 1_000_000)),
{
    assert forall|i: int| 0 <= i < outcomes.len() implies exceeds(#[trigger] outcomes[i], t) == (
    outcomes[i].reachable && (outcomes[i].loss_pct > t.max_loss_pct || (outcomes[i].rtt is Some
        && outcomes[i].rtt->0 >= (t.max_rtt_ms + 1) * 1_000_000))) by {}
    if status_of(outcomes, t) == Status::Degraded {
        let i = choose|i: int| 0 <= i < outcomes.len() && exceeds(#[trigger] outcomes[i], t);
        assert(outcomes[i].reachable);
    } else {
        assert forall|i: int|
            0 <= i < outcomes.len() && (#[trigger] outcomes[i]).reachable implies !(
        outcomes[i].loss_pct > t.max_loss_pct || (outcomes[i].rtt is Some && outcomes[i].rtt->0 >= (
        t.max_rtt_ms + 1) * 1_000_000)) by {
            assert(!exceeds(outcomes[i], t));
        }
    }
}

/// The order of the outcomes makes no difference.
pub proof fn law_order_makes_no_difference(
    a: Seq<ProbeOutcome>,
    b: Seq<ProbeOutcome>,
    t: Thresholds,
)
    requires
        a.to_multiset() == b.to_multiset(),
    ensures
        status_of(a, t) == status_of(b, t),
{
    lemma_same_members(a, b, t);
    lemma_same_members(b, a, t);
}

proof fn lemma_same_members(a: Seq<ProbeOutcome>, b: Seq<ProbeOutcome>, t: Thresholds)
    requires
        a.to_multiset() == b.to_multiset(),
    ensures
        forall|kind: TargetKind| #[trigger] unreachable(a, kind) ==> unreachable(b, kind),
        anchors_down(a) ==> anchors_down(b),
        degraded(a, t) ==> degraded(b, t),
{
    a.to_multiset_ensures();
    b.to_multiset_ensures();
    assert forall|i: int| 0 <= i < a.len() implies b.contains(#[trigger] a[i]) by {
        assert(a.contains(a[i]));
        assert(a.to_multiset().count(a[i]) > 0);
    }
    assert forall|i: int| 0 <= i < b.len() implies a.contains(#[trigger] b[i]) by {
        assert(b.contains(b[i]));
        assert(b.to_multiset().count(b[i]) > 0);
    }
    assert forall|kind: TargetKind| #[trigger] unreachable(a, kind) implies unreachable(
        b,
        kind,
    ) by {
        let i = choose|i: int|
            0 <= i < a.len() && (#[trigger] a[i]).kind == kind && !a[i].reachable;
        assert(b.contains(a[i]));
    }
    if anchors_down(a) {
        let i = choose|i: int| 0 <= i < a.len() && anchor(#[trigger] a[i]);
        assert(b.contains(a[i]));
        assert forall|j: int| 0 <= j < b.len() && anchor(#[trigger] b[j]) implies !b[j].reachable by {
            assert(a.contains(b[j]));
        }
    }
    if degraded(a, t) {
        let i = choose|i: int| 0 <= i < a.len() && exceeds(#[trigger] a[i], t);
        assert(b.contains(a[i]));
    }
}

} // verus!
