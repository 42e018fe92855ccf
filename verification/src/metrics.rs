//! Labels and gauge values of the exported metrics.
use crate::events::AgcomCategory;
use crate::types::{Status, TargetKind};
use vstd::prelude::*;

verus! {

/// The number that the status gauge shows for a status.
pub open spec fn status_ordinal(s: Status) -> u8 {
    match s {
        Status::Good => 0,
        Status::Degraded => 1,
        Status::Down => 2,
        Status::LocalOrPower => 3,
        Status::DnsFail => 4,
        Status::HttpFail => 5,
    }
}

/// The label of a status.
pub open spec fn status_name(s: Status) -> Seq<char> {
    match s {
        Status::Good => "ok"@,
        Status::Degraded => "degraded"@,
        Status::Down => "down"@,
        Status::LocalOrPower => "local_or_power"@,
        Status::DnsFail => "dns_fail"@,
        Status::HttpFail => "http_fail"@,
    }
}

/// The gauge value and the label of a status.
pub fn status_to_metric(s: &Status) -> (res: (u8, &'static str))
    ensures
        res.0 == status_ordinal(*s),
        res.1@ == status_name(*s),
{
    match s {
        Status::Good => (0, "ok"),
        Status::Degraded => (1, "degraded"),
        Status::Down => (2, "down"),
        Status::LocalOrPower => (3, "local_or_power"),
        Status::DnsFail => (4, "dns_fail"),
        Status::HttpFail => (5, "http_fail"),
    }
}

/// The statuses in the order of their ordinals.
pub open spec fn all_statuses() -> Seq<Status> {
    seq![
        Status::Good,
        Status::Degraded,
        Status::Down,
        Status::LocalOrPower,
        Status::DnsFail,
        Status::HttpFail,
    ]
}

/// The value of every status gauge: the current status shows its ordinal and
/// all others show zero.
pub fn status_gauges(current: &Status) -> (res: Vec<(&'static str, u8)>)
    ensures
        res@.len() == all_statuses().len(),
        forall|i: int|
            0 <= i < res@.len() ==> (#[trigger] res@[i]).0@ == status_name(all_statuses()[i])
                && res@[i].1 == if all_statuses()[i] == *current {
                status_ordinal(*current)
            } else {
                0
            },
{
    let statuses = [
        Status::Good,
        Status::Degraded,
        Status::Down,
        Status::LocalOrPower,
        Status::DnsFail,
        Status::HttpFail,
    ];
    assert(statuses@ == all_statuses());
    let mut res: Vec<(&'static str, u8)> = Vec::new();
    let mut i: usize = 0;
    while i < 6
        invariant
            i <= 6,
            statuses@ == all_statuses(),
            res@.len() == i,
            forall|j: int|
                0 <= j < i ==> (#[trigger] res@[j]).0@ == status_name(all_statuses()[j])
                    && res@[j].1 == if all_statuses()[j] == *current {
                    status_ordinal(*current)
                } else {
                    0
                },
        decreases 6 - i,
    {
        let s = statuses[i];
        let (ordinal, name) = status_to_metric(&s);
        res.push(
            (
                name,
                if s == *current {
                    ordinal
                } else {
                    0
                },
            ),
        );
        i += 1;
    }
    res
}

/// The label of a target.
pub open spec fn label_of_target(kind: TargetKind) -> Seq<char> {
    match kind {
        TargetKind::Gateway => "gateway"@,
        TargetKind::IcmpAnchor => "icmp_anchor"@,
        TargetKind::TcpAnchor => "tcp_anchor"@,
        TargetKind::Dns => "dns"@,
        TargetKind::Http => "http"@,
    }
}

/// The label under which the outcomes of a kind of target are exported.
pub fn target_label(kind: &TargetKind) -> (res: &'static str)
    ensures
        res@ == label_of_target(*kind),
{
    match kind {
        TargetKind::Gateway => "gateway",
        TargetKind::IcmpAnchor => "icmp_anchor",
        TargetKind::TcpAnchor => "tcp_anchor",
        TargetKind::Dns => "dns",
        TargetKind::Http => "http",
    }
}

/// The label of an outage category.
pub open spec fn label_of_category(c: AgcomCategory) -> Seq<char> {
    match c {
        AgcomCategory::CompleteInterruption => "complete_interruption"@,
        AgcomCategory::IrregularService => "irregular_service"@,
    }
}

/// The label under which outages of a category are counted.
pub fn category_label(c: &AgcomCategory) -> (res: &'static str)
    ensures
        res@ == label_of_category(*c),
{
    match c {
        AgcomCategory::CompleteInterruption => "complete_interruption",
        AgcomCategory::IrregularService => "irregular_service",
    }
}

/// The body of the liveness endpoint.
pub fn health_text(healthy: bool) -> (res: &'static str)
    ensures
        res@ == if healthy {
            "ok"@
        } else {
            "unhealthy"@
        },
{
    if healthy {
        "ok"
    } else {
        "unhealthy"
    }
}

/// The HTTP status of the readiness endpoint: success once the monitor is ready.
pub fn readiness_status(ready: bool) -> (res: u16)
    ensures
        res == if ready {
            200u16
        } else {
            503u16
        },
{
    if ready {
        200
    } else {
        503
    }
}

/// The body of the readiness endpoint.
pub fn readiness_text(ready: bool) -> (res: &'static str)
    ensures
        res@ == if ready {
            "ok"@
        } else {
            "not ready"@
        },
{
    if ready {
        "ok"
    } else {
        "not ready"
    }
}

/// The statuses have the numbers from zero to five, in the order in which their
/// gauges are listed, each its own.
pub proof fn law_status_ordinals(s: Status)
    ensures
        all_statuses().len() == 6,
        all_statuses()[status_ordinal(s) as int] == s,
        status_ordinal(s) < 6,
        status_ordinal(Status::Good) == 0,
        status_ordinal(Status::Degraded) == 1,
        status_ordinal(Status::Down) == 2,
        status_ordinal(Status::LocalOrPower) == 3,
        status_ordinal(Status::DnsFail) == 4,
        status_ordinal(Status::HttpFail) == 5,
{
}

/// Every status has a name of its own.
pub proof fn law_status_names_differ(a: Status, b: Status)
    requires
        status_name(a) == status_name(b),
    ensures
        a == b,
{
    lemma_first_letters(a);
    lemma_first_letters(b);
}

proof fn lemma_first_letters(s: Status)
    ensures
        status_name(s).len() >= 2,
        status_name(s)[0] == match s {
            Status::Good => 'o',
            Status::Degraded => 'd',
            Status::Down => 'd',
            Status::LocalOrPower => 'l',
            Status::DnsFail => 'd',
            Status::HttpFail => 'h',
        },
        status_name(s)[1] == match s {
            Status::Good => 'k',
            Status::Degraded => 'e',
            Status::Down => 'o',
            Status::LocalOrPower => 'o',
            Status::DnsFail => 'n',
            Status::HttpFail => 't',
        },
{
    reveal_strlit("ok");
    reveal_strlit("degraded");
    reveal_strlit("down");
    reveal_strlit("local_or_power");
    reveal_strlit("dns_fail");
    reveal_strlit("http_fail");
}

/// Every kind of target has a label of its own, and so has every category.
pub proof fn law_labels_differ(a: TargetKind, b: TargetKind, c: AgcomCategory, d: AgcomCategory)
    ensures
        label_of_target(a) == label_of_target(b) ==> a == b,
        label_of_category(c) == label_of_category(d) ==> c == d,
{
    reveal_strlit("gateway");
    reveal_strlit("icmp_anchor");
    reveal_strlit("tcp_anchor");
    reveal_strlit("dns");
    reveal_strlit("http");
    reveal_strlit("complete_interruption");
    reveal_strlit("irregular_service");
    assert(label_of_target(a).len() == label_of_target(b).len() ==> a == b);
    assert(label_of_category(c).len() == label_of_category(d).len() ==> c == d);
}

/// Statuses, targets and categories are exported under these names.
pub proof fn law_exported_names()
    ensures
        status_name(Status::Good) == "ok"@,
        status_name(Status::Degraded) == "degraded"@,
        status_name(Status::Down) == "down"@,
        status_name(Status::LocalOrPower) == "local_or_power"@,
        status_name(Status::DnsFail) == "dns_fail"@,
        status_name(Status::HttpFail) == "http_fail"@,
        label_of_target(TargetKind::Gateway) == "gateway"@,
        label_of_target(TargetKind::IcmpAnchor) == "icmp_anchor"@,
        label_of_target(TargetKind::TcpAnchor) == "tcp_anchor"@,
        label_of_target(TargetKind::Dns) == "dns"@,
        label_of_target(TargetKind::Http) == "http"@,
        label_of_category(AgcomCategory::CompleteInterruption) == "complete_interruption"@,
        label_of_category(AgcomCategory::IrregularService) == "irregular_service"@,
{
}

} // verus!
