//! Probe outcomes, samples and the status of the line.
use crate::quantity::Quantity;
use crate::timestamp::Timestamp;
use vstd::prelude::*;

verus! {

/// What a probe was aimed at.
#[derive(Clone, Copy, Debug, PartialEq, Eq, Structural)]
pub enum TargetKind {
    Gateway,
    IcmpAnchor,
    TcpAnchor,
    Dns,
    Http,
}

/// The result of one probe.
#[derive(Clone, Copy, Debug, PartialEq, Eq, Structural)]
pub struct ProbeOutcome {
    pub kind: TargetKind,
    pub reachable: bool,
    /// Round-trip time in nanoseconds.
    pub rtt: Option<u128>,
    /// Packet loss in percent.
    pub loss_pct: u8,
}

/// The outcomes of one monitoring cycle.
#[derive(Clone, Debug)]
pub struct Sample {
    pub ts: Timestamp,
    pub temp_c: Option<Quantity>,
    pub outcomes: Vec<ProbeOutcome>,
}

/// The classified status of the line.
#[derive(Clone, Copy, Debug, PartialEq, Eq, Structural)]
pub enum Status {
    /// Everything works.
    Good,
    Degraded,
    Down,
    LocalOrPower,
    DnsFail,
    HttpFail,
}

/// Limits above which a reachable target counts as degraded.
#[derive(Clone, Copy, Debug, PartialEq, Eq, Structural)]
pub struct Thresholds {
    pub max_loss_pct: u8,
    pub max_rtt_ms: u64,
}

/// Nanoseconds in a millisecond.
pub const MILLISECOND: u128 = 1_000_000;

} // verus!
