//! The configuration of the monitor.
use crate::events::DebounceCfg;
use crate::quantity::Quantity;
use crate::text::same_text;
use crate::types::Thresholds;
use vstd::prelude::*;

verus! {

/// What is probed.
#[derive(Clone, Debug)]
pub struct TargetsCfg {
    pub tcp_anchors: Vec<String>,
    pub icmp_anchors: Vec<String>,
    pub dns_upstream: String,
    pub dns_query_name: String,
    pub http_url: String,
}

/// Where temperatures come from.
#[derive(Clone, Debug)]
pub struct TempCfg {
    pub source: String,
    pub lat: Quantity,
    pub lon: Quantity,
    pub static_c: Option<Quantity>,
}

/// The whole configuration.
#[derive(Clone, Debug)]
pub struct Config {
    pub interval_secs: u64,
    pub data_dir: String,
    pub targets: TargetsCfg,
    pub thresholds: Thresholds,
    pub debounce: DebounceCfg,
    pub temp: TempCfg,
    /// Where metrics are mirrored to; nothing is mirrored without it.
    pub otlp_endpoint: Option<String>,
}

/// The time that a probe may take: a second less than the interval, and at
/// least one second.
pub open spec fn probe_limit(interval_secs: u64) -> u64 {
    if interval_secs <= 2 {
        1
    } else {
        (interval_secs - 1) as u64
    }
}

impl Config {
    /// The time that a probe may take, in seconds.
    pub fn probe_timeout_secs(&self) -> (res: u64)
        ensures
            res == probe_limit(self.interval_secs),
    {
        let less: u64 = self.interval_secs.saturating_sub(1);
        if less < 1 {
            1
        } else {
            less
        }
    }
}

/// Where metrics are mirrored to: nowhere when no endpoint, or an empty one, is
/// configured.
pub fn otlp_target(endpoint: &Option<String>) -> (res: Option<&str>)
    ensures
        res is Some == (endpoint matches Some(e) && e@.len() > 0),
        res matches Some(s) ==> s@ == endpoint->0@,
{
    match endpoint {
        Some(e) => {
            let s = e.as_str();
            proof {
                reveal_strlit("");
                assert(s@.len() == 0 ==> s@ == ""@);
            }
            if same_text(s, "") {
                None
            } else {
                Some(s)
            }
        },
        None => None,
    }
}

/// A probe may take at least a second, and from an interval of two seconds on it
/// ends a second before the next cycle.
pub proof fn law_probe_limit(interval_secs: u64)
    ensures
        probe_limit(interval_secs) >= 1,
        interval_secs >= 2 ==> probe_limit(interval_secs) + 1 == interval_secs,
        interval_secs < 2 ==> probe_limit(interval_secs) == 1,
{
}

} // verus!
