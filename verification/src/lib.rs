//! Verified core of the linewatch network monitor.
#[allow(unused_imports)]
use vstd::prelude::*;

pub mod chain;
pub mod chart;
pub mod classify;
pub mod cli;
pub mod config;
pub mod daytime;
pub mod digest;
pub mod dossier;
pub mod events;
pub mod figures;
pub mod history;
pub mod json;
pub mod metrics;
pub mod probe;
pub mod quantity;
pub mod render_md;
pub mod render_pdf;
pub mod run;
pub mod store;
pub mod temp;
pub mod text;
pub mod timestamp;
pub mod trace;
pub mod types;
