//! The fractional numbers of a dossier, written out for a report.
use crate::chain::Record;
use crate::dossier::{Dossier, IndemnityLine};
use crate::text::{decimal, decimal_text};
use vstd::prelude::*;

verus! {

/// The numbers of a temperature correlation.
#[derive(Clone, Debug)]
pub struct TempFigures {
    /// Downtime hours above the threshold.
    pub hot_hours: String,
    /// Downtime hours in the daytime window.
    pub window_hours: String,
    /// The share of the former in the latter, in percent.
    pub percent: String,
}

/// The numbers of one indemnity.
#[derive(Clone, Debug)]
pub struct LineFigures {
    pub hours: String,
    pub days: String,
    pub rate: String,
    pub indemnity: String,
}

/// The numbers of a whole dossier.
#[derive(Clone, Debug)]
pub struct Figures {
    pub days_observed: String,
    pub downtime_hours: String,
    pub downtime_days: String,
    pub band_hours: [String; 4],
    pub temp: Option<TempFigures>,
    /// One entry for each indemnity line.
    pub lines: Vec<LineFigures>,
    pub total_indemnity: String,
    /// For each record, the round-trip time of each of its hops.
    pub hop_times: Vec<Vec<String>>,
}

/// Whether a record has as many hops as there are times.
pub open spec fn times_fit(r: Record, times: Seq<String>) -> bool {
    match r {
        Record::Outage { hops, .. } => hops@.len() == times.len(),
        _ => true,
    }
}

impl Figures {
    /// Whether the numbers are as many as a dossier and its records need.
    pub open spec fn fit(self, dossier: Dossier, records: Seq<Record>) -> bool {
        &&& self.temp is Some == dossier.temp_correlation is Some
        &&& self.lines@.len() == dossier.per_event_indemnities@.len()
        &&& self.hop_times@.len() == records.len()
        &&& forall|i: int|
            0 <= i < records.len() ==> times_fit(#[trigger] records[i], self.hop_times@[i]@)
    }

    /// Decides whether the numbers are as many as a dossier and its records
    /// need.
    pub fn fits(&self, dossier: &Dossier, records: &[Record]) -> (res: bool)
        ensures
            res == self.fit(*dossier, records@),
    {
        if self.temp.is_some() != dossier.temp_correlation.is_some() || self.lines.len()
            != dossier.per_event_indemnities.len() || self.hop_times.len() != records.len() {
            return false;
        }
        let mut i: usize = 0;
        while i < records.len()
            invariant
                i <= records@.len(),
                self.hop_times@.len() == records@.len(),
                forall|j: int| 0 <= j < i ==> times_fit(
                    #[trigger] records@[j],
                    self.hop_times@[j]@,
                ),
            decreases records@.len() - i,
        {
            let fits = match &records[i] {
                Record::Outage { hops, .. } => hops.len() == self.hop_times[i].len(),
                _ => true,
            };
            if !fits {
                assert(!times_fit(records@[i as int], self.hop_times@[i as int]@));
                return false;
            }
            i += 1;
        }
        true
    }
}

/// How an indemnity is explained.
pub open spec fn formula(line: IndemnityLine, f: LineFigures) -> Seq<char> {
    "max(0, "@ + f.days@ + " - "@ + decimal(line.repair_window_days as nat) + ") × "@ + f.rate@
        + " = "@ + f.indemnity@
}

/// Explains how an indemnity comes about.
pub fn formula_text(line: &IndemnityLine, f: &LineFigures) -> (res: String)
    ensures
        res@ == formula(*line, *f),
{
    let mut res = "max(0, ".to_owned();
    res.append(f.days.as_str());
    res.append(" - ");
    res.append(decimal_text(line.repair_window_days as u64).as_str());
    res.append(") × ");
    res.append(f.rate.as_str());
    res.append(" = ");
    res.append(f.indemnity.as_str());
    res
}

/// The explanation of an indemnity gives the days of the outage, the repair window
/// that is taken off, the daily rate, and what comes out.
pub proof fn law_formula_parts(line: IndemnityLine, f: LineFigures)
    ensures
        formula(line, f) == seq![
            "max(0, "@,
            f.days@,
            " - "@,
            decimal(line.repair_window_days as nat),
            ") × "@,
            f.rate@,
            " = "@,
            f.indemnity@,
        ].flatten(),
{
    let days = decimal(line.repair_window_days as nat);
    let e = Seq::<Seq<char>>::empty();
    let a = e.push("max(0, "@);
    let b = a.push(f.days@);
    let c = b.push(" - "@);
    let d = c.push(days);
    let g = d.push(") × "@);
    let h = g.push(f.rate@);
    let i = h.push(" = "@);
    let j = i.push(f.indemnity@);
    e.lemma_flatten_push("max(0, "@);
    a.lemma_flatten_push(f.days@);
    b.lemma_flatten_push(" - "@);
    c.lemma_flatten_push(days);
    d.lemma_flatten_push(") × "@);
    g.lemma_flatten_push(f.rate@);
    h.lemma_flatten_push(" = "@);
    i.lemma_flatten_push(f.indemnity@);
    assert(a.flatten() == "max(0, "@);
    assert(j == seq![
        "max(0, "@,
        f.days@,
        " - "@,
        days,
        ") × "@,
        f.rate@,
        " = "@,
        f.indemnity@,
    ]);
}

/// The numbers fit a dossier exactly when there are numbers for its correlation if it
/// has one, for each indemnity line, and for each hop of each outage.
pub proof fn law_fit(f: Figures, dossier: Dossier, records: Seq<Record>)
    ensures
        f.fit(dossier, records) <==> {
            &&& f.temp is Some <==> dossier.temp_correlation is Some
            &&& f.lines@.len() == dossier.per_event_indemnities@.len()
            &&& f.hop_times@.len() == records.len()
            &&& forall|i: int|
                0 <= i < records.len() && #[trigger] records[i] is Outage
                    ==> f.hop_times@[i]@.len() == records[i]->hops@.len()
        },
{
    if f.fit(dossier, records) {
        assert forall|i: int| 0 <= i < records.len() && #[trigger] records[i] is Outage implies
            f.hop_times@[i]@.len() == records[i]->hops@.len() by {
            assert(times_fit(records[i], f.hop_times@[i]@));
        }
    }
}

} // verus!
