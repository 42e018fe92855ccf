//! The command line.
use crate::text::same_text;
use vstd::prelude::*;

verus! {

/// The parsed command line.
#[derive(Clone, Debug)]
pub struct Cli {
    pub command: Command,
}

/// What to do.
#[derive(Clone, Debug)]
pub enum Command {
    /// Run the monitoring daemon.
    Run,
    /// Report on collected data.
    Report {
        /// The output format.
        format: String,
        /// Path of a chart to embed in the report.
        chart: Option<String>,
    },
}

/// The form of a report.
#[derive(Clone, Copy, Debug, PartialEq, Eq, Structural)]
pub enum ReportFormat {
    Markdown,
    Pdf,
}

/// The format with a name.
pub open spec fn format_named(name: Seq<char>) -> Option<ReportFormat> {
    if name == "md"@ {
        Some(ReportFormat::Markdown)
    } else if name == "pdf"@ {
        Some(ReportFormat::Pdf)
    } else {
        None
    }
}

/// The format with a name, or why there is none.
pub fn report_format(name: &str) -> (res: Result<ReportFormat, String>)
    ensures
        match res {
            Ok(f) => format_named(name@) == Some(f),
            Err(e) => format_named(name@) is None && e@ == "unsupported format: "@ + name@
                + " (expected 'md' or 'pdf')"@,
        },
{
    if same_text(name, "md") {
        Ok(ReportFormat::Markdown)
    } else if same_text(name, "pdf") {
        Ok(ReportFormat::Pdf)
    } else {
        let mut e = "unsupported format: ".to_owned();
        e.append(name);
        e.append(" (expected 'md' or 'pdf')");
        Err(e)
    }
}

/// There are two formats, each with its own name, and no other name.
pub proof fn law_formats(name: Seq<char>)
    ensures
        format_named(name) == Some(ReportFormat::Markdown) <==> name == seq!['m', 'd'],
        format_named(name) == Some(ReportFormat::Pdf) <==> name == seq!['p', 'd', 'f'],
{
    reveal_strlit("md");
    reveal_strlit("pdf");
    assert("md"@ == seq!['m', 'd']);
    assert("pdf"@ == seq!['p', 'd', 'f']);
    assert(seq!['m', 'd'].len() == 2);
    assert(seq!['p', 'd', 'f'].len() == 3);
}

} // verus!
