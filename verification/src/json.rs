//! The structured report: what each analyser contributes, and when a report
//! is written at all.

use vstd::prelude::*;
use crate::loudness::Loudness;

verus! {

/// One stretch of silence, in frames. The end is the first frame after it.
#[derive(Debug, Clone, Copy, PartialEq, Eq)]
pub struct SilenceSegment {
    pub start_sample: usize,
    pub end_sample: usize,
    pub duration_samples: usize,
}

/// What the silence analyser reports: every stretch of silence it found, the
/// threshold it was found under, and the sample rate that turns the frame
/// counts into seconds.
#[derive(Debug, PartialEq, Eq)]
pub struct SilenceReport {
    pub results: Vec<SilenceSegment>,
    pub threshold: Loudness,
    pub sample_rate: i32,
}

/// What is to be done about the report file.
#[derive(Debug, PartialEq, Eq)]
pub enum ReportPlan {
    /// No analyser has anything to report: no file is written.
    Nothing,
    /// There is something to report, but no file was named for it.
    NoPath,
    /// These parts are to be written to the file at `path`.
    Write { path: String, parts: Vec<(String, SilenceReport)> },
}

/// Decides what is done about the report file, from the parts that the
/// analysers contribute and the path that was named for it, if any.
///
/// Without parts nothing is written, whether or not a path was named: an
/// analyser without findings has no entry, and a report without entries is no
/// file.
pub fn plan_report(parts: Vec<(String, SilenceReport)>, path: Option<String>) -> (plan:
    ReportPlan)
    ensures
        parts@.len() == 0 ==> plan == ReportPlan::Nothing,
        parts@.len() > 0 && path is None ==> plan == ReportPlan::NoPath,
        parts@.len() > 0 && path is Some ==> plan == (ReportPlan::Write {
            path: path->0,
            parts,
        }),
{
    if parts.len() == 0 {
        return ReportPlan::Nothing;
    }
    match path {
        None => ReportPlan::NoPath,
        Some(path) => ReportPlan::Write { path, parts },
    }
}

} // verus!
