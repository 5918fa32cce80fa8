//! One poll of the watchdog: what to print and whether to alert.

use crate::alert::{ready, AlertState, Gate};
use crate::analyzer::{
    analysis_of, analyzable, analyze_mem, report_line, usage_line, Analysis, AnalyzeError,
};
use crate::args::Args;
use crate::binary64::Binary64;
use crate::clock::Timestamp;
use crate::records::SampleError;
use crate::sampler::Sampler;
use crate::snapshot::MemorySnapshot;
use vstd::prelude::*;

verus! {

/// What one poll calls for.
pub struct Tick {
    /// What the analyzer found.
    pub analysis: Analysis,
    /// The status line to print; `None` in quiet mode and where there is
    /// no usage to report.
    pub status: Option<String>,
    /// The answer of the alert gate; `None` where nothing escalated.
    pub gate: Option<Gate>,
}

/// The answer of the alert gate to an analysis at `now`, where it
/// escalates.
pub open spec fn gate_of(analysis: Analysis, last: Option<Timestamp>, now: Timestamp) -> Option<
    Gate,
> {
    if !analysis.escalate {
        None
    } else if ready(last, now) {
        Some(Gate::Authorized)
    } else {
        Some(Gate::Suppressed)
    }
}

/// Takes one snapshot through the analyzer and, where it escalates, to
/// the alert gate. Neither the settings nor the state change: the state
/// changes when the outcome of a delivery is reported.
pub fn on_sample(args: &Args, state: &AlertState, snapshot: &MemorySnapshot, now: Timestamp) -> (r:
    Result<Tick, AnalyzeError>)
    ensures
        match r {
            Ok(tick) => analysis_of(*snapshot, args.threshold, args.verbose) == Ok::<
                Analysis,
                AnalyzeError,
            >(tick.analysis) && tick.gate == gate_of(tick.analysis, state.last(), now)
                && tick.status is Some == (args.verbose && analyzable(*snapshot)) && (tick.status
                is Some ==> tick.status->Some_0@ == report_line(*snapshot)),
            Err(e) => analysis_of(*snapshot, args.threshold, args.verbose) == Err::<
                Analysis,
                AnalyzeError,
            >(e),
        },
{
    let analysis = match analyze_mem(snapshot, args.threshold, args.verbose) {
        Ok(a) => a,
        Err(e) => {
            return Err(e);
        },
    };
    let status = if args.verbose {
        usage_line(snapshot)
    } else {
        None
    };
    let gate = if analysis.escalate {
        Some(state.on_breach(now))
    } else {
        None
    };
    Ok(Tick { analysis, status, gate })
}

/// A host without a sampler of its own gets the all-zero snapshot, which
/// never escalates.
pub proof fn lemma_unsupported_never_escalates(
    sampler: Sampler,
    succeeded: bool,
    report: Seq<char>,
    threshold: Binary64,
    verbose: bool,
)
    requires
        sampler == Sampler::Unsupported || sampler == Sampler::MacOs,
    ensures
        sampler.snapshot_of(succeeded, report) == Ok::<MemorySnapshot, SampleError>(
            MemorySnapshot::spec_unsupported(),
        ),
        analysis_of(MemorySnapshot::spec_unsupported(), threshold, verbose) == Ok::<
            Analysis,
            AnalyzeError,
        >(Analysis { report: None, breach: false, escalate: false }),
{
}

} // verus!
