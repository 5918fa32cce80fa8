//! The usage analyzer: from a snapshot to the used memory, its percentage,
//! and the decision to escalate.
//!
//! A breach escalates only in verbose mode, so alerts are tied to the
//! switch that turns the status line on. The breach itself is found in
//! either mode and handed out beside the decision, for a caller that wants
//! to alert on it regardless.

use crate::binary64::{percent, percent_bits, percent_hundredths, percent_in_hundredths, Binary64};
use crate::decimal::{decimal_text, hundredths_text, write_hundredths, write_u64};
use crate::rounding::gap;
use crate::snapshot::MemorySnapshot;
use crate::text::{push_all, push_text, string_of};
use crate::tolerance::{lemma_percent_is_close, unit};
use vstd::prelude::*;

verus! {

/// What is in use of a snapshot whose total is above zero.
#[derive(Clone, Copy, Debug, PartialEq, Eq, Structural)]
pub struct UsageReport {
    /// The total less the available memory, in kilobytes.
    pub used_kb: u64,
    /// `used_kb / total_kb * 100`, computed in double precision.
    pub used_percent: Binary64,
}

/// What the analyzer found in one snapshot.
#[derive(Clone, Copy, Debug, PartialEq, Eq, Structural)]
pub struct Analysis {
    /// The usage; `None` where the total is zero and nothing is computed.
    pub report: Option<UsageReport>,
    /// Whether the used percentage is at least the threshold.
    pub breach: bool,
    /// Whether the alert gate is to be asked. Alerts are only raised in
    /// verbose mode: a breach in quiet mode does not escalate.
    pub escalate: bool,
}

/// A snapshot that reports more available memory than there is in total.
#[derive(Clone, Copy, Debug, PartialEq, Eq, Structural)]
pub enum AnalyzeError {
    AvailableExceedsTotal,
}

/// The usage of `s`, for a total above zero and an available amount within
/// it.
pub open spec fn usage_of(s: MemorySnapshot) -> UsageReport {
    UsageReport {
        used_kb: (s.total_kb - s.available_kb) as u64,
        used_percent: Binary64 {
            bits: percent_bits((s.total_kb - s.available_kb) as nat, s.total_kb as nat) as u64,
        },
    }
}

/// What the analyzer finds in `s` against `threshold`.
///
/// With a total of zero nothing is computed and nothing escalates. A
/// snapshot with more available than total memory is refused. Otherwise
/// there is a breach exactly when the used percentage is at least the
/// threshold, and the breach escalates exactly in verbose mode.
pub open spec fn analysis_of(s: MemorySnapshot, threshold: Binary64, verbose: bool) -> Result<
    Analysis,
    AnalyzeError,
> {
    if s.total_kb == 0 {
        Ok(Analysis { report: None, breach: false, escalate: false })
    } else if s.available_kb > s.total_kb {
        Err(AnalyzeError::AvailableExceedsTotal)
    } else {
        let report = usage_of(s);
        let breach = report.used_percent.ge(threshold);
        Ok(Analysis { report: Some(report), breach, escalate: breach && verbose })
    }
}

/// Analyzes one snapshot, as [`analysis_of`] says. `threshold` is the
/// alert threshold in percent, a double.
pub fn analyze_mem(snapshot: &MemorySnapshot, threshold: Binary64, verbose: bool) -> (r: Result<
    Analysis,
    AnalyzeError,
>)
    ensures
        r == analysis_of(*snapshot, threshold, verbose),
{
    if snapshot.total_kb == 0 {
        return Ok(Analysis { report: None, breach: false, escalate: false });
    }
    if snapshot.available_kb > snapshot.total_kb {
        return Err(AnalyzeError::AvailableExceedsTotal);
    }
    let used_kb: u64 = snapshot.total_kb - snapshot.available_kb;
    let used_percent = percent(used_kb, snapshot.total_kb);
    let breach = used_percent.at_least(&threshold);
    let report = Some(UsageReport { used_kb, used_percent });
    Ok(Analysis { report, breach, escalate: breach && verbose })
}

/// A usage is computed exactly for a total above zero: with a total of
/// zero there is no report, no breach and no escalation, whatever the
/// threshold.
pub proof fn lemma_no_usage_without_total(s: MemorySnapshot, threshold: Binary64, verbose: bool)
    ensures
        s.total_kb == 0 ==> analysis_of(s, threshold, verbose) == Ok::<Analysis, AnalyzeError>(
            Analysis { report: None, breach: false, escalate: false },
        ),
        analysis_of(s, threshold, verbose) is Ok && s.total_kb > 0 ==> analysis_of(
            s,
            threshold,
            verbose,
        )->Ok_0.report is Some,
{
}

/// The threshold is inclusive: a used percentage that equals a threshold
/// which is a number is a breach.
pub proof fn lemma_threshold_is_inclusive(s: MemorySnapshot, threshold: Binary64, verbose: bool)
    requires
        analyzable(s),
        !threshold.is_nan(),
        analysis_of(s, threshold, verbose)->Ok_0.report->Some_0.used_percent == threshold,
    ensures
        analysis_of(s, threshold, verbose)->Ok_0.breach,
        analysis_of(s, threshold, verbose)->Ok_0.escalate == verbose,
{
}

/// For every snapshot that can be analyzed, the used memory is the total
/// less the available memory, and the used percentage is
/// `used_kb / total_kb * 100` to within one part in `2^50`, the tolerance
/// of its four roundings.
pub proof fn lemma_used_percent_is_close(s: MemorySnapshot)
    requires
        analyzable(s),
    ensures
        usage_of(s).used_kb == s.total_kb - s.available_kb,
        !usage_of(s).used_percent.is_nan(),
        !usage_of(s).used_percent.negative(),
        0x4_0000_0000_0000 * gap(
            (usage_of(s).used_percent.magnitude() * s.total_kb) as int,
            (100 * (usage_of(s).used_kb * unit())) as int,
        ) <= 100 * (usage_of(s).used_kb * unit()),
{
    lemma_percent_is_close((s.total_kb - s.available_kb) as u64, s.total_kb);
}

/// The used percentage of `s` with two decimal places, as it is printed.
pub open spec fn percent_text(s: MemorySnapshot) -> Seq<char> {
    hundredths_text(
        percent_hundredths((s.total_kb - s.available_kb) as nat, s.total_kb as nat),
    )
}

/// The status line of `s`: its three counters, the used memory and the
/// used percentage.
pub open spec fn report_line(s: MemorySnapshot) -> Seq<char> {
    "Total: "@ + decimal_text(s.total_kb as nat) + " KB, Free: "@ + decimal_text(s.free_kb as nat)
        + " KB, Available: "@ + decimal_text(s.available_kb as nat) + " KB, Used: "@
        + decimal_text((s.total_kb - s.available_kb) as nat) + " KB, Used%: "@ + percent_text(s)
        + "%"@
}

/// Whether `s` can be analyzed: its total is above zero and its available
/// memory within the total.
pub open spec fn analyzable(s: MemorySnapshot) -> bool {
    s.total_kb > 0 && s.available_kb <= s.total_kb
}

/// The used percentage of `snapshot` with two decimal places, as
/// [`percent_text`] says; `None` exactly where the snapshot cannot be
/// analyzed.
pub fn used_percent_text(snapshot: &MemorySnapshot) -> (r: Option<String>)
    ensures
        r is Some == analyzable(*snapshot),
        r is Some ==> r->Some_0@ == percent_text(*snapshot),
{
    if snapshot.total_kb == 0 || snapshot.available_kb > snapshot.total_kb {
        return None;
    }
    let used_kb: u64 = snapshot.total_kb - snapshot.available_kb;
    let text = write_hundredths(percent_in_hundredths(used_kb, snapshot.total_kb));
    Some(string_of(&text))
}

/// The status line of `snapshot`, as [`report_line`] says; `None` exactly
/// where the snapshot cannot be analyzed.
pub fn usage_line(snapshot: &MemorySnapshot) -> (r: Option<String>)
    ensures
        r is Some == analyzable(*snapshot),
        r is Some ==> r->Some_0@ == report_line(*snapshot),
{
    if snapshot.total_kb == 0 || snapshot.available_kb > snapshot.total_kb {
        return None;
    }
    let used_kb: u64 = snapshot.total_kb - snapshot.available_kb;
    let mut line: Vec<char> = Vec::new();
    push_text(&mut line, "Total: ");
    push_all(&mut line, &write_u64(snapshot.total_kb));
    push_text(&mut line, " KB, Free: ");
    push_all(&mut line, &write_u64(snapshot.free_kb));
    push_text(&mut line, " KB, Available: ");
    push_all(&mut line, &write_u64(snapshot.available_kb));
    push_text(&mut line, " KB, Used: ");
    push_all(&mut line, &write_u64(used_kb));
    push_text(&mut line, " KB, Used%: ");
    push_all(&mut line, &write_hundredths(percent_in_hundredths(used_kb, snapshot.total_kb)));
    push_text(&mut line, "%");
    assert(line@ == report_line(*snapshot));
    Some(string_of(&line))
}

} // verus!
