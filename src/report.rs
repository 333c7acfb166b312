//! What a finished run reports: its status and its summary lines.

use vstd::prelude::*;
use crate::tally::BytesComparison;

verus! {

/// Kind of error reported by the tree walker for one entry.
#[derive(Debug, Clone, Copy, PartialEq, Eq, Structural)]
pub enum WalkErrorKind {
    NotFound,
    PermissionDenied,
    Other,
}

/// Whether a walker error may be skipped: only a permission error, and only
/// when the caller asked for those to be ignored. Every other error aborts
/// the run.
pub fn skip_walk_error(kind: WalkErrorKind, ignore_permission_errors: bool) -> (r: bool)
    ensures
        r == (kind == WalkErrorKind::PermissionDenied && ignore_permission_errors),
{
    ignore_permission_errors && kind == WalkErrorKind::PermissionDenied
}

/// Status of a run that completed: 0 when nothing disagreed, 1 otherwise.
pub fn run_status(tally: &BytesComparison) -> (r: i32)
    ensures
        r == (if tally@.disagreement == 0 { 0i32 } else { 1i32 }),
{
    if tally.disagreement() == 0 {
        0
    } else {
        1
    }
}

#[derive(Debug, Clone, Copy, PartialEq, Eq, Structural)]
pub enum LineKind {
    Agree,
    Disagree,
}

/// One summary line: a byte count, and the expected total that a
/// percentage is taken of, where the caller gave one.
#[derive(Debug, Clone, Copy, PartialEq, Eq, Structural)]
pub struct ReportLine {
    pub kind: LineKind,
    pub bytes: usize,
    pub total: Option<usize>,
}

/// The summary of a run: the bytes that agree, then the bytes that
/// disagree if there are any. An expected total of zero gives no percentage
/// and is refused.
pub fn report(tally: &BytesComparison, expected_total: Option<usize>) -> (r: Vec<ReportLine>)
    requires
        expected_total != Some(0usize),
    ensures
        r@.len() == (if tally@.disagreement > 0 { 2int } else { 1int }),
        r@[0] == (ReportLine {
            kind: LineKind::Agree,
            bytes: tally@.agreement as usize,
            total: expected_total,
        }),
        tally@.disagreement > 0 ==> r@[1] == (ReportLine {
            kind: LineKind::Disagree,
            bytes: tally@.disagreement as usize,
            total: expected_total,
        }),
{
    let mut r: Vec<ReportLine> = Vec::new();
    r.push(ReportLine { kind: LineKind::Agree, bytes: tally.agreement(), total: expected_total });
    if tally.disagreement() > 0 {
        r.push(
            ReportLine {
                kind: LineKind::Disagree,
                bytes: tally.disagreement(),
                total: expected_total,
            },
        );
    }
    r
}

} // verus!
