//! The decisions of a local implementation check: what an execution proves,
//! and what an independent observation of its outputs concludes.
use vstd::prelude::*;
use crate::process::ProcessAttempt;

verus! {

/// What one execution of a checked command proves.
#[derive(Clone, Copy, Debug, PartialEq, Eq, Structural)]
pub struct ExecutionRecord {
    /// The exit code, when the command ran to completion.
    pub exit_code: Option<i32>,
    /// Whether its cleanup is proven.
    pub cleanup_proven: bool,
    /// Whether it stayed within its output budget and its outcome is known.
    pub bounded: bool,
}

/// What a process attempt proves: a completed run its exit code, bounded
/// unless output was dropped, with cleanup still to be proven by the scratch
/// check; a stopped run or a refusal no exit code, cleaned up and bounded; an
/// attempt unknown after dispatch nothing.
pub open spec fn spec_process_record(attempt: ProcessAttempt) -> ExecutionRecord {
    match attempt {
        ProcessAttempt::Completed { receipt } => ExecutionRecord {
            exit_code: Some(receipt.result.exit_code),
            cleanup_proven: false,
            bounded: !receipt.result.truncated,
        },
        ProcessAttempt::StoppedAfterTimeout { .. } | ProcessAttempt::StoppedAfterCancel { .. }
        | ProcessAttempt::NotDispatched { .. } => ExecutionRecord {
            exit_code: None,
            cleanup_proven: true,
            bounded: true,
        },
        ProcessAttempt::UnknownAfterDispatch { .. } => ExecutionRecord {
            exit_code: None,
            cleanup_proven: false,
            bounded: false,
        },
    }
}

/// The record of a process attempt, as [`spec_process_record`] states.
pub fn process_record(attempt: &ProcessAttempt) -> (r: ExecutionRecord)
    ensures
        r == spec_process_record(*attempt),
{
    match attempt {
        ProcessAttempt::Completed { receipt } => ExecutionRecord {
            exit_code: Some(receipt.result.exit_code),
            cleanup_proven: false,
            bounded: !receipt.result.truncated,
        },
        ProcessAttempt::StoppedAfterTimeout { .. } | ProcessAttempt::StoppedAfterCancel { .. }
        | ProcessAttempt::NotDispatched { .. } => ExecutionRecord {
            exit_code: None,
            cleanup_proven: true,
            bounded: true,
        },
        ProcessAttempt::UnknownAfterDispatch { .. } => ExecutionRecord {
            exit_code: None,
            cleanup_proven: false,
            bounded: false,
        },
    }
}

/// What an observation of a check concludes.
#[derive(Clone, Copy, Debug, PartialEq, Eq, Structural)]
pub enum Verdict {
    /// The outputs could not be observed.
    OutputsUnavailable,
    /// The execution is unbounded or its cleanup unproven, so it proves nothing.
    ExecutionUnproven,
    /// The postcondition holds.
    Satisfied,
    /// No completed execution was observed and the outputs do not show the
    /// postcondition on their own.
    NotObserved,
    /// The execution was observed and the postcondition does not hold.
    Diverged { exit_matches: bool, outputs_match: bool },
}

/// The verdict on a check. `outputs` is whether every expected output was
/// found as expected, or `None` when the outputs could not be observed;
/// `expects_outputs` whether the command declares any output; `record` the
/// execution that was dispatched, if any; `exit_codes` the accepted codes.
pub open spec fn spec_verdict(
    outputs: Option<bool>,
    expects_outputs: bool,
    record: Option<ExecutionRecord>,
    exit_codes: Seq<i32>,
) -> Verdict {
    match outputs {
        None => Verdict::OutputsUnavailable,
        Some(complete) => match record {
            None => if complete && expects_outputs {
                Verdict::Satisfied
            } else {
                Verdict::NotObserved
            },
            Some(rec) => if !rec.bounded || !rec.cleanup_proven {
                Verdict::ExecutionUnproven
            } else {
                let exit_matches = (rec.exit_code matches Some(c) && exit_codes.contains(c));
                if exit_matches && complete {
                    Verdict::Satisfied
                } else {
                    Verdict::Diverged { exit_matches, outputs_match: complete }
                }
            },
        },
    }
}

fn contains_code(codes: &Vec<i32>, code: i32) -> (r: bool)
    ensures
        r == codes@.contains(code),
{
    for i in 0..codes.len()
        invariant
            forall|j: int| 0 <= j < i ==> codes@[j] != code,
    {
        if codes[i] == code {
            assert(codes@[i as int] == code);
            return true;
        }
    }
    false
}

/// Decide the verdict on a check, as [`spec_verdict`] states.
pub fn verdict(
    outputs: Option<bool>,
    expects_outputs: bool,
    record: Option<ExecutionRecord>,
    exit_codes: &Vec<i32>,
) -> (r: Verdict)
    ensures
        r == spec_verdict(outputs, expects_outputs, record, exit_codes@),
{
    let complete = match outputs {
        None => return Verdict::OutputsUnavailable,
        Some(c) => c,
    };
    let rec = match record {
        None => {
            return if complete && expects_outputs {
                Verdict::Satisfied
            } else {
                Verdict::NotObserved
            };
        },
        Some(rec) => rec,
    };
    if !rec.bounded || !rec.cleanup_proven {
        return Verdict::ExecutionUnproven;
    }
    let exit_matches = match rec.exit_code {
        Some(code) => contains_code(exit_codes, code),
        None => false,
    };
    if exit_matches && complete {
        Verdict::Satisfied
    } else {
        Verdict::Diverged { exit_matches, outputs_match: complete }
    }
}

/// A check is satisfied only on evidence: either a bounded, cleaned-up
/// execution whose exit code is accepted and whose outputs all match, or,
/// without an execution, outputs that are all as expected.
pub proof fn law_satisfied_needs_evidence(
    outputs: Option<bool>,
    expects_outputs: bool,
    record: Option<ExecutionRecord>,
    exit_codes: Seq<i32>,
)
    ensures
        spec_verdict(outputs, expects_outputs, record, exit_codes) == Verdict::Satisfied ==> outputs
            == Some(true) && match record {
            None => expects_outputs,
            Some(rec) => rec.bounded && rec.cleanup_proven && (rec.exit_code matches Some(c)
                && exit_codes.contains(c)),
        },
{
}

} // verus!
