//! A scripted process port for the deterministic platform model: each run
//! takes the next scripted outcome and reports it as a process attempt.
use vstd::prelude::*;
use vstd::utf8::{decode_utf8, valid_utf8};
use crate::process::{
    completed_attempt, utf8_lossy, DispatchEvidence, ProcessAttempt, ProcessBudget, ProcessRefusal,
    StopReceipt,
};

verus! {

/// One scripted outcome of the model process port.
#[derive(Clone, Debug, PartialEq, Eq)]
pub enum ModelProcessOutcome {
    Refused(String),
    SpawnFailure(String),
    Exit { at_mono_ns: u64, stdout: Vec<u8>, stderr: Vec<u8>, exit_code: i32 },
    TimeoutStopped { at_mono_ns: u64 },
    CancelStopped { at_mono_ns: u64 },
    UnknownAfterDispatch { stage: String, detail: String },
}

pub const PROVIDER: &'static str = "platform/site/model";
pub const CLEANUP: &'static str = "process group killed and reaped";

/// `a * b`, or `u64::MAX` where it overflows.
pub open spec fn saturating_mul(a: u64, b: u64) -> u64 {
    if a * b > u64::MAX {
        u64::MAX
    } else {
        (a * b) as u64
    }
}

/// The output kept under a shared budget: stdout first, stderr from what is
/// left, and whether anything was dropped.
pub open spec fn capped(stdout: Seq<u8>, stderr: Seq<u8>, budget: usize) -> (Seq<u8>, Seq<u8>, bool) {
    let out = if stdout.len() <= budget { stdout } else { stdout.take(budget as int) };
    let left = budget - out.len();
    let err = if stderr.len() <= left { stderr } else { stderr.take(left) };
    (out, err, stdout.len() + stderr.len() > budget)
}

/// A stop receipt at `at_mono_ns` from the model provider.
pub open spec fn stop_receipt(r: StopReceipt, at_mono_ns: u64) -> bool {
    r.provider@ == PROVIDER@ && r.elapsed_mono_ns == at_mono_ns && r.cleanup@ == CLEANUP@
}

/// The attempt a scripted outcome reports under `budget`.
pub open spec fn reports_outcome(outcome: ModelProcessOutcome, budget: ProcessBudget, r: ProcessAttempt) -> bool {
    match outcome {
        ModelProcessOutcome::Refused(v) => r == ProcessAttempt::NotDispatched {
            refusal: ProcessRefusal::Refused(v),
        },
        ModelProcessOutcome::SpawnFailure(v) => r == ProcessAttempt::NotDispatched {
            refusal: ProcessRefusal::SpawnFailed(v),
        },
        ModelProcessOutcome::TimeoutStopped { at_mono_ns } => r matches ProcessAttempt::StoppedAfterTimeout {
            receipt,
        } && stop_receipt(receipt, at_mono_ns),
        ModelProcessOutcome::CancelStopped { at_mono_ns } => r matches ProcessAttempt::StoppedAfterCancel {
            receipt,
        } && stop_receipt(receipt, at_mono_ns),
        ModelProcessOutcome::UnknownAfterDispatch { stage, detail } => r matches ProcessAttempt::UnknownAfterDispatch {
            evidence,
        } && evidence.provider@ == PROVIDER@ && evidence.stage == stage && evidence.detail == detail,
        ModelProcessOutcome::Exit { at_mono_ns, stdout, stderr, exit_code } => if at_mono_ns
            > saturating_mul(budget.timeout_ms, 1000000) {
            r matches ProcessAttempt::StoppedAfterTimeout { receipt } && stop_receipt(
                receipt,
                at_mono_ns,
            )
        } else {
            let (out, err, truncated) = capped(stdout@, stderr@, budget.max_output_bytes);
            r matches ProcessAttempt::Completed { receipt } && receipt.provider@ == PROVIDER@
                && receipt.elapsed_mono_ns == at_mono_ns && receipt.result.stdout@ == utf8_lossy(out)
                && receipt.result.stderr@ == utf8_lossy(err) && receipt.result.exit_code == exit_code
                && receipt.result.truncated == truncated
                && (valid_utf8(out) ==> receipt.result.stdout@ == decode_utf8(out))
                && (valid_utf8(err) ==> receipt.result.stderr@ == decode_utf8(err))
        },
    }
}

fn stop(elapsed_mono_ns: u64) -> (r: StopReceipt)
    ensures
        stop_receipt(r, elapsed_mono_ns),
{
    StopReceipt {
        provider: String::from_str(PROVIDER),
        elapsed_mono_ns,
        cleanup: String::from_str(CLEANUP),
    }
}

fn prefix(bytes: &Vec<u8>, n: usize) -> (r: Vec<u8>)
    requires
        n <= bytes@.len(),
    ensures
        r@ == bytes@.take(n as int),
{
    let mut out: Vec<u8> = Vec::new();
    for i in 0..n
        invariant
            n <= bytes@.len(),
            out@ == bytes@.take(i as int),
    {
        out.push(bytes[i]);
        assert(out@ =~= bytes@.take(i + 1));
    }
    out
}

/// Keep output under a shared budget, as [`capped`] states.
fn cap(stdout: Vec<u8>, stderr: Vec<u8>, budget: usize) -> (r: (Vec<u8>, Vec<u8>, bool))
    ensures
        (r.0@, r.1@, r.2) == capped(stdout@, stderr@, budget),
{
    let truncated = stdout.len() > budget || stderr.len() > budget - stdout.len();
    let out = if stdout.len() <= budget {
        stdout
    } else {
        prefix(&stdout, budget)
    };
    let left = budget - out.len();
    let err = if stderr.len() <= left {
        stderr
    } else {
        prefix(&stderr, left)
    };
    assert(out@ =~= capped(stdout@, stderr@, budget).0);
    (out, err, truncated)
}

/// A deterministic process port that replays a script of outcomes and records
/// every request it receives.
pub struct ModelProcess<R> {
    outcomes: Vec<ModelProcessOutcome>,
    requests: Vec<R>,
}

impl<R> ModelProcess<R> {
    /// The outcomes not yet replayed, next first.
    pub closed spec fn script(&self) -> Seq<ModelProcessOutcome> {
        self.outcomes@
    }

    /// The requests received, in order.
    pub closed spec fn received(&self) -> Seq<R> {
        self.requests@
    }

    pub fn new(outcomes: Vec<ModelProcessOutcome>) -> (r: Self)
        ensures
            r.script() == outcomes@,
            r.received() == Seq::<R>::empty(),
    {
        ModelProcess { outcomes, requests: Vec::new() }
    }

    /// The requests received, in order.
    pub fn requests(&self) -> (r: &Vec<R>)
        ensures
            r@ == self.received(),
    {
        &self.requests
    }

    /// Record `request`, then report the next scripted outcome under `budget`;
    /// a cancelled request or an exhausted script is refused before spawn.
    pub fn run(&mut self, request: R, budget: &ProcessBudget, cancelled: bool) -> (r: ProcessAttempt)
        ensures
            final(self).received() == old(self).received().push(request),
            cancelled ==> (r matches ProcessAttempt::NotDispatched {
                refusal: ProcessRefusal::Refused(m),
            } && m@ == "cancelled before spawn"@ && final(self).script() == old(self).script()),
            !cancelled && old(self).script().len() == 0 ==> (r matches ProcessAttempt::NotDispatched {
                refusal: ProcessRefusal::Refused(m),
            } && m@ == "model script exhausted"@ && final(self).script() == old(self).script()),
            !cancelled && old(self).script().len() > 0 ==> final(self).script() == old(
                self,
            ).script().drop_first() && reports_outcome(old(self).script()[0], *budget, r),
    {
        self.requests.push(request);
        if cancelled {
            return ProcessAttempt::NotDispatched {
                refusal: ProcessRefusal::Refused(String::from_str("cancelled before spawn")),
            };
        }
        if self.outcomes.len() == 0 {
            return ProcessAttempt::NotDispatched {
                refusal: ProcessRefusal::Refused(String::from_str("model script exhausted")),
            };
        }
        let outcome = self.outcomes.remove(0);
        match outcome {
            ModelProcessOutcome::Refused(v) => ProcessAttempt::NotDispatched {
                refusal: ProcessRefusal::Refused(v),
            },
            ModelProcessOutcome::SpawnFailure(v) => ProcessAttempt::NotDispatched {
                refusal: ProcessRefusal::SpawnFailed(v),
            },
            ModelProcessOutcome::TimeoutStopped { at_mono_ns } => ProcessAttempt::StoppedAfterTimeout {
                receipt: stop(at_mono_ns),
            },
            ModelProcessOutcome::CancelStopped { at_mono_ns } => ProcessAttempt::StoppedAfterCancel {
                receipt: stop(at_mono_ns),
            },
            ModelProcessOutcome::UnknownAfterDispatch { stage, detail } => ProcessAttempt::UnknownAfterDispatch {
                evidence: DispatchEvidence { provider: String::from_str(PROVIDER), stage, detail },
            },
            ModelProcessOutcome::Exit { at_mono_ns, stdout, stderr, exit_code } => {
                let limit = if budget.timeout_ms > u64::MAX / 1000000 {
                    u64::MAX
                } else {
                    budget.timeout_ms * 1000000
                };
                if at_mono_ns > limit {
                    return ProcessAttempt::StoppedAfterTimeout { receipt: stop(at_mono_ns) };
                }
                let (out, err, truncated) = cap(stdout, stderr, budget.max_output_bytes);
                completed_attempt(
                    PROVIDER,
                    at_mono_ns,
                    out.as_slice(),
                    err.as_slice(),
                    exit_code,
                    truncated,
                )
            },
        }
    }
}

} // verus!
