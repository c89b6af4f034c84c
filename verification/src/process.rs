//! Process attempts as the platform reports them, and the bookkeeping every
//! process port shares: the output budget and when a child has settled.
use vstd::prelude::*;
use vstd::utf8::{decode_utf8, valid_utf8};
use crate::text::{decimal, decimal_text};

verus! {

/// The time and output limits of one process request, and its standard input.
#[derive(Clone, Debug, PartialEq, Eq)]
pub struct ProcessBudget {
    pub timeout_ms: u64,
    pub max_output_bytes: usize,
    pub stdin: Option<Vec<u8>>,
}

/// Why a request was never dispatched.
#[derive(Clone, Debug, PartialEq, Eq)]
pub enum ProcessRefusal {
    Refused(String),
    SpawnFailed(String),
}

/// Captured output and exit status of a completed process.
#[derive(Clone, Debug, PartialEq, Eq)]
pub struct ProcResult {
    pub stdout: String,
    pub stderr: String,
    pub exit_code: i32,
    pub truncated: bool,
}

#[derive(Clone, Debug, PartialEq, Eq)]
pub struct ProcessReceipt {
    pub provider: String,
    pub elapsed_mono_ns: u64,
    pub result: ProcResult,
}

#[derive(Clone, Debug, PartialEq, Eq)]
pub struct StopReceipt {
    pub provider: String,
    pub elapsed_mono_ns: u64,
    pub cleanup: String,
}

#[derive(Clone, Debug, PartialEq, Eq)]
pub struct DispatchEvidence {
    pub provider: String,
    pub stage: String,
    pub detail: String,
}

/// What one process request came to.
#[derive(Clone, Debug, PartialEq, Eq)]
pub enum ProcessAttempt {
    NotDispatched { refusal: ProcessRefusal },
    Completed { receipt: ProcessReceipt },
    StoppedAfterTimeout { receipt: StopReceipt },
    StoppedAfterCancel { receipt: StopReceipt },
    UnknownAfterDispatch { evidence: DispatchEvidence },
}

/// The characters `String::from_utf8_lossy` makes of `bytes`.
pub uninterp spec fn utf8_lossy(bytes: Seq<u8>) -> Seq<char>;

/// `String::from_utf8_lossy`: the text of `bytes`, invalid sequences replaced;
/// valid UTF-8 decodes unchanged. The replacement itself is left to the name
/// `utf8_lossy`, a function of the bytes alone.
#[verifier::external_body]
pub(crate) fn lossy_text(bytes: &[u8]) -> (r: String)
    ensures
        r@ == utf8_lossy(bytes@),
        valid_utf8(bytes@) ==> r@ == decode_utf8(bytes@),
{
    String::from_utf8_lossy(bytes).into_owned()
}


/// The output budget shared by a child's stdout and stderr readers.
pub struct OutputBudget {
    left: usize,
    truncated: bool,
}

impl View for OutputBudget {
    type V = (nat, bool);

    closed spec fn view(&self) -> (nat, bool) {
        (self.left as nat, self.truncated)
    }
}

/// Taking a chunk of `n` bytes keeps as much of it as is left.
pub open spec fn kept(left: nat, n: nat) -> nat {
    if n <= left {
        n
    } else {
        left
    }
}

impl OutputBudget {
    /// A budget of `max` bytes with nothing dropped yet.
    pub fn new(max: usize) -> (r: Self)
        ensures
            r@ == (max as nat, false),
    {
        OutputBudget { left: max, truncated: false }
    }

    /// Account a chunk of `n` bytes: keep what is left of it, and remember
    /// when any of it had to be dropped.
    pub fn take(&mut self, n: usize) -> (keep: usize)
        ensures
            keep == kept(old(self)@.0, n as nat),
            final(self)@ == ((old(self)@.0 - keep) as nat, old(self)@.1 || keep < n),
    {
        let keep = if n <= self.left {
            n
        } else {
            self.left
        };
        self.left = self.left - keep;
        self.truncated = self.truncated || keep < n;
        keep
    }

    /// Account a chunk read from one stream and append the part of it that
    /// is kept, its first bytes, to what that stream has captured.
    pub fn capture(&mut self, captured: &mut Vec<u8>, chunk: &[u8]) -> (keep: usize)
        ensures
            keep == kept(old(self)@.0, chunk@.len()),
            final(self)@ == ((old(self)@.0 - keep) as nat, old(self)@.1 || keep < chunk@.len()),
            final(captured)@ == old(captured)@ + chunk@.take(keep as int),
    {
        let keep = self.take(chunk.len());
        let mut i: usize = 0;
        while i < keep
            invariant
                keep <= chunk@.len(),
                i <= keep,
                captured@ == old(captured)@ + chunk@.take(i as int),
            decreases keep - i,
        {
            captured.push(chunk[i]);
            assert(chunk@.take(i + 1) =~= chunk@.take(i as int).push(chunk@[i as int]));
            i = i + 1;
        }
        keep
    }

    /// Whether any output was dropped.
    pub fn truncated(&self) -> (r: bool)
        ensures
            r == self@.1,
    {
        self.truncated
    }
}

/// Bytes left and whether anything was dropped after chunks of these sizes.
pub open spec fn after_chunks(max: nat, chunks: Seq<nat>) -> (nat, bool)
    decreases chunks.len(),
{
    if chunks.len() == 0 {
        (max, false)
    } else {
        let (left, truncated) = after_chunks(max, chunks.drop_last());
        let keep = kept(left, chunks.last());
        ((left - keep) as nat, truncated || keep < chunks.last())
    }
}

/// The total size of the chunks.
pub open spec fn total(chunks: Seq<nat>) -> nat
    decreases chunks.len(),
{
    if chunks.len() == 0 {
        0
    } else {
        total(chunks.drop_last()) + chunks.last()
    }
}

/// Readers sharing one budget keep exactly the first `max` bytes offered, in
/// whatever chunks they arrive, and report truncation exactly when more than
/// `max` bytes were offered.
pub proof fn law_budget_keeps_a_prefix(max: nat, chunks: Seq<nat>)
    ensures
        after_chunks(max, chunks).0 == (if total(chunks) <= max { max - total(chunks) } else { 0 }),
        after_chunks(max, chunks).1 <==> total(chunks) > max,
    decreases chunks.len(),
{
    if chunks.len() > 0 {
        law_budget_keeps_a_prefix(max, chunks.drop_last());
    }
}

/// What one stream captured is the start of what it offered: a captured
/// chunk keeps its first bytes, appended in order, and once a chunk is cut the
/// shared budget is spent, so no later chunk of any stream keeps anything.
pub proof fn law_capture_keeps_a_prefix(offered: Seq<u8>, captured: Seq<u8>, left: nat, chunk: Seq<u8>)
    requires
        captured.len() <= offered.len(),
        captured == offered.take(captured.len() as int),
        captured.len() < offered.len() ==> left == 0,
    ensures
        ({
            let keep = kept(left, chunk.len());
            let now_captured = captured + chunk.take(keep as int);
            let now_offered = offered + chunk;
            &&& now_captured.len() <= now_offered.len()
            &&& now_captured == now_offered.take(now_captured.len() as int)
            &&& now_captured.len() < now_offered.len() ==> left - keep == 0
        }),
        left == 0 ==> kept(left, chunk.len()) == 0,
{
    let keep = kept(left, chunk.len());
    let now_captured = captured + chunk.take(keep as int);
    let now_offered = offered + chunk;
    if captured.len() < offered.len() {
        assert(chunk.take(0) =~= Seq::<u8>::empty());
        assert(now_captured =~= captured);
        assert(now_offered.take(captured.len() as int) =~= offered.take(captured.len() as int));
    } else {
        assert(captured =~= offered);
        assert(now_captured =~= now_offered.take(now_captured.len() as int));
    }
}

/// How a polled child stands.
#[derive(Clone, Debug, PartialEq, Eq)]
pub enum Settled {
    /// Its status or one of its streams is still outstanding.
    Pending,
    /// A stream failed; the attempt ends as unknown after dispatch.
    Unknown { stage: &'static str, detail: String },
    /// It exited and all three streams completed.
    Finished { stdout: Vec<u8>, stderr: Vec<u8>, exit_code: i32 },
}

/// How a child stands once its exit code, its two output readers and its
/// input writer have reported, each `None` while outstanding: pending until
/// all four have; then a failed writer, then a failed stdout, then a failed
/// stderr reader ends it as unknown; otherwise it finished.
pub open spec fn spec_settle(
    exit_code: Option<i32>,
    stdout: Option<Result<Vec<u8>, String>>,
    stderr: Option<Result<Vec<u8>, String>>,
    stdin: Option<Result<(), String>>,
) -> Settled {
    if exit_code is None || stdout is None || stderr is None || stdin is None {
        Settled::Pending
    } else if stdin->Some_0 is Err {
        Settled::Unknown { stage: "stdin", detail: stdin->Some_0->Err_0 }
    } else if stdout->Some_0 is Err {
        Settled::Unknown { stage: "capture", detail: stdout->Some_0->Err_0 }
    } else if stderr->Some_0 is Err {
        Settled::Unknown { stage: "capture", detail: stderr->Some_0->Err_0 }
    } else {
        Settled::Finished {
            stdout: stdout->Some_0->Ok_0,
            stderr: stderr->Some_0->Ok_0,
            exit_code: exit_code->Some_0,
        }
    }
}

/// Decide how a child stands, as [`spec_settle`] states.
pub fn settle(
    exit_code: Option<i32>,
    stdout: Option<Result<Vec<u8>, String>>,
    stderr: Option<Result<Vec<u8>, String>>,
    stdin: Option<Result<(), String>>,
) -> (r: Settled)
    ensures
        r == spec_settle(exit_code, stdout, stderr, stdin),
{
    match (exit_code, stdout, stderr, stdin) {
        (Some(code), Some(out), Some(err), Some(input)) => match input {
            Err(e) => Settled::Unknown { stage: "stdin", detail: e },
            Ok(()) => match out {
                Err(e) => Settled::Unknown { stage: "capture", detail: e },
                Ok(out) => match err {
                    Err(e) => Settled::Unknown { stage: "capture", detail: e },
                    Ok(err) => Settled::Finished { stdout: out, stderr: err, exit_code: code },
                },
            },
        },
        _ => Settled::Pending,
    }
}

/// `detail; elapsed_ns=<elapsed>`.
pub open spec fn elapsed_detail(detail: Seq<char>, elapsed_ns: u64) -> Seq<char> {
    detail + "; elapsed_ns="@ + decimal(elapsed_ns as nat)
}

/// An attempt that ended unknown after dispatch at `stage`, with the elapsed time.
pub fn unknown_after(provider: &str, stage: &str, detail: &str, elapsed_ns: u64) -> (r: ProcessAttempt)
    ensures
        r matches ProcessAttempt::UnknownAfterDispatch { evidence } && evidence.provider@
            == provider@ && evidence.stage@ == stage@ && evidence.detail@ == elapsed_detail(
            detail@,
            elapsed_ns,
        ),
{
    let mut text = String::from_str(detail);
    text.append("; elapsed_ns=");
    let digits = decimal_text(elapsed_ns);
    text.append(digits.as_str());
    ProcessAttempt::UnknownAfterDispatch {
        evidence: DispatchEvidence {
            provider: String::from_str(provider),
            stage: String::from_str(stage),
            detail: text,
        },
    }
}

/// The attempt of a child stopped on cancellation or timeout: stopped with the
/// cleanup receipt when the process group was killed and reaped, unknown at
/// cleanup otherwise.
pub fn stopped_attempt(provider: &str, cancelled: bool, cleanup: Result<String, String>, elapsed_ns: u64) -> (r:
    ProcessAttempt)
    ensures
        match cleanup {
            Ok(detail) => if cancelled {
                r matches ProcessAttempt::StoppedAfterCancel { receipt } && receipt.provider@
                    == provider@ && receipt.elapsed_mono_ns == elapsed_ns && receipt.cleanup == detail
            } else {
                r matches ProcessAttempt::StoppedAfterTimeout { receipt } && receipt.provider@
                    == provider@ && receipt.elapsed_mono_ns == elapsed_ns && receipt.cleanup == detail
            },
            Err(detail) => r matches ProcessAttempt::UnknownAfterDispatch { evidence }
                && evidence.provider@ == provider@ && evidence.stage@ == "cleanup"@
                && evidence.detail == detail,
        },
{
    match cleanup {
        Ok(detail) => {
            let receipt = StopReceipt {
                provider: String::from_str(provider),
                elapsed_mono_ns: elapsed_ns,
                cleanup: detail,
            };
            if cancelled {
                ProcessAttempt::StoppedAfterCancel { receipt }
            } else {
                ProcessAttempt::StoppedAfterTimeout { receipt }
            }
        },
        Err(detail) => ProcessAttempt::UnknownAfterDispatch {
            evidence: DispatchEvidence {
                provider: String::from_str(provider),
                stage: String::from_str("cleanup"),
                detail,
            },
        },
    }
}

/// The attempt of a child that finished: its output as text, its exit code
/// and whether the budget dropped any output.
pub fn completed_attempt(
    provider: &str,
    elapsed_ns: u64,
    stdout: &[u8],
    stderr: &[u8],
    exit_code: i32,
    truncated: bool,
) -> (r: ProcessAttempt)
    ensures
        r matches ProcessAttempt::Completed { receipt } && receipt.provider@ == provider@
            && receipt.elapsed_mono_ns == elapsed_ns && receipt.result.stdout@ == utf8_lossy(stdout@)
            && receipt.result.stderr@ == utf8_lossy(stderr@) && receipt.result.exit_code == exit_code
            && receipt.result.truncated == truncated
            && (valid_utf8(stdout@) ==> receipt.result.stdout@ == decode_utf8(stdout@))
            && (valid_utf8(stderr@) ==> receipt.result.stderr@ == decode_utf8(stderr@)),
{
    ProcessAttempt::Completed {
        receipt: ProcessReceipt {
            provider: String::from_str(provider),
            elapsed_mono_ns: elapsed_ns,
            result: ProcResult {
                stdout: lossy_text(stdout),
                stderr: lossy_text(stderr),
                exit_code,
                truncated,
            },
        },
    }
}

} // verus!
