use sim_platform::local_check::{process_record, verdict, ExecutionRecord, Verdict};
use sim_platform::process::{
    DispatchEvidence, ProcResult, ProcessAttempt, ProcessReceipt, ProcessRefusal, StopReceipt,
};

fn completed(exit_code: i32, truncated: bool) -> ProcessAttempt {
    ProcessAttempt::Completed {
        receipt: ProcessReceipt {
            provider: "fixture/process".into(),
            elapsed_mono_ns: 1,
            result: ProcResult { stdout: "ok".into(), stderr: String::new(), exit_code, truncated },
        },
    }
}

#[test]
fn process_attempts_prove_what_they_can() {
    assert_eq!(
        process_record(&completed(3, false)),
        ExecutionRecord { exit_code: Some(3), cleanup_proven: false, bounded: true }
    );
    assert_eq!(process_record(&completed(0, true)).bounded, false);
    let stopped = ProcessAttempt::StoppedAfterTimeout {
        receipt: StopReceipt { provider: "p".into(), elapsed_mono_ns: 2, cleanup: "reaped".into() },
    };
    assert_eq!(
        process_record(&stopped),
        ExecutionRecord { exit_code: None, cleanup_proven: true, bounded: true }
    );
    let refused = ProcessAttempt::NotDispatched { refusal: ProcessRefusal::Refused("no".into()) };
    assert_eq!(process_record(&refused).cleanup_proven, true);
    let unknown = ProcessAttempt::UnknownAfterDispatch {
        evidence: DispatchEvidence { provider: "p".into(), stage: "reap".into(), detail: "lost".into() },
    };
    assert_eq!(
        process_record(&unknown),
        ExecutionRecord { exit_code: None, cleanup_proven: false, bounded: false }
    );
}

#[test]
fn verdicts_follow_the_evidence() {
    let accepted = vec![0, 2];
    let clean = |code| Some(ExecutionRecord { exit_code: Some(code), cleanup_proven: true, bounded: true });
    assert_eq!(verdict(None, true, clean(0), &accepted), Verdict::OutputsUnavailable);
    assert_eq!(verdict(Some(true), true, None, &accepted), Verdict::Satisfied);
    assert_eq!(verdict(Some(true), false, None, &accepted), Verdict::NotObserved);
    assert_eq!(verdict(Some(false), true, None, &accepted), Verdict::NotObserved);
    assert_eq!(verdict(Some(true), true, clean(2), &accepted), Verdict::Satisfied);
    assert_eq!(
        verdict(Some(true), true, clean(1), &accepted),
        Verdict::Diverged { exit_matches: false, outputs_match: true }
    );
    assert_eq!(
        verdict(Some(false), true, clean(0), &accepted),
        Verdict::Diverged { exit_matches: true, outputs_match: false }
    );
    let unproven = Some(ExecutionRecord { exit_code: Some(0), cleanup_proven: false, bounded: true });
    assert_eq!(verdict(Some(true), true, unproven, &accepted), Verdict::ExecutionUnproven);
}
