use sim_platform::android_audio::{
    AndroidAudioState, AudioInput, AudioRouteClass, AudioSessionSpec, AudioStopReason,
    PcmContract, RouteEvidence, RouteObservation, RoutingContract,
};
use sim_platform::model_process::{ModelProcess, ModelProcessOutcome};
use sim_platform::process::{
    settle, stopped_attempt, unknown_after, OutputBudget, ProcessAttempt, ProcessBudget,
    ProcessRefusal, Settled,
};
use sim_platform::ubuntu_process::{
    authorize_launch, render_environment, BindingValue, LaunchAuthority,
};
use sim_platform::sqlite::{affinity, ColumnAffinity};

fn pcm() -> PcmContract {
    PcmContract { sample_rate_hz: 48_000, channels: 1, frames_per_chunk: 480, queue_capacity_chunks: 8 }
}

fn session(private_output: bool) -> AudioSessionSpec {
    AudioSessionSpec {
        turn_content_id: "a".repeat(64),
        api_level: 34,
        admitted: true,
        private_output,
        pcm: pcm(),
        armed_at_ms: 100,
        expires_at_ms: 10_000,
    }
}

fn route(generation: u64, at: u64, capture: Vec<AudioRouteClass>, render: Vec<AudioRouteClass>) -> RouteObservation {
    RouteObservation { capture, render, generation, observed_at_ms: at, evidence: RouteEvidence::DeviceCallback }
}

#[test]
fn routing_contract_covers_api_28_to_35() {
    assert_eq!(RoutingContract::for_api(28), Ok(RoutingContract::Api28To30CommunicationMode));
    assert_eq!(RoutingContract::for_api(31), Ok(RoutingContract::Api31To35CommunicationDevice));
    assert_eq!(
        RoutingContract::for_api(36),
        Err("unsupported Android audio API level 36".to_string())
    );
    assert_eq!(
        RoutingContract::for_api(7),
        Err("unsupported Android audio API level 7".to_string())
    );
}

#[test]
fn arming_checks_admission_identity_and_bounds() {
    let mut state = AndroidAudioState::default();
    let mut unadmitted = session(true);
    unadmitted.admitted = false;
    assert!(state.dispatch(AudioInput::Arm { spec: unadmitted }).is_err());
    let mut bad_id = session(true);
    bad_id.turn_content_id = "z".repeat(64);
    assert_eq!(
        state.dispatch(AudioInput::Arm { spec: bad_id }),
        Err("Android audio session identity or expiry is invalid".to_string())
    );
    let mut loud = session(true);
    loud.pcm.channels = 9;
    assert_eq!(
        state.dispatch(AudioInput::Arm { spec: loud }),
        Err("Android audio PCM contract exceeds canonical bounded limits".to_string())
    );
    assert!(!state.armed());
    let receipt = state.dispatch(AudioInput::Arm { spec: session(true) }).unwrap().unwrap();
    assert!(state.armed());
    assert!(receipt.focus_held && receipt.communication_route_held);
    assert!(!receipt.fresh);
    assert!(receipt.private_output_paused);
}

#[test]
fn routes_are_normalized_fresh_and_monotonic() {
    let mut state = AndroidAudioState::default();
    state.dispatch(AudioInput::Arm { spec: session(true) }).unwrap();
    let receipt = state
        .dispatch(AudioInput::Route {
            observation: route(
                1,
                500,
                vec![AudioRouteClass::Usb, AudioRouteClass::Handset, AudioRouteClass::Usb],
                vec![AudioRouteClass::Usb],
            ),
        })
        .unwrap()
        .unwrap();
    assert_eq!(receipt.capture, vec![AudioRouteClass::Handset, AudioRouteClass::Usb]);
    assert!(receipt.duplex && receipt.fresh && !receipt.private_output_paused);
    assert_eq!(
        state.dispatch(AudioInput::Route { observation: route(1, 600, vec![], vec![AudioRouteClass::Usb]) }),
        Err("Android audio route generation must increase".to_string())
    );
    let later = state.dispatch(AudioInput::Tick { now_ms: 2_600 }).unwrap().unwrap();
    assert!(!later.fresh && later.private_output_paused);
    let lost = state
        .dispatch(AudioInput::Route { observation: route(2, 2_700, vec![], vec![]) })
        .unwrap()
        .unwrap();
    assert!(!lost.focus_held && !lost.communication_route_held && lost.private_output_paused);
    assert!(!state.armed());
}

#[test]
fn stop_and_expiry_release_the_session() {
    let mut state = AndroidAudioState::default();
    state.dispatch(AudioInput::Arm { spec: session(false) }).unwrap();
    assert_eq!(state.dispatch(AudioInput::Stop { reason: AudioStopReason::FocusConflict }), Ok(None));
    assert!(!state.armed());
    state.dispatch(AudioInput::Arm { spec: session(false) }).unwrap();
    assert_eq!(state.dispatch(AudioInput::Tick { now_ms: 10_000 }), Ok(None));
    assert!(!state.armed());
}

#[test]
fn model_process_replays_its_script() {
    let budget = ProcessBudget { timeout_ms: 5, max_output_bytes: 4, stdin: None };
    let mut model: ModelProcess<&str> = ModelProcess::new(vec![
        ModelProcessOutcome::SpawnFailure("missing".into()),
        ModelProcessOutcome::Exit { at_mono_ns: 1, stdout: b"abc".to_vec(), stderr: b"xyz".to_vec(), exit_code: 12 },
        ModelProcessOutcome::Exit { at_mono_ns: 6_000_000, stdout: vec![], stderr: vec![], exit_code: 0 },
    ]);
    assert_eq!(
        model.run("one", &budget, false),
        ProcessAttempt::NotDispatched { refusal: ProcessRefusal::SpawnFailed("missing".into()) }
    );
    let ProcessAttempt::Completed { receipt } = model.run("two", &budget, false) else {
        panic!("expected completion")
    };
    assert_eq!(receipt.result.stdout, "abc");
    assert_eq!(receipt.result.stderr, "x");
    assert_eq!(receipt.result.exit_code, 12);
    assert!(receipt.result.truncated);
    assert!(matches!(model.run("three", &budget, false), ProcessAttempt::StoppedAfterTimeout { .. }));
    assert_eq!(
        model.run("four", &budget, false),
        ProcessAttempt::NotDispatched { refusal: ProcessRefusal::Refused("model script exhausted".into()) }
    );
    assert_eq!(
        model.run("five", &budget, true),
        ProcessAttempt::NotDispatched { refusal: ProcessRefusal::Refused("cancelled before spawn".into()) }
    );
    assert_eq!(model.requests(), &vec!["one", "two", "three", "four", "five"]);
}

#[test]
fn sqlite_affinity_follows_declared_type() {
    assert_eq!(affinity("INTEGER"), ColumnAffinity::I64);
    assert_eq!(affinity("bigint"), ColumnAffinity::I64);
    assert_eq!(affinity("varchar(20)"), ColumnAffinity::Text);
    assert_eq!(affinity("Text"), ColumnAffinity::Text);
    assert_eq!(affinity("double precision"), ColumnAffinity::F64);
    assert_eq!(affinity("FLOAT"), ColumnAffinity::F64);
    assert_eq!(affinity("blob"), ColumnAffinity::Bytes);
    assert_eq!(affinity(""), ColumnAffinity::Bytes);
    assert_eq!(affinity("POINT"), ColumnAffinity::I64);
}

#[test]
fn output_budget_keeps_the_first_bytes_offered() {
    let mut budget = OutputBudget::new(5);
    assert_eq!(budget.take(3), 3);
    assert!(!budget.truncated());
    assert_eq!(budget.take(4), 2);
    assert!(budget.truncated());
    assert_eq!(budget.take(1), 0);
    let mut exact = OutputBudget::new(4);
    assert_eq!(exact.take(4), 4);
    assert_eq!(exact.take(0), 0);
    assert!(!exact.truncated());
}

#[test]
fn a_child_settles_once_every_stream_reported() {
    assert_eq!(settle(Some(0), Some(Ok(vec![1])), None, Some(Ok(()))), Settled::Pending);
    assert_eq!(
        settle(Some(0), Some(Err("capture: eof".into())), Some(Ok(vec![])), Some(Err("stdin: pipe".into()))),
        Settled::Unknown { stage: "stdin", detail: "stdin: pipe".into() }
    );
    assert_eq!(
        settle(Some(3), Some(Ok(b"out".to_vec())), Some(Ok(b"err".to_vec())), Some(Ok(()))),
        Settled::Finished { stdout: b"out".to_vec(), stderr: b"err".to_vec(), exit_code: 3 }
    );
    let ProcessAttempt::UnknownAfterDispatch { evidence } = unknown_after("platform/site/ubuntu-pc", "reap", "gone", 42) else {
        panic!("unknown attempt")
    };
    assert_eq!(evidence.detail, "gone; elapsed_ns=42");
    assert!(matches!(
        stopped_attempt("p", true, Ok("reaped".into()), 7),
        ProcessAttempt::StoppedAfterCancel { receipt } if receipt.cleanup == "reaped" && receipt.elapsed_mono_ns == 7
    ));
    assert!(matches!(
        stopped_attempt("p", false, Err("leaked".into()), 7),
        ProcessAttempt::UnknownAfterDispatch { evidence } if evidence.stage == "cleanup" && evidence.detail == "leaked"
    ));
}

#[test]
fn launch_authority_refuses_unknown_references() {
    let authority = LaunchAuthority {
        programs: vec!["shell".into()],
        roots: vec![("project".into(), "/work".into())],
        artifacts: vec![("key".into(), "/secrets/key".into())],
    };
    assert_eq!(authorize_launch(&authority, "shell", "project"), Ok((0, 0)));
    assert_eq!(
        authorize_launch(&authority, "python", "project"),
        Err("program reference is not boot-authorized".to_string())
    );
    assert_eq!(
        authorize_launch(&authority, "shell", "home"),
        Err("project-root reference is not boot-authorized".to_string())
    );
    let env = vec![
        ("VISIBLE".to_string(), BindingValue::Literal("yes".into())),
        ("ROOT".to_string(), BindingValue::ProjectRoot("project".into())),
        ("KEY".to_string(), BindingValue::PrivateArtifact("key".into())),
    ];
    assert_eq!(
        render_environment(&authority, &env, &vec!["key".into()]),
        Ok(vec![
            ("VISIBLE".to_string(), "yes".to_string()),
            ("ROOT".to_string(), "/work".to_string()),
            ("KEY".to_string(), "/secrets/key".to_string()),
        ])
    );
    assert_eq!(
        render_environment(&authority, &vec![("X".into(), BindingValue::ProjectRoot("key".into()))], &vec![]),
        Err("binding references wrong or unavailable resource kind".to_string())
    );
    assert_eq!(
        render_environment(&authority, &env, &vec!["other".into()]),
        Err("private artifact is not boot-authorized".to_string())
    );
}
