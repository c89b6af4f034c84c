use sim_platform::android_speech::{
    AndroidSpeechState, LocalSpeechEvidence, SpeechFallback, SpeechInput, SpeechKind,
    SpeechLanguage, SpeechOutput, SpeechStopReason, SpeechTier, MAX_PCM_BYTES,
};

fn evidence(kind: SpeechKind) -> LocalSpeechEvidence {
    LocalSpeechEvidence {
        kind,
        implementation: "android-explicit-on-device".into(),
        explicitly_on_device: true,
        remotely_backed: false,
        discovery_contacted_provider: false,
        prompted: false,
        downloaded: false,
        network_denied_self_test: true,
        languages: vec![SpeechLanguage {
            tag: "sv-SE".into(),
            installed: true,
        }],
    }
}

#[test]
fn every_advertised_tier_requires_network_denied_on_device_proof() {
    for kind in [SpeechKind::Transcribe, SpeechKind::Speak] {
        let mut state = AndroidSpeechState::default();
        let output = state
            .dispatch(SpeechInput::InstallEvidence {
                evidence: evidence(kind),
            })
            .unwrap();
        assert!(matches!(
            output,
            SpeechOutput::Available {
                tier: SpeechTier::OnDevice,
                ..
            }
        ));

        for invalidate in [
            |item: &mut LocalSpeechEvidence| item.network_denied_self_test = false,
            |item: &mut LocalSpeechEvidence| item.explicitly_on_device = false,
            |item: &mut LocalSpeechEvidence| item.discovery_contacted_provider = true,
            |item: &mut LocalSpeechEvidence| item.downloaded = true,
            |item: &mut LocalSpeechEvidence| item.prompted = true,
        ] {
            let mut rejected = evidence(kind);
            invalidate(&mut rejected);
            assert!(state
                .dispatch(SpeechInput::InstallEvidence { evidence: rejected })
                .is_err());
        }
    }
}

#[test]
fn remotely_backed_recognizer_never_satisfies_local_speech() {
    let mut remote = evidence(SpeechKind::Transcribe);
    remote.implementation = "android-system-default-recognizer".into();
    remote.remotely_backed = true;
    let mut state = AndroidSpeechState::default();
    assert!(state
        .dispatch(SpeechInput::InstallEvidence { evidence: remote })
        .is_err());
    assert_eq!(
        state
            .dispatch(SpeechInput::Transcribe {
                language: "sv-SE".into(),
                pcm: vec![1, 2],
            })
            .unwrap(),
        SpeechOutput::Unsupported {
            kind: SpeechKind::Transcribe,
            fallback: SpeechFallback::VoiceNote,
        }
    );
}

#[test]
fn pcm_and_plain_transcript_are_preserved_and_absence_has_fallbacks() {
    let mut state = AndroidSpeechState::default();
    state
        .dispatch(SpeechInput::InstallEvidence {
            evidence: evidence(SpeechKind::Transcribe),
        })
        .unwrap();
    assert!(matches!(
        state
            .dispatch(SpeechInput::Transcribe {
                language: "sv-SE".into(),
                pcm: vec![0, 1, 2, 3]
            })
            .unwrap(),
        SpeechOutput::Started {
            kind: SpeechKind::Transcribe,
            ..
        }
    ));
    assert_eq!(
        state
            .dispatch(SpeechInput::Transcript {
                language: "sv-SE".into(),
                text: "granskad text".into()
            })
            .unwrap(),
        SpeechOutput::Transcript {
            language: "sv-SE".into(),
            text: "granskad text".into()
        }
    );
    assert_eq!(
        state
            .dispatch(SpeechInput::Speak {
                language: "sv-SE".into(),
                text: "hej".into()
            })
            .unwrap(),
        SpeechOutput::Unsupported {
            kind: SpeechKind::Speak,
            fallback: SpeechFallback::Silence
        }
    );
}

#[test]
fn all_stop_causes_reap_and_bounds_fail_closed() {
    let mut state = AndroidSpeechState::default();
    state
        .dispatch(SpeechInput::InstallEvidence {
            evidence: evidence(SpeechKind::Transcribe),
        })
        .unwrap();
    for reason in [
        SpeechStopReason::Release,
        SpeechStopReason::PermissionLoss,
        SpeechStopReason::StaleRoute,
        SpeechStopReason::LifecycleExpiry,
        SpeechStopReason::Revocation,
    ] {
        state
            .dispatch(SpeechInput::Transcribe {
                language: "sv-SE".into(),
                pcm: vec![1],
            })
            .unwrap();
        assert_eq!(
            state.dispatch(SpeechInput::Stop { reason }).unwrap(),
            SpeechOutput::Stopped { reason }
        );
    }
    assert_eq!(
        state
            .dispatch(SpeechInput::Transcribe {
                language: "sv-SE".into(),
                pcm: Vec::new()
            })
            .unwrap(),
        SpeechOutput::Stopped {
            reason: SpeechStopReason::EmptyInput
        }
    );
    assert_eq!(
        state
            .dispatch(SpeechInput::Transcribe {
                language: "sv-SE".into(),
                pcm: vec![0; MAX_PCM_BYTES + 1]
            })
            .unwrap(),
        SpeechOutput::Stopped {
            reason: SpeechStopReason::OversizedInput
        }
    );
}

#[test]
fn evidence_is_normalized_before_it_is_advertised() {
    let mut e = evidence(SpeechKind::Speak);
    e.implementation = "  android-tts  ".into();
    e.languages = vec![
        SpeechLanguage { tag: "sv-SE".into(), installed: true },
        SpeechLanguage { tag: "en-GB".into(), installed: true },
        SpeechLanguage { tag: "sv-SE".into(), installed: false },
    ];
    let mut checked = e.clone();
    checked.validate().unwrap();
    assert_eq!(checked.implementation, "android-tts");
    assert_eq!(
        checked.languages,
        vec![
            SpeechLanguage { tag: "en-GB".into(), installed: true },
            SpeechLanguage { tag: "sv-SE".into(), installed: true },
        ]
    );
    let mut state = AndroidSpeechState::default();
    assert_eq!(
        state.dispatch(SpeechInput::InstallEvidence { evidence: e }).unwrap(),
        SpeechOutput::Available {
            kind: SpeechKind::Speak,
            tier: SpeechTier::OnDevice,
            languages: vec!["en-GB".into(), "sv-SE".into()],
        }
    );
    assert!(matches!(
        state
            .dispatch(SpeechInput::Speak { language: "en-GB".into(), text: "hello".into() })
            .unwrap(),
        SpeechOutput::Started { kind: SpeechKind::Speak, .. }
    ));
}

#[test]
fn evidence_refuses_blank_implementation_and_unusable_languages() {
    let mut blank = evidence(SpeechKind::Transcribe);
    blank.implementation = " \t ".into();
    assert_eq!(
        blank.validate(),
        Err("Android local speech requires installed-language, on-device, network-denied evidence".to_string())
    );
    let mut long = evidence(SpeechKind::Transcribe);
    long.languages = vec![SpeechLanguage { tag: "x".repeat(65), installed: true }];
    assert!(long.validate().is_err());
    let mut none = evidence(SpeechKind::Transcribe);
    none.languages.clear();
    assert!(none.validate().is_err());
}

#[test]
fn transcript_needs_an_active_transcriber_and_text() {
    let mut state = AndroidSpeechState::default();
    assert_eq!(
        state.dispatch(SpeechInput::Transcript { language: "sv-SE".into(), text: "x".into() }),
        Err("Android transcript arrived without an active local transcriber".to_string())
    );
    state
        .dispatch(SpeechInput::InstallEvidence { evidence: evidence(SpeechKind::Transcribe) })
        .unwrap();
    state
        .dispatch(SpeechInput::Transcribe { language: "sv-SE".into(), pcm: vec![1] })
        .unwrap();
    assert_eq!(
        state
            .dispatch(SpeechInput::Transcript { language: "sv-SE".into(), text: "   ".into() })
            .unwrap(),
        SpeechOutput::Stopped { reason: SpeechStopReason::EmptyInput }
    );
    assert_eq!(
        state.dispatch(SpeechInput::Complete).unwrap(),
        SpeechOutput::Stopped { reason: SpeechStopReason::Release }
    );
    let oversized = "a".repeat(32 * 1024 + 1);
    assert_eq!(
        state
            .dispatch(SpeechInput::Speak { language: "sv-SE".into(), text: oversized })
            .unwrap(),
        SpeechOutput::Stopped { reason: SpeechStopReason::OversizedInput }
    );
    assert!(!SpeechOutput::Stopped { reason: SpeechStopReason::Release }.is_available());
    assert!(SpeechOutput::Started { kind: SpeechKind::Speak, language: "sv-SE".into() }.is_available());
}
