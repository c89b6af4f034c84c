use sim_platform::digest::stable_digest;
use sim_platform::records::{EvidenceLevel, FactPort};
use sim_platform::wasi::{
    admit_imports, allowed_imports, inspect_artifact, platform_card, CanonicalService, PreopenRef,
    WasiCapsule, WasiProfile, WasiRefusal,
};

fn name(out: &mut Vec<u8>, text: &str) {
    out.push(text.len() as u8);
    out.extend_from_slice(text.as_bytes());
}

fn module(imports: &[(&str, &str)]) -> Vec<u8> {
    let mut bytes = b"\0asm".to_vec();
    bytes.extend_from_slice(&[1, 0, 0, 0]);
    bytes.extend_from_slice(&[1, 4, 1, 0x60, 0, 0]);
    let mut section = vec![imports.len() as u8];
    for (module, field) in imports {
        name(&mut section, module);
        name(&mut section, field);
        section.extend_from_slice(&[0, 0]);
    }
    bytes.push(2);
    bytes.push(section.len() as u8);
    bytes.extend_from_slice(&section);
    bytes
}

#[test]
fn artifact_imports_must_be_declared() {
    let admitted = inspect_artifact(&module(&[
        ("wasi:clocks/wall-clock@0.2.0", "now"),
        ("wasi:random/random@0.2.0", "get-random-bytes"),
    ]))
    .unwrap();
    assert_eq!(admitted.len(), 2);
    assert_eq!(admitted[0].service, CanonicalService::WallClock);
    assert_eq!(admitted[1].service, CanonicalService::Entropy);
    assert_eq!(
        inspect_artifact(&module(&[("wasi:clocks/wall-clock@0.2.0", "now"), ("env", "spawn")])),
        Err(WasiRefusal::UndeclaredImport { module: "env".into(), name: "spawn".into() })
    );
    assert!(matches!(
        inspect_artifact(b"not wasm"),
        Err(WasiRefusal::MalformedArtifact(_))
    ));
    assert_eq!(inspect_artifact(&module(&[])).unwrap(), Vec::new());
}

#[test]
fn undeclared_import_wins_over_a_later_reader_error() {
    let imports = vec![("env".to_string(), "spawn".to_string())];
    assert_eq!(
        admit_imports(&imports, Some("truncated".into())),
        Err(WasiRefusal::UndeclaredImport { module: "env".into(), name: "spawn".into() })
    );
    let declared = vec![("wasi:cli/exit@0.2.0".to_string(), "exit".to_string())];
    assert_eq!(
        admit_imports(&declared, Some("truncated".into())),
        Err(WasiRefusal::MalformedArtifact("truncated".into()))
    );
    assert_eq!(admit_imports(&declared, None).unwrap()[0].service, CanonicalService::Lifecycle);
}

fn profile(capabilities: &[&str]) -> WasiProfile {
    WasiProfile {
        preopens: vec![(
            "data".into(),
            PreopenRef::Table { table: "files".into(), key: "root".into() },
        )],
        capabilities: capabilities.iter().map(|c| c.to_string()).collect(),
        wall_clock_ticks: 1,
        monotonic_ticks: 2,
        entropy_seed: [7; 32],
        socket_endpoints: vec!["tcp://127.0.0.1:9".into()],
    }
}

#[test]
fn capsule_requires_exact_capabilities() {
    let closed = WasiCapsule::new(profile(&[]));
    assert_eq!(
        closed.preopen("data"),
        Err(WasiRefusal::CapabilityDenied { capability: "storage/preopen" })
    );
    assert_eq!(
        closed.connect("tcp://127.0.0.1:9"),
        Err(WasiRefusal::CapabilityDenied { capability: "transport/socket" })
    );
    let open = WasiCapsule::new(profile(&["storage/preopen", "transport/socket"]));
    assert_eq!(
        open.preopen("data"),
        Ok(&PreopenRef::Table { table: "files".into(), key: "root".into() })
    );
    assert_eq!(open.preopen("home"), Err(WasiRefusal::UnknownPreopen { name: "home".into() }));
    assert_eq!(open.connect("tcp://127.0.0.1:9"), Ok(()));
    assert_eq!(
        open.connect("tcp://10.0.0.1:9"),
        Err(WasiRefusal::UnknownSocket { endpoint: "tcp://10.0.0.1:9".into() })
    );
    assert_eq!(open.require(CanonicalService::Entropy), Err(WasiRefusal::CapabilityDenied { capability: "platform/entropy" }));
    assert_eq!(
        open.unsupported("ui/window"),
        WasiRefusal::UnsupportedService { service: "ui/window".into() }
    );
    let mut bytes = b"{}".to_vec();
    bytes.extend_from_slice(b"req");
    assert_eq!(open.model_digest(b"{}", b"req"), stable_digest(&bytes));
}

#[test]
fn card_offers_exactly_the_canonical_services() {
    let card = platform_card(&profile(&[]), b"{}");
    assert_eq!(card.site.0, "platform/site/wasi");
    let services: Vec<&str> = card.services.iter().map(|o| o.service.0.as_str()).collect();
    assert_eq!(
        services,
        [
            "storage/table-dir",
            "platform/wall-clock",
            "platform/monotonic",
            "platform/entropy",
            "transport/socket",
            "platform/lifecycle"
        ]
    );
    assert_eq!(card.services[3].port, FactPort::Entropy);
    assert_eq!(card.services[5].port, FactPort::LifecyclePressure);
    assert!(card.services.iter().all(|o| o.evidence == EvidenceLevel::Modeled));
    assert_eq!(card.provenance.content_digest, stable_digest(b"{}"));
    assert_eq!(allowed_imports().len(), 6);
}
