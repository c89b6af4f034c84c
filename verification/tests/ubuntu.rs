use sim_platform::digest::stable_digest;
use sim_platform::manifest::{
    validate_bundle, BundleManifest, CapsuleManifest, UbuntuArchitecture, UbuntuProfile,
    UbuntuProfileKind,
};
use sim_platform::records::{EvidenceLevel, FactPort};
use sim_platform::ubuntu_pc::{
    register, PhysicalAttestation, UBUNTU_BUNDLE_MANIFEST, UBUNTU_CAPSULE_MANIFEST,
};

fn attestation() -> PhysicalAttestation {
    PhysicalAttestation {
        schema: "sim.platform-physical-attestation/v1".into(),
        provider: "ubuntu-pc".into(),
        registered_capability: "linux-x86_64".into(),
        source_content: "fnv1a64:41fdd80c770ae9f2".into(),
        artifact_content: "fnv1a64:018c6b634aafe833".into(),
        card_content: "fnv1a64:4be8e55bd66dd4d9".into(),
        result_content: "fnv1a64:6fc0b36648cf320d".into(),
        source: "ubuntu-25.10|x86_64|registered-control-local".into(),
        artifact: "sim-platform-ubuntu-pc|workspace-test-artifact".into(),
        card: "ubuntu-pc|x86_64|desktop+headless".into(),
        result: "clock+entropy+mount+headless-unsupported+cleanup|pass".into(),
        checks: vec![
            "clock".into(),
            "entropy".into(),
            "mount".into(),
            "cleanup".into(),
        ],
    }
}

#[test]
fn committed_physical_attestation_is_sanitized_and_offline_verifiable() {
    let value = attestation();
    value.validate().unwrap();
}

#[test]
fn attestation_refusals_come_in_order() {
    let mut wrong = attestation();
    wrong.provider = "ubuntu-rpi".into();
    assert_eq!(wrong.validate(), Err("wrong attestation identity"));
    let mut tampered = attestation();
    tampered.result = "clock|pass".into();
    assert_eq!(tampered.validate(), Err("content identity mismatch"));
    let mut leaking = attestation();
    leaking.checks.push("user@host".into());
    assert_eq!(leaking.validate(), Err("unsanitized or incomplete evidence"));
    let mut short = attestation();
    short.checks.truncate(3);
    assert_eq!(short.validate(), Err("unsanitized or incomplete evidence"));
    let mut path = attestation();
    path.checks[0] = "/home/clock".into();
    assert_eq!(path.validate(), Err("unsanitized or incomplete evidence"));
}

#[test]
fn stable_digest_matches_committed_identities() {
    assert_eq!(
        stable_digest(b"ubuntu-25.10|x86_64|registered-control-local"),
        "fnv1a64:41fdd80c770ae9f2"
    );
    assert_eq!(stable_digest(b""), "fnv1a64:cbf29ce484222325");
}

#[test]
fn desktop_cards_add_desktop_services_and_bind_the_profile_digest() {
    let desktop = UbuntuProfile {
        architecture: UbuntuArchitecture::X86_64,
        kind: UbuntuProfileKind::Desktop,
    };
    let json = br#"{"architecture":"x86-64","kind":"desktop"}"#;
    let registered = register(desktop, json);
    assert_eq!(registered.profile, desktop);
    let card = &registered.card;
    assert_eq!(card.site.0, "platform/site/ubuntu-pc-desktop");
    assert_eq!(card.provenance.contract.0, "contract/ubuntu-pc-v1");
    assert_eq!(card.provenance.content_digest, stable_digest(json));
    assert_eq!(card.services.len(), 20);
    assert_eq!(card.services[0].service.0, "platform/wall-clock");
    assert_eq!(card.services[0].port, FactPort::WallClock);
    assert_eq!(card.services[8].service.0, "platform/mount/xdg-config");
    assert_eq!(card.services[19].service.0, "platform/activation");
    assert_eq!(card.services[19].port, FactPort::LifecyclePressure);
    assert!(card
        .services
        .iter()
        .all(|offer| offer.evidence == EvidenceLevel::Attested));
    let headless = register(
        UbuntuProfile {
            architecture: UbuntuArchitecture::Aarch64,
            kind: UbuntuProfileKind::Headless,
        },
        json,
    );
    assert_eq!(headless.card.site.0, "platform/site/ubuntu-pc-headless");
    assert_eq!(headless.card.services.len(), 13);
}

fn table(text: &str) -> toml::Table {
    text.parse::<toml::Table>().unwrap()
}

fn text(t: &toml::Table, key: &str) -> String {
    t[key].as_str().unwrap().to_owned()
}

fn list(t: &toml::Table, key: &str) -> Vec<String> {
    t[key]
        .as_array()
        .unwrap()
        .iter()
        .map(|v| v.as_str().unwrap().to_owned())
        .collect()
}

#[test]
fn curated_ubuntu_rows_admit_their_capsule() {
    let b = table(UBUNTU_BUNDLE_MANIFEST);
    let c = table(UBUNTU_CAPSULE_MANIFEST);
    let bundle = BundleManifest {
        schema: text(&b, "schema"),
        capsule: text(&b, "capsule"),
        artifact: text(&b, "artifact"),
        loader: text(&b, "loader"),
        artifact_content: text(&b, "artifact_content"),
        entry: text(&b, "entry"),
        shell: None,
    };
    let capsule = CapsuleManifest {
        schema: text(&c, "schema"),
        provider: text(&c, "provider"),
        services: list(&c, "services"),
        shells: list(&c, "shells"),
        loader_kinds: list(&c, "loader_kinds"),
    };
    validate_bundle(&bundle, &capsule).unwrap();
    assert_eq!(bundle.capsule, capsule.provider);
}
