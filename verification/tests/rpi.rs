use sim_platform::ubuntu_rpi::{
    hostile_model_profile, raspberry_pi_5_profile, register, Binding, BuildEvidence, PiRefusal,
    PiService, TargetAttestation, UbuntuRpiProfile,
};
use std::collections::BTreeSet;

#[test]
fn hostile_profile_observed_services_exactly_equal_card() {
    let profile = hostile_model_profile();
    let observed = PiService::ALL
        .into_iter()
        .filter(|service| profile.require(*service).is_ok())
        .map(|service| service.symbol())
        .collect::<BTreeSet<_>>();
    let registered = register(profile.clone(), b"{}");
    let card = registered
        .card
        .services
        .iter()
        .map(|offer| offer.service.0.as_str())
        .collect::<BTreeSet<_>>();
    assert_eq!(observed, card);
    assert_eq!(
        profile.require(PiService::Gpio),
        Ok(&Binding::Api("model/gpio-v1".into()))
    );
    for absent in PiService::ALL
        .into_iter()
        .filter(|service| *service != PiService::Gpio)
    {
        assert_eq!(
            profile.require(absent),
            Err(PiRefusal::Unsupported { service: absent })
        );
    }
}

#[test]
fn ubuntu_derivation_does_not_inherit_linux_services() {
    let profile = UbuntuRpiProfile::from_ubuntu_headless("c03115");
    assert!(profile.bindings.is_empty());
    assert!(profile.permissions.is_empty());
    assert_eq!(register(profile, b"{}").card.services, Vec::new());
}

#[test]
fn evidence_cannot_claim_unregistered_physical_testing() {
    let cross = TargetAttestation {
        targets: vec!["aarch64-unknown-linux-gnu".into()],
        evidence: BuildEvidence::CrossBuilt,
        registered_host: None,
    };
    assert_eq!(cross.targets, ["aarch64-unknown-linux-gnu"]);
    assert_eq!(cross.evidence, BuildEvidence::CrossBuilt);
    assert_eq!(cross.registered_host, None);
    assert_eq!(cross.validate(), Ok(()));
    let false_physical = TargetAttestation {
        evidence: BuildEvidence::Physical,
        ..cross.clone()
    };
    assert!(false_physical.validate().is_err());
    let registered_physical = TargetAttestation {
        evidence: BuildEvidence::Physical,
        registered_host: Some("bench-1".into()),
        ..cross
    };
    assert_eq!(registered_physical.validate(), Ok(()));
    let empty = TargetAttestation {
        targets: Vec::new(),
        evidence: BuildEvidence::CrossBuilt,
        registered_host: None,
    };
    assert_eq!(empty.validate(), Err("no declared target was built"));
}

#[test]
fn pi5_profile_binds_every_service_with_its_permission() {
    let profile = raspberry_pi_5_profile();
    assert_eq!(profile.board_revision, "d04170");
    assert_eq!(
        profile.require(PiService::Gpio),
        Ok(&Binding::DevicePath("/dev/gpiochip4".into()))
    );
    assert_eq!(
        profile.require(PiService::Compute),
        Ok(&Binding::Api("linux/aarch64-cpu-v1".into()))
    );
    let compute = profile.permissions.get(PiService::Compute).unwrap();
    assert_eq!(compute.group, "sim");
    assert!(compute.read && !compute.write);
    let registered = register(profile, b"{}");
    let symbols: Vec<&str> = registered
        .card
        .services
        .iter()
        .map(|offer| offer.service.0.as_str())
        .collect();
    assert_eq!(
        symbols,
        PiService::ALL.iter().map(|s| s.symbol()).collect::<Vec<_>>()
    );
}

#[test]
fn missing_permission_refuses_a_bound_service() {
    let mut profile = UbuntuRpiProfile::from_ubuntu_headless("c03115");
    profile
        .bindings
        .insert(PiService::Spi, Binding::DevicePath("/dev/spidev0.0".into()));
    assert_eq!(
        profile.require(PiService::Spi),
        Err(PiRefusal::PermissionProfileMissing { service: PiService::Spi })
    );
    assert_eq!(
        profile
            .bindings
            .insert(PiService::Spi, Binding::Api("spi/v2".into())),
        Some(Binding::DevicePath("/dev/spidev0.0".into()))
    );
}
