use sim_platform::manifest::{
    require_nonempty, require_schema, validate_bundle, validate_capsules, BundleManifest,
    CapsuleManifest, PackageRole, ValidationContext, ValidationError, BUNDLE_SCHEMA,
    CAPSULE_SCHEMA,
};

fn capsule() -> CapsuleManifest {
    CapsuleManifest {
        schema: "sim.platform-capsule/v1".into(),
        provider: "platform/site/fictional".into(),
        services: vec!["service/fictional-clock".into()],
        shells: vec!["shell/fictional".into()],
        loader_kinds: vec!["loader/static-v1".into()],
    }
}

fn bundle() -> BundleManifest {
    BundleManifest {
        schema: "sim.platform-bundle/v1".into(),
        capsule: "platform/site/fictional".into(),
        artifact: "lib/sim-platform-fictional".into(),
        loader: "loader/static-v1".into(),
        artifact_content: "sha256:fictional".into(),
        entry: "sim_native_abi_v1".into(),
        shell: Some("shell/fictional".into()),
    }
}

fn context<'a>() -> ValidationContext<'a> {
    ValidationContext {
        owner_repository: "sim-platform",
        declaring_repository: "sim-platform",
        bootstrap_packages: &["sim-platform-bootstrap"],
        product_closure_roles: &[PackageRole::SimPure, PackageRole::PlatformBootstrap],
    }
}

#[test]
fn fictional_records_parse_and_validate() {
    let capsule = capsule();
    validate_capsules(&context(), std::slice::from_ref(&capsule)).unwrap();
    validate_bundle(&bundle(), &capsule).unwrap();
}

#[test]
fn absent_role_is_pure_and_all_roles_are_closed() {
    assert_eq!(PackageRole::parse(None), Ok(PackageRole::SimPure));
    for (name, role) in [
        ("sim-pure", PackageRole::SimPure),
        ("platform-bootstrap", PackageRole::PlatformBootstrap),
        ("platform-capsule", PackageRole::PlatformCapsule),
        ("host-tool", PackageRole::HostTool),
    ] {
        assert_eq!(PackageRole::parse(Some(name)), Ok(role));
    }
    assert!(matches!(
        PackageRole::parse(Some("magic")),
        Err(ValidationError::UnknownRole(_))
    ));
}

#[test]
fn rejects_capsule_outside_owner() {
    let mut ctx = context();
    ctx.declaring_repository = "sim-runtime";
    assert_eq!(
        validate_capsules(&ctx, &[capsule()]),
        Err(ValidationError::CapsuleOutsideOwner)
    );
}

#[test]
fn rejects_duplicate_provider_ids() {
    let capsule = capsule();
    assert!(matches!(
        validate_capsules(&context(), &[capsule.clone(), capsule]),
        Err(ValidationError::DuplicateProvider(_))
    ));
}

#[test]
fn rejects_undeclared_shell() {
    let capsule = capsule();
    let mut bundle = bundle();
    bundle.shell = Some("shell/other".into());
    assert!(matches!(
        validate_bundle(&bundle, &capsule),
        Err(ValidationError::UndeclaredShell(_))
    ));
}

#[test]
fn rejects_noncanonical_bootstrap_and_host_tool_closure() {
    let capsule = capsule();
    let mut ctx = context();
    ctx.bootstrap_packages = &["other-bootstrap"];
    assert!(matches!(
        validate_capsules(&ctx, std::slice::from_ref(&capsule)),
        Err(ValidationError::NonCanonicalBootstrap(_))
    ));
    let mut ctx = context();
    ctx.product_closure_roles = &[PackageRole::HostTool];
    assert_eq!(
        validate_capsules(&ctx, &[capsule]),
        Err(ValidationError::HostToolInProductClosure)
    );
}

#[test]
fn bundle_refuses_wrong_entry_loader_and_empty_fields() {
    let capsule = capsule();
    let mut wrong_entry = bundle();
    wrong_entry.entry = "main".into();
    assert_eq!(
        validate_bundle(&wrong_entry, &capsule),
        Err(ValidationError::WrongEntry("main".into()))
    );
    let mut wrong_loader = bundle();
    wrong_loader.loader = "loader/wasm-v1".into();
    assert_eq!(
        validate_bundle(&wrong_loader, &capsule),
        Err(ValidationError::UnsupportedLoader("loader/wasm-v1".into()))
    );
    assert_eq!(require_nonempty("  ", "artifact"), Err(ValidationError::EmptyField("artifact")));
    assert_eq!(require_nonempty("x", "artifact"), Ok(()));
    assert_eq!(require_schema(CAPSULE_SCHEMA, CAPSULE_SCHEMA), Ok(()));
    assert_eq!(
        require_schema("other", BUNDLE_SCHEMA),
        Err(ValidationError::WrongSchema { expected: BUNDLE_SCHEMA, found: "other".into() })
    );
}
