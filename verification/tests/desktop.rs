use sim_platform::digest::{sha256_identity, stable_digest};
use sim_platform::macos::{
    self, build_unsigned_bundle, CapsuleInput, MacArchitecture, MacosCapsule, Permission,
    PermissionStatus, PromptPolicy,
};
use sim_platform::windows::{
    self, build_unsigned_package, generated_service_set, NativeRequest, PathError, WindowsCapsule,
    WindowsPath, WindowsProfile,
};

fn units(text: &str) -> Vec<u16> {
    text.encode_utf16().collect()
}

#[test]
fn windows_paths_keep_identity_and_refuse_escapes() {
    let path = WindowsPath::from_table_units(&units("docs/a.txt")).unwrap();
    assert_eq!(path.api_units(), units("docs\\a.txt").as_slice());
    let bytes: Vec<u8> = units("docs/a.txt").iter().flat_map(|u| u.to_le_bytes()).collect();
    assert_eq!(path.identity(), stable_digest(&bytes));
    assert_eq!(WindowsPath::from_table_units(&[]), Err(PathError::Empty));
    assert_eq!(WindowsPath::from_table_units(&units("/x")), Err(PathError::Absolute));
    assert_eq!(WindowsPath::from_table_units(&units("\\x")), Err(PathError::Absolute));
    assert_eq!(WindowsPath::from_table_units(&units("C:x")), Err(PathError::Absolute));
    assert_eq!(WindowsPath::from_table_units(&[97, 0, 98]), Err(PathError::InvalidSeparator));
    assert_eq!(WindowsPath::from_table_units(&units("a/../b")), Err(PathError::Traversal));
    assert_eq!(WindowsPath::from_table_units(&units("..")), Err(PathError::Traversal));
    assert!(WindowsPath::from_table_units(&units("a/..b/...")).is_ok());
}

#[derive(Default)]
struct Recorder {
    dispatched: Vec<NativeRequest>,
    cancelled: usize,
    cleaned: usize,
    fail: bool,
}

impl windows::NativeServices for Recorder {
    fn calls(&self) -> vstd::seq::Seq<windows::NativeCall> {
        unreachable!("a specification, never run")
    }
    fn dispatch(&mut self, request: NativeRequest) -> Result<(), &'static str> {
        self.dispatched.push(request);
        if self.fail {
            Err("native failure")
        } else {
            Ok(())
        }
    }
    fn cancel_process_tree(&mut self) {
        self.cancelled += 1;
    }
    fn cleanup(&mut self) {
        self.cleaned += 1;
    }
}

fn profile(grants: &[&str]) -> WindowsProfile {
    WindowsProfile {
        preopened_dirs: vec![("docs".into(), units("C:\\docs"))],
        grants: grants.iter().map(|g| g.to_string()).collect(),
        max_processes: 4,
        max_output_bytes: 1024,
    }
}

#[test]
fn windows_capsule_gates_every_request() {
    assert!(matches!(
        WindowsCapsule::new(Recorder::default(), WindowsProfile { max_processes: 0, ..profile(&[]) }),
        Err(windows::CapsuleError::InvalidBudget)
    ));
    assert!(matches!(
        WindowsCapsule::new(
            Recorder::default(),
            WindowsProfile { max_output_bytes: 16 * 1024 * 1024 + 1, ..profile(&[]) }
        ),
        Err(windows::CapsuleError::InvalidBudget)
    ));
    let Ok(mut capsule) = WindowsCapsule::new(Recorder::default(), profile(&["platform/activation"])) else {
        panic!("bounded profile")
    };
    assert_eq!(
        capsule.request("clipboard", NativeRequest::Clipboard),
        Err(windows::CapsuleError::MissingCapability("platform/clipboard".into()))
    );
    assert_eq!(capsule.activate(), Ok(()));
    assert_eq!(capsule.lifecycle(), windows::Lifecycle::Active);
    assert!(matches!(
        capsule.resolve_preopen("music", &units("a")),
        Err(windows::CapsuleError::UnknownPreopen(name)) if name == "music"
    ));
    assert_eq!(
        capsule.resolve_preopen("docs", &units("..")),
        Err(windows::CapsuleError::Native("invalid table path"))
    );
    assert!(capsule.resolve_preopen("docs", &units("a/b")).is_ok());
    assert_eq!(capsule.suspend(), Ok(()));
    assert_eq!(
        capsule.request("activation", NativeRequest::Activate),
        Err(windows::CapsuleError::Suspended)
    );
    assert_eq!(capsule.cancel_process_tree(), Err(windows::CapsuleError::Suspended));
    assert_eq!(capsule.resume(), Ok(()));
    assert_eq!(capsule.lifecycle(), windows::Lifecycle::Ready);
    assert_eq!(capsule.cancel_process_tree(), Ok(()));
    capsule.stop();
    capsule.stop();
    assert_eq!(capsule.lifecycle(), windows::Lifecycle::Stopped);
    assert_eq!(capsule.resume(), Err(windows::CapsuleError::Stopped));
    assert_eq!(capsule.activate(), Err(windows::CapsuleError::Stopped));
}

#[test]
fn windows_native_failure_is_sanitized() {
    let native = Recorder { fail: true, ..Recorder::default() };
    let Ok(mut capsule) = WindowsCapsule::new(native, profile(&["platform/activation"])) else {
        panic!("bounded profile")
    };
    assert_eq!(capsule.activate(), Err(windows::CapsuleError::Native("native failure")));
    assert_eq!(capsule.lifecycle(), windows::Lifecycle::Ready);
}

#[test]
fn windows_card_and_package_are_deterministic() {
    let card = windows::platform_card();
    assert_eq!(card.site.0, "platform/site/windows");
    assert_eq!(card.services.len(), 13);
    assert_eq!(card.services[0].service.0, "platform/filesystem");
    assert_eq!(card.provenance.content_digest, stable_digest(generated_service_set().as_bytes()));
    assert!(generated_service_set().starts_with("filesystem,process,loader"));
    let package = build_unsigned_package(b"rind".to_vec(), b"capsule".to_vec(), b"<Package/>".to_vec());
    let paths: Vec<&str> = package.files.iter().map(|f| f.path.as_str()).collect();
    let mut sorted = paths.clone();
    sorted.sort();
    assert_eq!(paths, sorted);
    assert_eq!(paths[0], "AppxManifest.xml");
    assert_eq!(package.target, windows::TARGET);
    let descriptor = String::from_utf8(package.files[3].bytes.clone()).unwrap();
    assert!(descriptor.contains(&format!("artifact_content = \"{}\"", stable_digest(b"capsule"))));
    let card_text = String::from_utf8(package.files[4].bytes.clone()).unwrap();
    assert!(card_text.contains("services = [\"platform/filesystem\", \"platform/process\""));
    let source: Vec<u8> = package.files.iter().flat_map(|f| f.content_digest.bytes()).collect();
    assert_eq!(package.identity, stable_digest(&source));
    assert_eq!(package, build_unsigned_package(b"rind".to_vec(), b"capsule".to_vec(), b"<Package/>".to_vec()));
}

#[derive(Default)]
struct MacNative {
    prompts: usize,
    cleaned: usize,
}

impl macos::NativeServices for MacNative {
    fn calls(&self) -> vstd::seq::Seq<macos::NativeCall> {
        unreachable!("a specification, never run")
    }
    fn permission_status(&mut self, _permission: Permission) -> PermissionStatus {
        PermissionStatus::Undetermined
    }
    fn request_permission(&mut self, _permission: Permission) -> PermissionStatus {
        self.prompts += 1;
        PermissionStatus::Granted
    }
    fn activate(&mut self) -> Result<(), &'static str> {
        Ok(())
    }
    fn cleanup(&mut self) {
        self.cleaned += 1;
    }
}

#[test]
fn macos_prompts_only_with_the_matching_grant() {
    let mut capsule = MacosCapsule::new(
        MacNative::default(),
        vec!["platform/permission-request/camera".into()],
    );
    assert_eq!(capsule.permission_status(Permission::Camera), Ok(PermissionStatus::Undetermined));
    assert_eq!(
        capsule.request_permission(Permission::Microphone),
        Err(macos::CapsuleError::MissingCapability(
            "platform/permission-request/microphone".into()
        ))
    );
    assert_eq!(capsule.request_permission(Permission::Camera), Ok(PermissionStatus::Granted));
    assert_eq!(capsule.activate(), Ok(()));
    assert_eq!(capsule.lifecycle(), macos::Lifecycle::Active);
    assert_eq!(capsule.suspend(), Ok(()));
    assert_eq!(
        capsule.request_permission(Permission::Camera),
        Err(macos::CapsuleError::Suspended)
    );
    assert_eq!(capsule.resume(), Ok(()));
    capsule.stop();
    assert_eq!(capsule.permission_status(Permission::Camera), Err(macos::CapsuleError::Stopped));
    let prompting: Vec<&str> = macos::services()
        .iter()
        .filter(|b| b.prompt == PromptPolicy::PermissionRequestOnly)
        .map(|b| b.service)
        .collect();
    assert_eq!(prompting, ["permission-request"]);
}

#[test]
fn macos_bundle_is_canonical() {
    let input = CapsuleInput {
        architecture: MacArchitecture::Aarch64,
        rind: b"rind".to_vec(),
        capsule: b"dylib".to_vec(),
        resources: vec![
            ("z.png".into(), b"z".to_vec()),
            ("a.json".into(), b"a".to_vec()),
        ],
    };
    let bundle = build_unsigned_bundle(input.clone(), b"plist".to_vec(), b"ent".to_vec());
    assert_eq!(bundle.target, "aarch64-apple-darwin");
    let paths: Vec<&str> = bundle.files.iter().map(|f| f.path.as_str()).collect();
    assert_eq!(
        paths,
        [
            "Contents/Info.plist",
            "Contents/MacOS/sim",
            "Contents/Resources/a.json",
            "Contents/Resources/sim-platform-macos-aarch64-apple-darwin.dylib",
            "Contents/Resources/sim.entitlements",
            "Contents/Resources/sim.platform-bundle.toml",
            "Contents/Resources/sim.platform-capsule.toml",
            "Contents/Resources/z.png",
        ]
    );
    assert_eq!(bundle.files[2].content_digest, sha256_identity(b"a"));
    let mut source = Vec::new();
    for f in &bundle.files {
        source.extend_from_slice(f.path.as_bytes());
        source.extend_from_slice(f.content_digest.as_bytes());
    }
    assert_eq!(bundle.identity, sha256_identity(&source));
    assert_eq!(bundle, build_unsigned_bundle(input, b"plist".to_vec(), b"ent".to_vec()));
    let card = macos::platform_card(MacArchitecture::X86_64);
    assert_eq!(card.services.len(), 15);
    assert_eq!(card.provenance.content_digest, stable_digest(b"x86_64-apple-darwin"));
}

#[test]
fn sha256_identity_is_lowercase_hex() {
    assert_eq!(
        sha256_identity(b""),
        "sha256:e3b0c44298fc1c149afbf4c8996fb92427ae41e4649b934ca495991b7852b855"
    );
}

#[test]
fn macos_bundle_ignores_resource_order() {
    let forward = CapsuleInput {
        architecture: MacArchitecture::X86_64,
        rind: b"rind".to_vec(),
        capsule: b"dylib".to_vec(),
        resources: vec![
            ("a.json".into(), b"a".to_vec()),
            ("m.txt".into(), b"m".to_vec()),
            ("z.png".into(), b"z".to_vec()),
        ],
    };
    let mut backward = forward.clone();
    backward.resources.reverse();
    assert_eq!(
        build_unsigned_bundle(forward, b"plist".to_vec(), b"ent".to_vec()),
        build_unsigned_bundle(backward, b"plist".to_vec(), b"ent".to_vec())
    );
}
