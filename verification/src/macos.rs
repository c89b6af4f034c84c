//! macOS capsule: the authored service-to-framework map, a capability-gated
//! native membrane, the platform card and the canonical unsigned bundle.
use vstd::prelude::*;
use vstd::utf8::encode_utf8;
use crate::digest::{spec_sha256_identity, spec_stable_digest, sha256_identity, stable_digest};
use crate::package::{append_bytes, bundle_descriptor, bundle_descriptor_text, capsule_card, capsule_card_text, concat};
use crate::records::{card, CardView, EvidenceLevel, FactPort, PlatformCard};
use crate::text::{lemma_text_order, str_lt, text_lt};
use crate::windows::{offers_for, platform_offers};

verus! {

pub const NATIVE_ABI_ENTRY: &'static str = "sim_native_abi_v1";
pub const CAPSULE_CARD_NAME: &'static str = "sim.platform-capsule.toml";
pub const BUNDLE_DESCRIPTOR_NAME: &'static str = "sim.platform-bundle.toml";
pub const SHELL: &'static str = "shell/macos-app";

// ---------------------------------------------------------------- manifest

/// Prompt behavior of a native API binding.
#[derive(Clone, Copy, Debug, PartialEq, Eq, Structural)]
pub enum PromptPolicy {
    /// The binding is incapable of displaying a permission prompt.
    Never,
    /// The binding may prompt only through `platform/permission-request`.
    PermissionRequestOnly,
}

/// One frozen portable service realized by private macOS mechanics.
#[derive(Clone, Copy, Debug, PartialEq, Eq)]
pub struct ServiceBinding {
    pub service: &'static str,
    pub framework: &'static str,
    pub api: &'static str,
    pub prompt: PromptPolicy,
}

/// The portable service names of the macOS manifest, in order.
pub open spec fn spec_service_names() -> Seq<Seq<char>> {
    seq![
        "filesystem"@,
        "process"@,
        "loader"@,
        "socket"@,
        "lifecycle"@,
        "activation"@,
        "clipboard"@,
        "notification"@,
        "permission-status"@,
        "permission-request"@,
        "audio"@,
        "midi"@,
        "compute"@,
        "open"@,
        "share"@,
    ]
}

/// Position of `platform/permission-request` in the manifest.
pub const PERMISSION_REQUEST_INDEX: usize = 9;

/// Complete macOS service manifest. Framework names are implementation facts,
/// never portable dispatch identities; only the permission-request binding
/// may prompt.
pub fn services() -> (r: Vec<ServiceBinding>)
    ensures
        r@.map_values(|b: ServiceBinding| b.service@) == spec_service_names(),
        forall|i: int|
            0 <= i < r@.len() ==> (#[trigger] r@[i].prompt == PromptPolicy::PermissionRequestOnly
                <==> i == PERMISSION_REQUEST_INDEX),
{
    let r = vec![
        ServiceBinding {
            service: "filesystem",
            framework: "Foundation",
            api: "NSFileCoordinator, file descriptors",
            prompt: PromptPolicy::Never,
        },
        ServiceBinding {
            service: "process",
            framework: "Foundation",
            api: "NSTask, posix_spawn",
            prompt: PromptPolicy::Never,
        },
        ServiceBinding {
            service: "loader",
            framework: "Darwin",
            api: "dlopen/dlsym",
            prompt: PromptPolicy::Never,
        },
        ServiceBinding {
            service: "socket",
            framework: "Network",
            api: "Network.framework, BSD sockets",
            prompt: PromptPolicy::Never,
        },
        ServiceBinding {
            service: "lifecycle",
            framework: "AppKit",
            api: "NSApplicationDelegate",
            prompt: PromptPolicy::Never,
        },
        ServiceBinding {
            service: "activation",
            framework: "AppKit",
            api: "NSRunningApplication.activate",
            prompt: PromptPolicy::Never,
        },
        ServiceBinding {
            service: "clipboard",
            framework: "AppKit",
            api: "NSPasteboard",
            prompt: PromptPolicy::Never,
        },
        ServiceBinding {
            service: "notification",
            framework: "UserNotifications",
            api: "UNUserNotificationCenter",
            prompt: PromptPolicy::Never,
        },
        ServiceBinding {
            service: "permission-status",
            framework: "AVFoundation/CoreGraphics",
            api: "authorizationStatus/preflightAccess",
            prompt: PromptPolicy::Never,
        },
        ServiceBinding {
            service: "permission-request",
            framework: "AVFoundation/CoreGraphics",
            api: "requestAccess/requestScreenCaptureAccess",
            prompt: PromptPolicy::PermissionRequestOnly,
        },
        ServiceBinding {
            service: "audio",
            framework: "CoreAudio",
            api: "AudioObject/AudioUnit",
            prompt: PromptPolicy::Never,
        },
        ServiceBinding {
            service: "midi",
            framework: "CoreMIDI",
            api: "MIDIClient/MIDIPort",
            prompt: PromptPolicy::Never,
        },
        ServiceBinding {
            service: "compute",
            framework: "Metal",
            api: "MTLCreateSystemDefaultDevice",
            prompt: PromptPolicy::Never,
        },
        ServiceBinding {
            service: "open",
            framework: "AppKit",
            api: "NSWorkspace.open",
            prompt: PromptPolicy::Never,
        },
        ServiceBinding {
            service: "share",
            framework: "AppKit",
            api: "NSSharingService",
            prompt: PromptPolicy::Never,
        },
    ];
    assert(r@.map_values(|b: ServiceBinding| b.service@) =~= spec_service_names());
    r
}

fn service_names() -> (r: Vec<&'static str>)
    ensures
        r@.map_values(|s: &str| s@) == spec_service_names(),
{
    let bindings = services();
    let mut names: Vec<&'static str> = Vec::new();
    for i in 0..bindings.len()
        invariant
            bindings@.map_values(|b: ServiceBinding| b.service@) == spec_service_names(),
            names@.len() == i,
            forall|j: int| 0 <= j < i ==> #[trigger] names@[j]@ == spec_service_names()[j],
    {
        assert(bindings@.map_values(|b: ServiceBinding| b.service@)[i as int]
            == bindings@[i as int].service@);
        names.push(bindings[i].service);
    }
    assert(names@.map_values(|s: &str| s@) =~= spec_service_names());
    names
}

// ---------------------------------------------------------------- architecture, permissions

#[derive(Clone, Copy, Debug, PartialEq, Eq, PartialOrd, Ord, Structural)]
pub enum MacArchitecture {
    X86_64,
    Aarch64,
}

/// The target triple of an architecture.
pub open spec fn spec_target(a: MacArchitecture) -> Seq<char> {
    match a {
        MacArchitecture::X86_64 => "x86_64-apple-darwin"@,
        MacArchitecture::Aarch64 => "aarch64-apple-darwin"@,
    }
}

impl MacArchitecture {
    pub fn target(self) -> (r: &'static str)
        ensures
            r@ == spec_target(self),
    {
        match self {
            MacArchitecture::X86_64 => "x86_64-apple-darwin",
            MacArchitecture::Aarch64 => "aarch64-apple-darwin",
        }
    }
}

#[derive(Clone, Copy, Debug, PartialEq, Eq, Structural)]
pub enum Permission {
    Camera,
    Microphone,
    ScreenRecording,
    Accessibility,
}

/// The capability name of a permission.
pub open spec fn spec_capability(p: Permission) -> Seq<char> {
    match p {
        Permission::Camera => "camera"@,
        Permission::Microphone => "microphone"@,
        Permission::ScreenRecording => "screen-recording"@,
        Permission::Accessibility => "accessibility"@,
    }
}

impl Permission {
    pub fn capability(self) -> (r: &'static str)
        ensures
            r@ == spec_capability(self),
    {
        match self {
            Permission::Camera => "camera",
            Permission::Microphone => "microphone",
            Permission::ScreenRecording => "screen-recording",
            Permission::Accessibility => "accessibility",
        }
    }
}

#[derive(Clone, Copy, Debug, PartialEq, Eq, Structural)]
pub enum PermissionStatus {
    Granted,
    Denied,
    Undetermined,
    Restricted,
}

#[derive(Clone, Copy, Debug, PartialEq, Eq, Structural)]
pub enum Lifecycle {
    Ready,
    Active,
    Suspended,
    Stopped,
}

/// One call into the native services: what it was given and what it answered.
pub enum NativeCall {
    Status(Permission, PermissionStatus),
    Prompt(Permission, PermissionStatus),
    Activate(Result<(), &'static str>),
    Cleanup,
}

/// Private AppKit, AVFoundation and CoreGraphics mechanics, supplied by the host.
pub trait NativeServices {
    /// The calls made into these services so far, in order, with their answers.
    spec fn calls(&self) -> Seq<NativeCall>;

    /// Reads the authorization of `permission` without prompting.
    fn permission_status(&mut self, permission: Permission) -> (r: PermissionStatus)
        ensures
            final(self).calls() == old(self).calls().push(NativeCall::Status(permission, r)),
    ;

    /// Prompts for `permission`.
    fn request_permission(&mut self, permission: Permission) -> (r: PermissionStatus)
        ensures
            final(self).calls() == old(self).calls().push(NativeCall::Prompt(permission, r)),
    ;

    /// Activate the application surface; a failure is a sanitized message and
    /// never a framework handle.
    fn activate(&mut self) -> (r: Result<(), &'static str>)
        ensures
            final(self).calls() == old(self).calls().push(NativeCall::Activate(r)),
    ;

    /// Releases native resources.
    fn cleanup(&mut self)
        ensures
            final(self).calls() == old(self).calls().push(NativeCall::Cleanup),
    ;
}

/// What the native side answered, as a result of the capsule carries it.
pub open spec fn native_answer(r: Result<(), CapsuleError>) -> Result<(), &'static str> {
    match r {
        Err(CapsuleError::Native(m)) => Err(m),
        _ => Ok(()),
    }
}

#[derive(Clone, Debug, PartialEq, Eq)]
pub enum CapsuleError {
    MissingCapability(String),
    Suspended,
    Stopped,
    Native(&'static str),
}

/// The refusal, if any, that the lifecycle gives before any native work.
pub open spec fn lifecycle_refusal(lifecycle: Lifecycle) -> Option<CapsuleError> {
    match lifecycle {
        Lifecycle::Suspended => Some(CapsuleError::Suspended),
        Lifecycle::Stopped => Some(CapsuleError::Stopped),
        _ => None,
    }
}

/// The grant a permission prompt needs.
pub open spec fn prompt_capability(p: Permission) -> Seq<char> {
    "platform/permission-request/"@ + spec_capability(p)
}

/// Some grant of `grants` is exactly `capability`.
pub open spec fn granted(grants: Seq<String>, capability: Seq<char>) -> bool {
    exists|i: int| 0 <= i < grants.len() && #[trigger] grants[i]@ == capability
}

/// A capability-gated native membrane: prompts only through the permission
/// request route, and only under the matching grant.
pub struct MacosCapsule<N: NativeServices> {
    native: N,
    grants: Vec<String>,
    lifecycle: Lifecycle,
}

impl<N: NativeServices> MacosCapsule<N> {
    /// The native services.
    pub closed spec fn native_state(&self) -> N {
        self.native
    }

    /// The grants the capsule was built with.
    pub closed spec fn grant_state(&self) -> Seq<String> {
        self.grants@
    }

    /// The lifecycle.
    pub closed spec fn lifecycle_state(&self) -> Lifecycle {
        self.lifecycle
    }

    pub fn new(native: N, grants: Vec<String>) -> (r: Self)
        ensures
            r.native_state() == native,
            r.grant_state() == grants@,
            r.lifecycle_state() == Lifecycle::Ready,
    {
        MacosCapsule { native, grants, lifecycle: Lifecycle::Ready }
    }

    pub fn lifecycle(&self) -> (r: Lifecycle)
        ensures
            r == self.lifecycle_state(),
    {
        self.lifecycle
    }

    /// Observes authorization without ever entering a prompting API.
    pub fn permission_status(&mut self, permission: Permission) -> (r: Result<
        PermissionStatus,
        CapsuleError,
    >)
        ensures
            final(self).grant_state() == old(self).grant_state(),
            final(self).lifecycle_state() == old(self).lifecycle_state(),
            match lifecycle_refusal(old(self).lifecycle_state()) {
                Some(e) => r == Err::<PermissionStatus, CapsuleError>(e) && final(self).native_state()
                    == old(self).native_state(),
                None => r matches Ok(s) && final(self).native_state().calls() == old(
                    self,
                ).native_state().calls().push(NativeCall::Status(permission, s)),
            },
    {
        if let Some(e) = self.refusal() {
            return Err(e);
        }
        Ok(self.native.permission_status(permission))
    }

    /// The sole prompt route: the capability is checked before native dispatch.
    pub fn request_permission(&mut self, permission: Permission) -> (r: Result<
        PermissionStatus,
        CapsuleError,
    >)
        ensures
            final(self).grant_state() == old(self).grant_state(),
            final(self).lifecycle_state() == old(self).lifecycle_state(),
            lifecycle_refusal(old(self).lifecycle_state()) matches Some(e) ==> r == Err::<
                PermissionStatus,
                CapsuleError,
            >(e) && final(self).native_state() == old(self).native_state(),
            lifecycle_refusal(old(self).lifecycle_state()) is None && !granted(
                old(self).grant_state(),
                prompt_capability(permission),
            ) ==> (r matches Err(CapsuleError::MissingCapability(c)) && c@ == prompt_capability(
                permission,
            ) && final(self).native_state() == old(self).native_state()),
            lifecycle_refusal(old(self).lifecycle_state()) is None && granted(
                old(self).grant_state(),
                prompt_capability(permission),
            ) ==> (r matches Ok(s) && final(self).native_state().calls() == old(
                self,
            ).native_state().calls().push(NativeCall::Prompt(permission, s))),
    {
        if let Some(e) = self.refusal() {
            return Err(e);
        }
        let required = concat("platform/permission-request/", permission.capability());
        if !crate::scan::contains_str(&self.grants, required.as_str()) {
            return Err(CapsuleError::MissingCapability(required));
        }
        Ok(self.native.request_permission(permission))
    }

    /// Activate the ordinary platform site.
    pub fn activate(&mut self) -> (r: Result<(), CapsuleError>)
        ensures
            final(self).grant_state() == old(self).grant_state(),
            final(self).lifecycle_state() == if r is Ok {
                Lifecycle::Active
            } else {
                old(self).lifecycle_state()
            },
            lifecycle_refusal(old(self).lifecycle_state()) matches Some(e) ==> r == Err::<
                (),
                CapsuleError,
            >(e) && final(self).native_state() == old(self).native_state(),
            lifecycle_refusal(old(self).lifecycle_state()) is None ==> (r is Ok || r matches Err(
                CapsuleError::Native(_),
            )) && final(self).native_state().calls() == old(self).native_state().calls().push(
                NativeCall::Activate(native_answer(r)),
            ),
    {
        if let Some(e) = self.refusal() {
            return Err(e);
        }
        let answer = self.native.activate();
        match answer {
            Ok(u) => {
                assert(u == ());
                self.lifecycle = Lifecycle::Active;
                Ok(())
            },
            Err(m) => {
                let r = Err(CapsuleError::Native(m));
                assert(native_answer(r) == answer);
                r
            },
        }
    }

    /// Suspend request dispatch.
    pub fn suspend(&mut self) -> (r: Result<(), CapsuleError>)
        ensures
            final(self).grant_state() == old(self).grant_state(),
            final(self).native_state() == old(self).native_state(),
            match lifecycle_refusal(old(self).lifecycle_state()) {
                Some(e) => r == Err::<(), CapsuleError>(e) && final(self).lifecycle_state() == old(
                    self,
                ).lifecycle_state(),
                None => r is Ok && final(self).lifecycle_state() == Lifecycle::Suspended,
            },
    {
        if let Some(e) = self.refusal() {
            return Err(e);
        }
        self.lifecycle = Lifecycle::Suspended;
        Ok(())
    }

    /// Resume request dispatch; a running capsule stays as it is and a stopped
    /// one is refused.
    pub fn resume(&mut self) -> (r: Result<(), CapsuleError>)
        ensures
            final(self).grant_state() == old(self).grant_state(),
            final(self).native_state() == old(self).native_state(),
            old(self).lifecycle_state() == Lifecycle::Suspended ==> r is Ok
                && final(self).lifecycle_state() == Lifecycle::Ready,
            old(self).lifecycle_state() == Lifecycle::Stopped ==> (r matches Err(CapsuleError::Stopped)
                && final(self).lifecycle_state() == Lifecycle::Stopped),
            lifecycle_refusal(old(self).lifecycle_state()) is None ==> r is Ok
                && final(self).lifecycle_state() == old(self).lifecycle_state(),
    {
        if self.lifecycle != Lifecycle::Suspended {
            return match self.refusal() {
                Some(e) => Err(e),
                None => Ok(()),
            };
        }
        self.lifecycle = Lifecycle::Ready;
        Ok(())
    }

    /// Stop the capsule, cleaning up native state once; stopping again does nothing.
    pub fn stop(&mut self)
        ensures
            final(self).grant_state() == old(self).grant_state(),
            final(self).lifecycle_state() == Lifecycle::Stopped,
            old(self).lifecycle_state() == Lifecycle::Stopped ==> final(self).native_state() == old(
                self,
            ).native_state(),
            old(self).lifecycle_state() != Lifecycle::Stopped ==> final(self).native_state().calls()
                == old(self).native_state().calls().push(NativeCall::Cleanup),
    {
        if self.lifecycle != Lifecycle::Stopped {
            self.native.cleanup();
            self.lifecycle = Lifecycle::Stopped;
        }
    }

    fn refusal(&self) -> (r: Option<CapsuleError>)
        ensures
            r == lifecycle_refusal(self.lifecycle_state()),
    {
        match self.lifecycle {
            Lifecycle::Suspended => Some(CapsuleError::Suspended),
            Lifecycle::Stopped => Some(CapsuleError::Stopped),
            _ => None,
        }
    }
}

// ---------------------------------------------------------------- card

/// The macOS card: every manifest service as `platform/<name>` through machine
/// limits, attested, with the digest of the architecture's target triple.
pub fn platform_card(architecture: MacArchitecture) -> (r: PlatformCard)
    ensures
        r@ == (CardView {
            schema: crate::records::CARD_SCHEMA@,
            site: "platform/site/macos"@,
            contract: "contract/macos-capsule-v1"@,
            content_digest: spec_stable_digest(encode_utf8(spec_target(architecture))),
            issuer: crate::records::CARD_ISSUER@,
            services: platform_offers(
                spec_service_names(),
                FactPort::MachineLimits,
                EvidenceLevel::Attested,
            ),
        }),
{
    let names = service_names();
    let services = offers_for(&names, FactPort::MachineLimits, EvidenceLevel::Attested);
    let digest = stable_digest(architecture.target().as_bytes());
    card("platform/site/macos", "contract/macos-capsule-v1", digest, services)
}


// ---------------------------------------------------------------- bundle

/// What a development bundle is assembled from.
#[derive(Clone, Debug, PartialEq, Eq)]
pub struct CapsuleInput {
    pub architecture: MacArchitecture,
    pub rind: Vec<u8>,
    pub capsule: Vec<u8>,
    pub resources: Vec<(String, Vec<u8>)>,
}

/// One file of the bundle.
#[derive(Clone, Debug, PartialEq, Eq)]
pub struct BundleFile {
    pub path: String,
    pub content_digest: String,
    pub bytes: Vec<u8>,
}

/// The canonical unsigned development bundle.
#[derive(Clone, Debug, PartialEq, Eq)]
pub struct UnsignedBundle {
    pub schema: String,
    pub target: String,
    pub identity: String,
    pub files: Vec<BundleFile>,
}

/// Mathematical form of a [`BundleFile`].
pub struct BundleFileView {
    pub path: Seq<char>,
    pub content_digest: Seq<char>,
    pub bytes: Seq<u8>,
}

/// Mathematical form of an [`UnsignedBundle`].
pub struct BundleView {
    pub schema: Seq<char>,
    pub target: Seq<char>,
    pub identity: Seq<char>,
    pub files: Seq<BundleFileView>,
}

impl View for BundleFile {
    type V = BundleFileView;

    open spec fn view(&self) -> BundleFileView {
        BundleFileView { path: self.path@, content_digest: self.content_digest@, bytes: self.bytes@ }
    }
}

impl View for UnsignedBundle {
    type V = BundleView;

    open spec fn view(&self) -> BundleView {
        BundleView {
            schema: self.schema@,
            target: self.target@,
            identity: self.identity@,
            files: files_view(self.files@),
        }
    }
}

/// The views of `files`.
pub open spec fn files_view(files: Seq<BundleFile>) -> Seq<BundleFileView> {
    files.map_values(|f: BundleFile| f@)
}

/// A file at `path` holding `bytes`, with their SHA-256 identity.
pub open spec fn bundle_file(path: Seq<char>, bytes: Seq<u8>) -> BundleFileView {
    BundleFileView { path, content_digest: spec_sha256_identity(bytes), bytes }
}

/// `f` placed into `sorted` after every file whose path does not sort after its own.
pub open spec fn insert_by_path(sorted: Seq<BundleFileView>, f: BundleFileView) -> Seq<BundleFileView>
    decreases sorted.len(),
{
    if sorted.len() == 0 {
        seq![f]
    } else if text_lt(f.path, sorted.last().path) {
        insert_by_path(sorted.drop_last(), f).push(sorted.last())
    } else {
        sorted.push(f)
    }
}

/// `files` stably sorted by path.
pub open spec fn sort_by_path(files: Seq<BundleFileView>) -> Seq<BundleFileView>
    decreases files.len(),
{
    if files.len() == 0 {
        Seq::empty()
    } else {
        insert_by_path(sort_by_path(files.drop_last()), files.last())
    }
}

/// The bytes a bundle identity is taken over: each file's path, then its digest.
pub open spec fn identity_source(files: Seq<BundleFileView>) -> Seq<u8>
    decreases files.len(),
{
    if files.len() == 0 {
        Seq::empty()
    } else {
        identity_source(files.drop_last()) + encode_utf8(files.last().path) + encode_utf8(
            files.last().content_digest,
        )
    }
}

/// The dynamic library name of the capsule for an architecture.
pub open spec fn artifact_name(architecture: MacArchitecture) -> Seq<char> {
    "sim-platform-macos-"@ + spec_target(architecture) + ".dylib"@
}

/// The files every bundle has, before sorting.
pub open spec fn fixed_files(
    architecture: MacArchitecture,
    rind: Seq<u8>,
    capsule: Seq<u8>,
    info_plist: Seq<u8>,
    entitlements: Seq<u8>,
) -> Seq<BundleFileView> {
    seq![
        bundle_file("Contents/MacOS/sim"@, rind),
        bundle_file("Contents/Resources/"@ + artifact_name(architecture), capsule),
        bundle_file(
            "Contents/Resources/"@ + CAPSULE_CARD_NAME@,
            encode_utf8(capsule_card("platform/site/macos"@, SHELL@, spec_service_names())),
        ),
        bundle_file(
            "Contents/Resources/"@ + BUNDLE_DESCRIPTOR_NAME@,
            encode_utf8(
                bundle_descriptor(
                    CAPSULE_CARD_NAME@,
                    artifact_name(architecture),
                    spec_sha256_identity(capsule),
                    NATIVE_ABI_ENTRY@,
                    SHELL@,
                ),
            ),
        ),
        bundle_file("Contents/Info.plist"@, info_plist),
        bundle_file("Contents/Resources/sim.entitlements"@, entitlements),
    ]
}

/// The resource files, under `Contents/Resources/`.
pub open spec fn resource_files(resources: Seq<(String, Vec<u8>)>) -> Seq<BundleFileView> {
    resources.map_values(
        |r: (String, Vec<u8>)| bundle_file("Contents/Resources/"@ + r.0@, r.1@),
    )
}

/// The canonical unsigned bundle of `input`: the fixed files and the resources,
/// stably sorted by path, identified by the SHA-256 of their paths and digests.
pub open spec fn unsigned_bundle(input: CapsuleInput, info_plist: Seq<u8>, entitlements: Seq<u8>) -> BundleView {
    let files = sort_by_path(
        fixed_files(input.architecture, input.rind@, input.capsule@, info_plist, entitlements)
            + resource_files(input.resources@),
    );
    BundleView {
        schema: "sim.macos-unsigned-bundle/v1"@,
        target: spec_target(input.architecture),
        identity: spec_sha256_identity(identity_source(files)),
        files,
    }
}

proof fn lemma_insert_at(s: Seq<BundleFileView>, f: BundleFileView, j: int)
    requires
        0 <= j <= s.len(),
        forall|m: int| j <= m < s.len() ==> text_lt(f.path, #[trigger] s[m].path),
        j > 0 ==> !text_lt(f.path, s[j - 1].path),
    ensures
        insert_by_path(s, f) == s.insert(j, f),
    decreases s.len(),
{
    if s.len() == j {
        assert(s.insert(j, f) =~= s.push(f));
    } else {
        lemma_insert_at(s.drop_last(), f, j);
        assert(s.insert(j, f) =~= s.drop_last().insert(j, f).push(s.last()));
    }
}

/// Inserts `f` into `sorted` as [`insert_by_path`] states.
#[verifier::loop_isolation(false)]
fn insert_file(sorted: &mut Vec<BundleFile>, f: BundleFile)
    ensures
        files_view(final(sorted)@) == insert_by_path(files_view(old(sorted)@), f@),
{
    let ghost s = files_view(sorted@);
    let mut j = sorted.len();
    loop
        invariant
            j <= sorted@.len(),
            s == files_view(sorted@),
            forall|m: int| j <= m < sorted@.len() ==> text_lt(f.path@, #[trigger] s[m].path),
        decreases j,
    {
        if j == 0 {
            break;
        }
        if !str_lt(f.path.as_str(), sorted[j - 1].path.as_str()) {
            break;
        }
        j = j - 1;
    }
    proof {
        lemma_insert_at(s, f@, j as int);
    }
    sorted.insert(j, f);
    assert(files_view(sorted@) =~= s.insert(j as int, f@));
}

fn bundle_entry(path: String, bytes: Vec<u8>) -> (r: BundleFile)
    ensures
        r@ == bundle_file(path@, bytes@),
{
    let content_digest = sha256_identity(bytes.as_slice());
    BundleFile { path, content_digest, bytes }
}

fn text_bytes(text: &str) -> (r: Vec<u8>)
    ensures
        r@ == encode_utf8(text@),
{
    let mut out: Vec<u8> = Vec::new();
    append_bytes(&mut out, text.as_bytes());
    assert(out@ =~= encode_utf8(text@));
    out
}

/// Assemble the canonical unsigned development bundle. No clock, host path,
/// signing identity or filesystem enumeration contributes to the result;
/// `info_plist` and `entitlements` are the property list and entitlements
/// shipped with the bundle.
pub fn build_unsigned_bundle(input: CapsuleInput, info_plist: Vec<u8>, entitlements: Vec<u8>) -> (r:
    UnsignedBundle)
    ensures
        r@ == unsigned_bundle(input, info_plist@, entitlements@),
{
    let ghost fixed = fixed_files(
        input.architecture,
        input.rind@,
        input.capsule@,
        info_plist@,
        entitlements@,
    );
    let ghost all = fixed + resource_files(input.resources@);
    let CapsuleInput { architecture, rind, capsule, resources } = input;
    let target = architecture.target();
    let artifact = concat("sim-platform-macos-", target);
    let artifact = concat(artifact.as_str(), ".dylib");
    let artifact_digest = sha256_identity(capsule.as_slice());
    let names = service_names();
    let card = capsule_card_text("platform/site/macos", SHELL, &names);
    let descriptor = bundle_descriptor_text(
        CAPSULE_CARD_NAME,
        artifact.as_str(),
        artifact_digest.as_str(),
        NATIVE_ABI_ENTRY,
        SHELL,
    );
    let mut sorted: Vec<BundleFile> = Vec::new();
    let mut unsorted: Vec<BundleFile> = Vec::new();
    unsorted.push(bundle_entry(String::from_str("Contents/MacOS/sim"), rind));
    unsorted.push(bundle_entry(concat("Contents/Resources/", artifact.as_str()), capsule));
    unsorted.push(
        bundle_entry(
            concat("Contents/Resources/", CAPSULE_CARD_NAME),
            text_bytes(card.as_str()),
        ),
    );
    unsorted.push(
        bundle_entry(
            concat("Contents/Resources/", BUNDLE_DESCRIPTOR_NAME),
            text_bytes(descriptor.as_str()),
        ),
    );
    unsorted.push(bundle_entry(String::from_str("Contents/Info.plist"), info_plist));
    unsorted.push(bundle_entry(String::from_str("Contents/Resources/sim.entitlements"), entitlements));
    assert(files_view(unsorted@) =~= fixed);
    let ghost res = resources@;
    for item in iter: resources
        invariant
            iter.seq() == res,
            files_view(unsorted@) == fixed + resource_files(res.take(iter.index() as int)),
    {
        assert(item == res[iter.index() as int]);
        let (name, bytes) = item;
        let path = concat("Contents/Resources/", name.as_str());
        let entry = bundle_entry(path, bytes);
        assert(entry@ == bundle_file("Contents/Resources/"@ + res[iter.index() as int].0@, res[iter.index() as int].1@));
        let ghost before = unsorted@;
        unsorted.push(entry);
        assert(files_view(unsorted@) =~= files_view(before).push(entry@));
        assert(resource_files(res.take(iter.index() + 1)) =~= resource_files(
            res.take(iter.index() as int),
        ).push(bundle_file("Contents/Resources/"@ + res[iter.index() as int].0@, res[iter.index() as int].1@)));
        assert(files_view(unsorted@) =~= fixed + resource_files(res.take(iter.index() + 1)));
    }
    assert(res.take(res.len() as int) =~= res);
    assert(files_view(unsorted@) == all);
    let ghost unsorted_view = all;
    let mut drained: Vec<BundleFile> = Vec::new();
    while unsorted.len() > 0
        invariant
            files_view(unsorted@) + files_view(drained@).reverse() == unsorted_view,
        decreases unsorted.len(),
    {
        let f = unsorted.pop().unwrap();
        drained.push(f);
        assert(files_view(unsorted@) + files_view(drained@).reverse() =~= unsorted_view);
    }
    assert(files_view(drained@).reverse() =~= unsorted_view);
    let n = drained.len();
    while drained.len() > 0
        invariant
            n == unsorted_view.len(),
            files_view(drained@).reverse() == unsorted_view.skip(n - drained@.len()),
            files_view(sorted@) == sort_by_path(unsorted_view.take(n - drained@.len())),
            drained@.len() <= n,
        decreases drained.len(),
    {
        let ghost before = files_view(drained@);
        let f = drained.pop().unwrap();
        let ghost k = n - drained@.len() - 1;
        assert(files_view(drained@) =~= before.drop_last());
        assert(before.reverse()[0] == before[before.len() - 1]);
        assert(unsorted_view.skip(k)[0] == unsorted_view[k]);
        assert(unsorted_view[k] == f@);
        assert(unsorted_view.take(k + 1).drop_last() =~= unsorted_view.take(k));
        insert_file(&mut sorted, f);
        assert forall|m: int| 0 <= m < files_view(drained@).len() implies #[trigger] files_view(
            drained@,
        ).reverse()[m] == unsorted_view.skip(k + 1)[m] by {
            assert(files_view(drained@).reverse()[m] == before.reverse()[m + 1]);
            assert(unsorted_view.skip(k + 1)[m] == unsorted_view.skip(k)[m + 1]);
        }
        assert(files_view(drained@).reverse() =~= unsorted_view.skip(k + 1));
    }
    assert(unsorted_view.take(n as int) =~= unsorted_view);
    let mut source: Vec<u8> = Vec::new();
    for i in 0..sorted.len()
        invariant
            source@ == identity_source(files_view(sorted@).take(i as int)),
    {
        assert(files_view(sorted@).take(i + 1).drop_last() =~= files_view(sorted@).take(i as int));
        append_bytes(&mut source, sorted[i].path.as_str().as_bytes());
        append_bytes(&mut source, sorted[i].content_digest.as_str().as_bytes());
        assert(source@ =~= identity_source(files_view(sorted@).take(i + 1)));
    }
    assert(files_view(sorted@).take(sorted@.len() as int) =~= files_view(sorted@));
    let identity = sha256_identity(source.as_slice());
    UnsignedBundle {
        schema: String::from_str("sim.macos-unsigned-bundle/v1"),
        target: String::from_str(target),
        identity,
        files: sorted,
    }
}


/// Files in path order: no file's path sorts before that of an earlier file.
pub open spec fn sorted_by_path(s: Seq<BundleFileView>) -> bool {
    forall|i: int, j: int| 0 <= i < j < s.len() ==> !text_lt(#[trigger] s[j].path, #[trigger] s[i].path)
}

proof fn lemma_insert_contents(sorted: Seq<BundleFileView>, f: BundleFileView)
    ensures
        insert_by_path(sorted, f).len() == sorted.len() + 1,
        forall|k: int|
            0 <= k < insert_by_path(sorted, f).len() ==> #[trigger] insert_by_path(sorted, f)[k]
                == f || exists|i: int| 0 <= i < sorted.len() && insert_by_path(sorted, f)[k] == sorted[i],
    decreases sorted.len(),
{
    if sorted.len() > 0 && text_lt(f.path, sorted.last().path) {
        let rest = sorted.drop_last();
        lemma_insert_contents(rest, f);
        let r = insert_by_path(sorted, f);
        assert forall|k: int| 0 <= k < r.len() implies #[trigger] r[k] == f || exists|i: int|
            0 <= i < sorted.len() && r[k] == sorted[i] by {
            if k < r.len() - 1 {
                let r0 = insert_by_path(rest, f);
                assert(r[k] == r0[k]);
                if r0[k] != f {
                    let i = choose|i: int| 0 <= i < rest.len() && r0[k] == rest[i];
                    assert(r[k] == sorted[i]);
                }
            } else {
                assert(r[k] == sorted[sorted.len() - 1]);
            }
        }
    }
}

proof fn lemma_insert_sorted(sorted: Seq<BundleFileView>, f: BundleFileView)
    requires
        sorted_by_path(sorted),
    ensures
        sorted_by_path(insert_by_path(sorted, f)),
    decreases sorted.len(),
{
    if sorted.len() == 0 {
    } else if text_lt(f.path, sorted.last().path) {
        let rest = sorted.drop_last();
        let last = sorted.last();
        lemma_insert_sorted(rest, f);
        lemma_insert_contents(rest, f);
        let r0 = insert_by_path(rest, f);
        assert forall|i: int| 0 <= i < r0.len() implies !text_lt(last.path, #[trigger] r0[i].path) by {
            if r0[i] == f {
                lemma_text_order(f.path, last.path, last.path);
            } else {
                let k = choose|k: int| 0 <= k < rest.len() && r0[i] == rest[k];
                assert(sorted[k] == rest[k]);
                assert(!text_lt(sorted[sorted.len() - 1].path, sorted[k].path));
            }
        }
        let r = r0.push(last);
        assert forall|i: int, j: int| 0 <= i < j < r.len() implies !text_lt(#[trigger] r[j].path, #[trigger] r[i].path) by {
            if j < r0.len() {
                assert(r[i] == r0[i] && r[j] == r0[j]);
            } else {
                assert(r[i] == r0[i]);
            }
        }
    } else {
        let last = sorted.last();
        let r = sorted.push(f);
        assert forall|i: int| 0 <= i < sorted.len() implies !text_lt(f.path, #[trigger] sorted[i].path) by {
            let n = sorted.len() - 1;
            if i < n {
                assert(!text_lt(sorted[n].path, sorted[i].path));
                lemma_text_order(sorted[i].path, last.path, f.path);
                lemma_text_order(f.path, sorted[i].path, last.path);
            }
        }
        assert forall|i: int, j: int| 0 <= i < j < r.len() implies !text_lt(#[trigger] r[j].path, #[trigger] r[i].path) by {
            if j < sorted.len() {
                assert(r[i] == sorted[i] && r[j] == sorted[j]);
            } else {
                assert(r[i] == sorted[i]);
            }
        }
    }
}

proof fn lemma_sort_sorted(files: Seq<BundleFileView>)
    ensures
        sorted_by_path(sort_by_path(files)),
    decreases files.len(),
{
    if files.len() > 0 {
        lemma_sort_sorted(files.drop_last());
        lemma_insert_sorted(sort_by_path(files.drop_last()), files.last());
    }
}

/// A bundle lists its files in path order, whatever order the resources came in.
pub proof fn law_bundle_files_in_path_order(
    input: CapsuleInput,
    info_plist: Seq<u8>,
    entitlements: Seq<u8>,
)
    ensures
        sorted_by_path(unsigned_bundle(input, info_plist, entitlements).files),
{
    lemma_sort_sorted(
        fixed_files(input.architecture, input.rind@, input.capsule@, info_plist, entitlements)
            + resource_files(input.resources@),
    );
}

/// No two files share a path.
pub open spec fn paths_distinct(s: Seq<BundleFileView>) -> bool {
    forall|i: int, j: int| 0 <= i < j < s.len() ==> s[i].path != s[j].path
}

proof fn lemma_insert_multiset(sorted: Seq<BundleFileView>, f: BundleFileView)
    ensures
        insert_by_path(sorted, f).to_multiset() =~= sorted.to_multiset().insert(f),
    decreases sorted.len(),
{
    broadcast use vstd::seq_lib::group_to_multiset_ensures;

    if sorted.len() == 0 {
        assert(seq![f] =~= Seq::<BundleFileView>::empty().push(f));
    } else {
        let rest = sorted.drop_last();
        assert(sorted =~= rest.push(sorted.last()));
        if text_lt(f.path, sorted.last().path) {
            lemma_insert_multiset(rest, f);
        }
    }
}

proof fn lemma_sort_multiset(files: Seq<BundleFileView>)
    ensures
        sort_by_path(files).to_multiset() =~= files.to_multiset(),
    decreases files.len(),
{
    broadcast use vstd::seq_lib::group_to_multiset_ensures;

    if files.len() > 0 {
        let rest = files.drop_last();
        lemma_sort_multiset(rest);
        lemma_insert_multiset(sort_by_path(rest), files.last());
        assert(files =~= rest.push(files.last()));
    }
}

proof fn lemma_insert_distinct(sorted: Seq<BundleFileView>, f: BundleFileView)
    requires
        paths_distinct(sorted),
        forall|i: int| 0 <= i < sorted.len() ==> sorted[i].path != f.path,
    ensures
        paths_distinct(insert_by_path(sorted, f)),
    decreases sorted.len(),
{
    if sorted.len() > 0 && text_lt(f.path, sorted.last().path) {
        let rest = sorted.drop_last();
        let last = sorted.last();
        lemma_insert_distinct(rest, f);
        lemma_insert_contents(rest, f);
        let r0 = insert_by_path(rest, f);
        assert forall|i: int| 0 <= i < r0.len() implies r0[i].path != last.path by {
            if r0[i] != f {
                let k = choose|k: int| 0 <= k < rest.len() && r0[i] == rest[k];
                assert(sorted[k] == rest[k]);
            }
        }
        let r = r0.push(last);
        assert forall|i: int, j: int| 0 <= i < j < r.len() implies r[i].path != r[j].path by {
            assert(r[i] == r0[i]);
            if j < r0.len() {
                assert(r[j] == r0[j]);
            }
        }
    } else if sorted.len() > 0 {
        let r = sorted.push(f);
        assert forall|i: int, j: int| 0 <= i < j < r.len() implies r[i].path != r[j].path by {
            assert(r[i] == sorted[i]);
            if j < sorted.len() {
                assert(r[j] == sorted[j]);
            }
        }
    }
}

proof fn lemma_sort_distinct(files: Seq<BundleFileView>)
    requires
        paths_distinct(files),
    ensures
        paths_distinct(sort_by_path(files)),
    decreases files.len(),
{
    broadcast use vstd::seq_lib::group_to_multiset_ensures;

    if files.len() > 0 {
        let rest = files.drop_last();
        let f = files.last();
        assert forall|a: int, b: int| 0 <= a < b < rest.len() implies rest[a].path != rest[b].path by {
            assert(rest[a] == files[a] && rest[b] == files[b]);
        }
        lemma_sort_distinct(rest);
        lemma_sort_multiset(rest);
        let s = sort_by_path(rest);
        assert forall|i: int| 0 <= i < s.len() implies s[i].path != f.path by {
            assert(s.to_multiset().count(s[i]) > 0);
            assert(rest.contains(s[i]));
            let k = choose|k: int| 0 <= k < rest.len() && rest[k] == s[i];
            assert(files[k] == rest[k]);
        }
        lemma_insert_distinct(s, f);
    }
}

proof fn lemma_sorted_unique(s1: Seq<BundleFileView>, s2: Seq<BundleFileView>)
    requires
        sorted_by_path(s1),
        sorted_by_path(s2),
        paths_distinct(s1),
        paths_distinct(s2),
        s1.to_multiset() == s2.to_multiset(),
    ensures
        s1 == s2,
    decreases s1.len(),
{
    broadcast use vstd::seq_lib::group_to_multiset_ensures;

    vstd::seq_lib::to_multiset_len(s1);
    vstd::seq_lib::to_multiset_len(s2);
    assert(s1.len() == s2.len());
    if s1.len() == 0 {
        assert(s1 =~= s2);
    } else {
        let n = s1.len() - 1;
        let (a, b) = (s1[n], s2[n]);
        assert(s2.to_multiset().count(a) > 0);
        assert(s2.contains(a));
        let k = choose|k: int| 0 <= k < s2.len() && s2[k] == a;
        assert(s1.to_multiset().count(b) > 0);
        assert(s1.contains(b));
        let m = choose|m: int| 0 <= m < s1.len() && s1[m] == b;
        if k < n {
            assert(!text_lt(s2[n].path, s2[k].path));
            lemma_text_order(a.path, b.path, a.path);
            if m < n {
                assert(!text_lt(s1[n].path, s1[m].path));
                assert(s1[m].path != s1[n].path);
                assert(s2[k].path != s2[n].path);
            } else {
                assert(s2[k].path != s2[n].path);
            }
        }
        assert(a == b);
        assert(s1.remove(n) =~= s1.drop_last());
        assert(s2.remove(n) =~= s2.drop_last());
        let (t1, t2) = (s1.drop_last(), s2.drop_last());
        assert forall|i: int, j: int| 0 <= i < j < t1.len() implies !text_lt(#[trigger] t1[j].path, #[trigger] t1[i].path) by {
            assert(t1[i] == s1[i] && t1[j] == s1[j]);
        }
        assert forall|i: int, j: int| 0 <= i < j < t2.len() implies !text_lt(#[trigger] t2[j].path, #[trigger] t2[i].path) by {
            assert(t2[i] == s2[i] && t2[j] == s2[j]);
        }
        assert forall|i: int, j: int| 0 <= i < j < t1.len() implies t1[i].path != t1[j].path by {
            assert(t1[i] == s1[i] && t1[j] == s1[j]);
        }
        assert forall|i: int, j: int| 0 <= i < j < t2.len() implies t2[i].path != t2[j].path by {
            assert(t2[i] == s2[i] && t2[j] == s2[j]);
        }
        lemma_sorted_unique(t1, t2);
        assert(s1 =~= t1.push(a));
        assert(s2 =~= t2.push(b));
    }
}

/// The names of the files every bundle keeps under `Contents/Resources/`.
pub open spec fn reserved_resource_name(architecture: MacArchitecture, name: Seq<char>) -> bool {
    ||| name == artifact_name(architecture)
    ||| name == CAPSULE_CARD_NAME@
    ||| name == BUNDLE_DESCRIPTOR_NAME@
    ||| name == "sim.entitlements"@
}

/// Resource names are pairwise distinct and none is one of the bundle's own.
pub open spec fn resources_distinct(architecture: MacArchitecture, resources: Seq<(String, Vec<u8>)>) -> bool {
    &&& forall|i: int, j: int| 0 <= i < j < resources.len() ==> resources[i].0@ != resources[j].0@
    &&& forall|i: int| 0 <= i < resources.len() ==> !reserved_resource_name(architecture, #[trigger] resources[i].0@)
}

proof fn lemma_map_multiset<A, B>(s1: Seq<A>, s2: Seq<A>, f: spec_fn(A) -> B)
    requires
        s1.to_multiset() == s2.to_multiset(),
    ensures
        s1.map_values(f).to_multiset() == s2.map_values(f).to_multiset(),
    decreases s1.len(),
{
    broadcast use vstd::seq_lib::group_to_multiset_ensures;

    vstd::seq_lib::to_multiset_len(s1);
    vstd::seq_lib::to_multiset_len(s2);
    if s1.len() == 0 {
        assert(s1.map_values(f) =~= Seq::<B>::empty());
        assert(s2.map_values(f) =~= Seq::<B>::empty());
    } else {
        let a = s1.last();
        let t1 = s1.drop_last();
        assert(s1 =~= t1.push(a));
        assert(s2.to_multiset().count(a) > 0);
        assert(s2.contains(a));
        let k = choose|k: int| 0 <= k < s2.len() && s2[k] == a;
        let t2 = s2.remove(k);
        assert(t1.to_multiset() =~= s1.to_multiset().remove(a));
        assert(t2.to_multiset() =~= s2.to_multiset().remove(a));
        lemma_map_multiset(t1, t2, f);
        assert(s1.map_values(f) =~= t1.map_values(f).push(f(a)));
        assert(s2.map_values(f).remove(k) =~= t2.map_values(f));
        assert(s2.map_values(f)[k] == f(a));
        let m2 = s2.map_values(f).to_multiset();
        assert(m2.remove(f(a)) =~= t2.map_values(f).to_multiset());
        assert(m2.count(f(a)) > 0);
        assert(m2 =~= m2.remove(f(a)).insert(f(a)));
    }
}

proof fn lemma_prefix_cancel(a: Seq<char>, x: Seq<char>, y: Seq<char>)
    requires
        a + x == a + y,
    ensures
        x == y,
{
    assert(x =~= (a + x).subrange(a.len() as int, (a + x).len() as int));
    assert(y =~= (a + y).subrange(a.len() as int, (a + y).len() as int));
}

proof fn lemma_bundle_paths_distinct(
    architecture: MacArchitecture,
    rind: Seq<u8>,
    capsule: Seq<u8>,
    info_plist: Seq<u8>,
    entitlements: Seq<u8>,
    resources: Seq<(String, Vec<u8>)>,
)
    requires
        resources_distinct(architecture, resources),
    ensures
        paths_distinct(fixed_files(architecture, rind, capsule, info_plist, entitlements) + resource_files(resources)),
{
    reveal_strlit("Contents/MacOS/sim");
    reveal_strlit("Contents/Resources/");
    reveal_strlit("sim-platform-macos-");
    reveal_strlit(".dylib");
    reveal_strlit("x86_64-apple-darwin");
    reveal_strlit("aarch64-apple-darwin");
    reveal_strlit("sim.platform-capsule.toml");
    reveal_strlit("sim.platform-bundle.toml");
    reveal_strlit("Contents/Info.plist");
    reveal_strlit("Contents/Resources/sim.entitlements");
    reveal_strlit("sim.entitlements");
    let fixed = fixed_files(architecture, rind, capsule, info_plist, entitlements);
    let res = resource_files(resources);
    let all = fixed + res;
    let pre = "Contents/Resources/"@;
    assert("Contents/Resources/sim.entitlements"@ =~= pre + "sim.entitlements"@);
    let names = seq![
        artifact_name(architecture),
        CAPSULE_CARD_NAME@,
        BUNDLE_DESCRIPTOR_NAME@,
        "sim.entitlements"@,
    ];
    assert(fixed[1].path == pre + names[0]);
    assert(fixed[2].path == pre + names[1]);
    assert(fixed[3].path == pre + names[2]);
    assert(fixed[5].path == pre + names[3]);
    assert(names[0][3] == '-');
    assert(names[1][3] == '.' && names[2][3] == '.' && names[3][3] == '.');
    assert(names[1][13] == 'c' && names[2][13] == 'b');
    assert(names[3][4] == 'e' && names[1][4] == 'p' && names[2][4] == 'p');
    assert forall|a: int, b: int| 0 <= a < b < 4 implies names[a] != names[b] by {
        if a == 0 {
            assert(names[a][3] != names[b][3]);
        } else if a == 1 && b == 2 {
            assert(names[a][13] != names[b][13]);
        } else {
            assert(names[a][4] != names[b][4]);
        }
    }
    assert(fixed[0].path[9] == 'M');
    assert(fixed[4].path[9] == 'I');
    assert forall|i: int| 0 <= i < res.len() implies (#[trigger] res[i]).path == pre + resources[i].0@
        && res[i].path[9] == 'R' by {
        assert(res[i].path == pre + resources[i].0@);
        assert((pre + resources[i].0@)[9] == pre[9]);
    }
    assert forall|i: int, j: int| 0 <= i < j < all.len() implies all[i].path != all[j].path by {
        if j < 6 {
            if i == 0 || j == 0 || i == 4 || j == 4 {
                assert(all[i].path[9] != all[j].path[9]);
            } else {
                let a = if i == 1 { 0int } else if i == 2 { 1int } else if i == 3 { 2int } else { 3int };
                let b = if j == 1 { 0int } else if j == 2 { 1int } else if j == 3 { 2int } else { 3int };
                if all[i].path == all[j].path {
                    lemma_prefix_cancel(pre, names[a], names[b]);
                }
            }
        } else if i < 6 {
            let r = res[j - 6];
            assert(all[j] == r);
            if i == 0 || i == 4 {
                assert(all[i].path[9] != all[j].path[9]);
            } else {
                let a = if i == 1 { 0int } else if i == 2 { 1int } else if i == 3 { 2int } else { 3int };
                if all[i].path == all[j].path {
                    lemma_prefix_cancel(pre, names[a], resources[j - 6].0@);
                    assert(!reserved_resource_name(architecture, resources[j - 6].0@));
                }
            }
        } else {
            assert(all[i] == res[i - 6] && all[j] == res[j - 6]);
            if all[i].path == all[j].path {
                lemma_prefix_cancel(pre, resources[i - 6].0@, resources[j - 6].0@);
            }
        }
    }
}

/// A bundle does not depend on the order in which its resources came: two
/// inputs that agree but for the order of their resources give the same
/// bundle, when no two resources share a name and none is named like one of
/// the bundle's own files under `Contents/Resources/`.
pub proof fn law_bundle_ignores_resource_order(
    i1: CapsuleInput,
    i2: CapsuleInput,
    info_plist: Seq<u8>,
    entitlements: Seq<u8>,
)
    requires
        i1.architecture == i2.architecture,
        i1.rind@ == i2.rind@,
        i1.capsule@ == i2.capsule@,
        i1.resources@.to_multiset() == i2.resources@.to_multiset(),
        resources_distinct(i1.architecture, i1.resources@),
        resources_distinct(i2.architecture, i2.resources@),
    ensures
        unsigned_bundle(i1, info_plist, entitlements) == unsigned_bundle(i2, info_plist, entitlements),
{
    broadcast use vstd::seq_lib::lemma_multiset_commutative;

    let fixed = fixed_files(i1.architecture, i1.rind@, i1.capsule@, info_plist, entitlements);
    let to_file = |r: (String, Vec<u8>)| bundle_file("Contents/Resources/"@ + r.0@, r.1@);
    lemma_map_multiset(i1.resources@, i2.resources@, to_file);
    assert(resource_files(i1.resources@) == i1.resources@.map_values(to_file));
    assert(resource_files(i2.resources@) == i2.resources@.map_values(to_file));
    let f1 = fixed + resource_files(i1.resources@);
    let f2 = fixed + resource_files(i2.resources@);
    lemma_bundle_paths_distinct(i1.architecture, i1.rind@, i1.capsule@, info_plist, entitlements, i1.resources@);
    lemma_bundle_paths_distinct(i2.architecture, i2.rind@, i2.capsule@, info_plist, entitlements, i2.resources@);
    assert(f1.to_multiset() =~= f2.to_multiset());
    lemma_sort_multiset(f1);
    lemma_sort_multiset(f2);
    lemma_sort_sorted(f1);
    lemma_sort_sorted(f2);
    lemma_sort_distinct(f1);
    lemma_sort_distinct(f2);
    lemma_sorted_unique(sort_by_path(f1), sort_by_path(f2));
}

} // verus!
