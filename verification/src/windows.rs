//! Windows capsule: relative path mechanics for the Table/Dir membrane, the
//! authored service manifest, a capability-gated native membrane, the
//! platform card and the unsigned package description.
use vstd::prelude::*;
use vstd::utf8::encode_utf8;
use crate::digest::{spec_stable_digest, stable_digest};
use crate::records::{card, prefixed, CardView, EvidenceLevel, FactPort, OfferView, PlatformCard, ServiceOffer};
use crate::scan::contains_str;
use crate::text::{join, join_strs};

verus! {

pub const NATIVE_ABI_ENTRY: &'static str = "sim_native_abi_v1";
pub const TARGET: &'static str = "x86_64-pc-windows-msvc";
pub const CAPSULE_CARD_NAME: &'static str = "sim.platform-capsule.toml";

// ---------------------------------------------------------------- paths

#[derive(Clone, Copy, Debug, PartialEq, Eq, Structural)]
pub enum PathError {
    Empty,
    Absolute,
    Traversal,
    InvalidSeparator,
}

/// An identity-preserving relative Windows path. UTF-16 code units are retained
/// exactly; normalization only establishes the private API spelling.
#[derive(Clone, Debug, PartialEq, Eq)]
pub struct WindowsPath {
    units: Vec<u16>,
    identity: String,
}

/// `/`, `\`, `:`, `.` as UTF-16 code units.
pub const SLASH: u16 = 47;
pub const BACKSLASH: u16 = 92;
pub const COLON: u16 = 58;
pub const DOT: u16 = 46;

/// The API spelling of a unit: `/` becomes `\`.
pub open spec fn api_unit(u: u16) -> u16 {
    if u == SLASH {
        BACKSLASH
    } else {
        u
    }
}

/// The API spelling of a path.
pub open spec fn api_spelling(units: Seq<u16>) -> Seq<u16> {
    units.map_values(|u: u16| api_unit(u))
}

/// Some `\`-separated segment of `n` is exactly `..`.
pub open spec fn has_parent_segment(n: Seq<u16>) -> bool {
    exists|i: int|
        0 <= i && i + 2 <= n.len() && #[trigger] n[i] == DOT && n[i + 1] == DOT && (i == 0 || n[i
            - 1] == BACKSLASH) && (i + 2 == n.len() || n[i + 2] == BACKSLASH)
}

/// Little-endian bytes of UTF-16 units.
pub open spec fn le_bytes(units: Seq<u16>) -> Seq<u8>
    decreases units.len(),
{
    if units.len() == 0 {
        Seq::empty()
    } else {
        le_bytes(units.drop_last()) + seq![
            (units.last() & 0xffu16) as u8,
            (units.last() >> 8u16) as u8,
        ]
    }
}

/// What normalizing a Table/Dir relative path gives: refusals for empty,
/// rooted or drive-qualified, NUL-carrying and traversing paths; otherwise the
/// API spelling and the stable digest of the original units.
pub open spec fn spec_path(units: Seq<u16>) -> Result<(Seq<u16>, Seq<char>), PathError> {
    if units.len() == 0 {
        Err(PathError::Empty)
    } else if units[0] == SLASH || units[0] == BACKSLASH || (units.len() > 1 && units[1] == COLON) {
        Err(PathError::Absolute)
    } else if units.contains(0u16) {
        Err(PathError::InvalidSeparator)
    } else if has_parent_segment(api_spelling(units)) {
        Err(PathError::Traversal)
    } else {
        Ok((api_spelling(units), spec_stable_digest(le_bytes(units))))
    }
}

/// Whether some backslash-separated segment of `n` is exactly `..`.
fn parent_segment(n: &Vec<u16>) -> (r: bool)
    ensures
        r == has_parent_segment(n@),
{
    let len = n.len();
    for i in 0..len
        invariant
            len == n@.len(),
            forall|k: int|
                0 <= k < i ==> !(k + 2 <= n@.len() && #[trigger] n@[k] == DOT && n@[k + 1] == DOT
                    && (k == 0 || n@[k - 1] == BACKSLASH) && (k + 2 == n@.len() || n@[k + 2]
                    == BACKSLASH)),
    {
        if len - i >= 2 && n[i] == DOT && n[i + 1] == DOT && (i == 0 || n[i - 1] == BACKSLASH) && (
        i + 2 == len || n[i + 2] == BACKSLASH) {
            assert(n@[i as int] == DOT);
            return true;
        }
    }
    false
}

/// The little-endian bytes of `units`.
fn utf16_le_bytes(units: &[u16]) -> (r: Vec<u8>)
    ensures
        r@ == le_bytes(units@),
{
    let mut bytes: Vec<u8> = Vec::new();
    for i in 0..units.len()
        invariant
            bytes@ == le_bytes(units@.subrange(0, i as int)),
    {
        assert(units@.subrange(0, i + 1).drop_last() =~= units@.subrange(0, i as int));
        bytes.push(#[verifier::truncate] ((units[i] & 0xffu16) as u8));
        bytes.push(#[verifier::truncate] ((units[i] >> 8u16) as u8));
        assert(bytes@ =~= le_bytes(units@.subrange(0, i + 1)));
    }
    assert(units@.subrange(0, units@.len() as int) =~= units@);
    bytes
}

/// An accepted path stays inside its preopen: it is relative, neither rooted
/// nor drive-qualified, carries no NUL and no `..` segment, and its API
/// spelling uses only backslash separators.
pub proof fn law_accepted_paths_stay_inside(units: Seq<u16>)
    requires
        spec_path(units) is Ok,
    ensures
        ({
            let api = spec_path(units)->Ok_0.0;
            &&& api.len() == units.len() > 0
            &&& api[0] != BACKSLASH
            &&& !(api.len() > 1 && api[1] == COLON)
            &&& !api.contains(SLASH)
            &&& !api.contains(0u16)
            &&& !has_parent_segment(api)
        }),
{
    let api = api_spelling(units);
    if api.contains(SLASH) {
        let i = choose|i: int| 0 <= i < api.len() && api[i] == SLASH;
        assert(api[i] == api_unit(units[i]));
    }
    if api.contains(0u16) {
        let i = choose|i: int| 0 <= i < api.len() && api[i] == 0u16;
        assert(api[i] == api_unit(units[i]));
        assert(units[i] == 0u16);
    }
}

impl WindowsPath {
    /// The API spelling.
    pub closed spec fn units(&self) -> Seq<u16> {
        self.units@
    }

    /// The stable identity of the original spelling.
    pub closed spec fn identity_text(&self) -> Seq<char> {
        self.identity@
    }

    /// Normalize a Table/Dir relative path for Windows APIs, as [`spec_path`] states.
    #[verifier::loop_isolation(false)]
    pub fn from_table_units(units: &[u16]) -> (r: Result<Self, PathError>)
        ensures
            match spec_path(units@) {
                Ok((api, identity)) => r matches Ok(p) && p.units() == api && p.identity_text()
                    == identity,
                Err(e) => r == Err::<WindowsPath, PathError>(e),
            },
    {
        if units.len() == 0 {
            return Err(PathError::Empty);
        }
        if units[0] == SLASH || units[0] == BACKSLASH || (units.len() > 1 && units[1] == COLON) {
            return Err(PathError::Absolute);
        }
        let mut normalized: Vec<u16> = Vec::new();
        for i in 0..units.len()
            invariant
                normalized@ == api_spelling(units@.subrange(0, i as int)),
                forall|j: int| 0 <= j < i ==> units@[j] != 0u16,
        {
            let unit = units[i];
            if unit == 0 {
                assert(units@[i as int] == 0u16);
                return Err(PathError::InvalidSeparator);
            }
            normalized.push(if unit == SLASH { BACKSLASH } else { unit });
            assert(api_spelling(units@.subrange(0, i + 1)) =~= api_spelling(
                units@.subrange(0, i as int),
            ).push(api_unit(unit)));
        }
        assert(units@.subrange(0, units@.len() as int) =~= units@);
        assert(!units@.contains(0u16));
        assert(normalized@ =~= api_spelling(units@));
        if parent_segment(&normalized) {
            return Err(PathError::Traversal);
        }
        let bytes = utf16_le_bytes(units);
        let identity = stable_digest(bytes.as_slice());
        Ok(WindowsPath { units: normalized, identity })
    }

    /// The units as Windows APIs receive them.
    pub fn api_units(&self) -> (r: &[u16])
        ensures
            r@ == self.units(),
    {
        self.units.as_slice()
    }

    /// The stable identity of the path as it was given.
    pub fn identity(&self) -> (r: &str)
        ensures
            r@ == self.identity_text(),
    {
        self.identity.as_str()
    }
}

// ---------------------------------------------------------------- manifest

/// One portable service realized through private Windows mechanics.
#[derive(Clone, Copy, Debug, PartialEq, Eq)]
pub struct ServiceBinding {
    pub service: &'static str,
    pub api: &'static str,
    pub permission: &'static str,
}

/// The portable service names of the complete capsule manifest, in order.
pub open spec fn spec_service_names() -> Seq<Seq<char>> {
    seq![
        "filesystem"@,
        "process"@,
        "loader"@,
        "socket"@,
        "lifecycle"@,
        "activation"@,
        "permission-status"@,
        "permission-request"@,
        "clipboard"@,
        "notification"@,
        "audio"@,
        "midi"@,
        "compute"@,
    ]
}

/// Complete capsule manifest. API names never become dispatch identities.
pub fn services() -> (r: Vec<ServiceBinding>)
    ensures
        r@.map_values(|b: ServiceBinding| b.service@) == spec_service_names(),
{
    let r = vec![
        ServiceBinding {
            service: "filesystem",
            api: "CreateFileW, GetFinalPathNameByHandleW",
            permission: "broadFileSystemAccess or preopened picker token",
        },
        ServiceBinding {
            service: "process",
            api: "CreateProcessW, job objects, CancelSynchronousIo",
            permission: "runFullTrust",
        },
        ServiceBinding {
            service: "loader",
            api: "LoadPackagedLibrary, GetProcAddress",
            permission: "package graph",
        },
        ServiceBinding {
            service: "socket",
            api: "Winsock2, Windows.Networking.Sockets",
            permission: "internetClient, privateNetworkClientServer",
        },
        ServiceBinding {
            service: "lifecycle",
            api: "CoreApplication, AppLifecycle",
            permission: "none",
        },
        ServiceBinding {
            service: "activation",
            api: "AppInstance, IApplicationActivationManager",
            permission: "package identity",
        },
        ServiceBinding {
            service: "permission-status",
            api: "AppCapability.CheckAccess",
            permission: "none",
        },
        ServiceBinding {
            service: "permission-request",
            api: "AppCapability.RequestAccess",
            permission: "matching SIM capability",
        },
        ServiceBinding {
            service: "clipboard",
            api: "Windows.ApplicationModel.DataTransfer.Clipboard",
            permission: "interactiveWindow",
        },
        ServiceBinding {
            service: "notification",
            api: "AppNotificationManager",
            permission: "package identity",
        },
        ServiceBinding {
            service: "audio",
            api: "WASAPI, Media Foundation",
            permission: "microphone when capture is requested",
        },
        ServiceBinding {
            service: "midi",
            api: "Windows.Devices.Midi, WinMM",
            permission: "midi",
        },
        ServiceBinding { service: "compute", api: "D3D12, DXGI, DirectML", permission: "none" },
    ];
    assert(r@.map_values(|b: ServiceBinding| b.service@) =~= spec_service_names());
    r
}

fn service_names() -> (r: Vec<&'static str>)
    ensures
        r@.map_values(|s: &str| s@) == spec_service_names(),
{
    let bindings = services();
    let mut names: Vec<&'static str> = Vec::new();
    for i in 0..bindings.len()
        invariant
            bindings@.map_values(|b: ServiceBinding| b.service@) == spec_service_names(),
            names@.len() == i,
            forall|j: int| 0 <= j < i ==> #[trigger] names@[j]@ == spec_service_names()[j],
    {
        assert(bindings@.map_values(|b: ServiceBinding| b.service@)[i as int] == bindings@[i as int].service@);
        names.push(bindings[i].service);
    }
    assert(names@.map_values(|s: &str| s@) =~= spec_service_names());
    names
}

/// The service names joined with commas.
pub fn generated_service_set() -> (r: String)
    ensures
        r@ == join(spec_service_names(), ","@),
{
    let names = service_names();
    join_strs(&names, ",")
}

/// The offers of a card built over `names`: `platform/<name>`, through the
/// given port, attested.
pub open spec fn platform_offers(names: Seq<Seq<char>>, port: FactPort, evidence: EvidenceLevel) -> Seq<
    OfferView,
> {
    names.map_values(
        |name: Seq<char>| OfferView { service: "platform/"@ + name, port, evidence },
    )
}

/// Builds the `platform/<name>` offers over `names`.
pub fn offers_for(names: &Vec<&str>, port: FactPort, evidence: EvidenceLevel) -> (r: Vec<ServiceOffer>)
    ensures
        r@.map_values(|o: ServiceOffer| o@) == platform_offers(
            names@.map_values(|s: &str| s@),
            port,
            evidence,
        ),
{
    let mut out: Vec<ServiceOffer> = Vec::new();
    for i in 0..names.len()
        invariant
            out@.len() == i,
            forall|j: int|
                0 <= j < i ==> #[trigger] out@[j]@ == (OfferView {
                    service: "platform/"@ + names@[j]@,
                    port,
                    evidence,
                }),
    {
        out.push(ServiceOffer { service: prefixed("platform/", names[i]), port, evidence });
    }
    assert(out@.map_values(|o: ServiceOffer| o@) =~= platform_offers(
        names@.map_values(|s: &str| s@),
        port,
        evidence,
    ));
    out
}

/// The Windows card: every manifest service as `platform/<name>` through
/// machine limits, attested, with the digest of the generated service set.
pub fn platform_card() -> (r: PlatformCard)
    ensures
        r@ == (CardView {
            schema: crate::records::CARD_SCHEMA@,
            site: "platform/site/windows"@,
            contract: "contract/windows-capsule-v1"@,
            content_digest: spec_stable_digest(encode_utf8(join(spec_service_names(), ","@))),
            issuer: crate::records::CARD_ISSUER@,
            services: platform_offers(
                spec_service_names(),
                FactPort::MachineLimits,
                EvidenceLevel::Attested,
            ),
        }),
{
    let names = service_names();
    let services = offers_for(&names, FactPort::MachineLimits, EvidenceLevel::Attested);
    let set = generated_service_set();
    let digest = stable_digest(set.as_str().as_bytes());
    card("platform/site/windows", "contract/windows-capsule-v1", digest, services)
}


// ---------------------------------------------------------------- capsule

/// Explicit mounts, authority and budgets of a capsule. Preopened directories
/// are looked up by name and grants by exact text; the order of either list
/// carries no meaning.
#[derive(Clone, Debug, PartialEq, Eq)]
pub struct WindowsProfile {
    pub preopened_dirs: Vec<(String, Vec<u16>)>,
    pub grants: Vec<String>,
    pub max_processes: u32,
    pub max_output_bytes: usize,
}

impl WindowsProfile {
    /// A preopened directory is named `name`.
    pub open spec fn has_preopen(self, name: Seq<char>) -> bool {
        exists|i: int|
            0 <= i < self.preopened_dirs.len() && #[trigger] self.preopened_dirs@[i].0@ == name
    }

    /// The capability `capability` is granted.
    pub open spec fn grants_capability(self, capability: Seq<char>) -> bool {
        exists|i: int| 0 <= i < self.grants.len() && #[trigger] self.grants@[i]@ == capability
    }

    /// Both budgets are present and bounded.
    pub open spec fn bounded(self) -> bool {
        &&& 0 < self.max_processes <= MAX_PROCESSES
        &&& 0 < self.max_output_bytes <= MAX_OUTPUT_BYTES
    }
}

/// Upper bound on concurrently running processes.
pub const MAX_PROCESSES: u32 = 64;
/// Upper bound on captured output, 16 MiB.
pub const MAX_OUTPUT_BYTES: usize = 16777216;

#[derive(Clone, Copy, Debug, PartialEq, Eq, Structural)]
pub enum Lifecycle {
    Ready,
    Active,
    Suspended,
    Stopped,
}

#[derive(Clone, Copy, Debug, PartialEq, Eq, Structural)]
pub enum NativeRequest {
    Launch,
    Load,
    Connect,
    Activate,
    Clipboard,
    Notify,
    Audio,
    Midi,
    Compute,
    PermissionStatus,
    PermissionRequest,
}

#[derive(Clone, Debug, PartialEq, Eq)]
pub enum CapsuleError {
    MissingCapability(String),
    UnknownPreopen(String),
    InvalidBudget,
    Suspended,
    Stopped,
    Native(&'static str),
}

/// One call into the native services: what it was given and what it answered.
pub enum NativeCall {
    Dispatch(NativeRequest, Result<(), &'static str>),
    CancelProcessTree,
    Cleanup,
}

/// Private Win32/WinRT mechanics behind the membrane, supplied by the host.
pub trait NativeServices {
    /// The calls made into these services so far, in order, with their answers.
    spec fn calls(&self) -> Seq<NativeCall>;

    /// Dispatch one already-authorized request; a failure is a sanitized
    /// message and never a native handle.
    fn dispatch(&mut self, request: NativeRequest) -> (r: Result<(), &'static str>)
        ensures
            final(self).calls() == old(self).calls().push(NativeCall::Dispatch(request, r)),
    ;

    /// Cancels the bounded process tree.
    fn cancel_process_tree(&mut self)
        ensures
            final(self).calls() == old(self).calls().push(NativeCall::CancelProcessTree),
    ;

    /// Releases native resources.
    fn cleanup(&mut self)
        ensures
            final(self).calls() == old(self).calls().push(NativeCall::Cleanup),
    ;
}

/// What the native side answered, as a result of the capsule carries it.
pub open spec fn native_answer(r: Result<(), CapsuleError>) -> Result<(), &'static str> {
    match r {
        Err(CapsuleError::Native(m)) => Err(m),
        _ => Ok(()),
    }
}

/// What a gated request for `service` does, from a capsule in `lifecycle`
/// with `profile`, to its native calls (`before` and `after`) and its result
/// `r`: a lifecycle refusal, then a missing `platform/<service>` grant,
/// refuses it with no native call; otherwise `request` is dispatched once and
/// the result is the native answer.
pub open spec fn request_effect(
    lifecycle: Lifecycle,
    profile: WindowsProfile,
    service: Seq<char>,
    request: NativeRequest,
    before: Seq<NativeCall>,
    after: Seq<NativeCall>,
    r: Result<(), CapsuleError>,
) -> bool {
    match lifecycle_refusal(lifecycle) {
        Some(e) => r == Err::<(), CapsuleError>(e) && after == before,
        None => if !profile.grants_capability("platform/"@ + service) {
            (r matches Err(CapsuleError::MissingCapability(c)) && c@ == "platform/"@ + service)
                && after == before
        } else {
            (r is Ok || r matches Err(CapsuleError::Native(_))) && after == before.push(
                NativeCall::Dispatch(request, native_answer(r)),
            )
        },
    }
}

/// Two results are the same: both succeed, or both fail with the same error
/// (a missing grant naming the same capability text).
pub open spec fn same_outcome(a: Result<(), CapsuleError>, b: Result<(), CapsuleError>) -> bool {
    match (a, b) {
        (Ok(_), Ok(_)) => true,
        (Err(CapsuleError::MissingCapability(x)), Err(CapsuleError::MissingCapability(y))) => x@ == y@,
        (Err(CapsuleError::UnknownPreopen(x)), Err(CapsuleError::UnknownPreopen(y))) => x@ == y@,
        (Err(CapsuleError::InvalidBudget), Err(CapsuleError::InvalidBudget)) => true,
        (Err(CapsuleError::Suspended), Err(CapsuleError::Suspended)) => true,
        (Err(CapsuleError::Stopped), Err(CapsuleError::Stopped)) => true,
        (Err(CapsuleError::Native(x)), Err(CapsuleError::Native(y))) => x == y,
        _ => false,
    }
}

/// Activation is the activation request: for a capsule in the same state
/// whose native side answers the same, `activate` and
/// `request("activation", NativeRequest::Activate)` give the same result and
/// the same native calls.
pub proof fn law_activate_is_the_activation_request(
    lifecycle: Lifecycle,
    profile: WindowsProfile,
    before: Seq<NativeCall>,
    after_activate: Seq<NativeCall>,
    r_activate: Result<(), CapsuleError>,
    after_request: Seq<NativeCall>,
    r_request: Result<(), CapsuleError>,
)
    requires
        request_effect(lifecycle, profile, "activation"@, NativeRequest::Activate, before, after_activate, r_activate),
        request_effect(lifecycle, profile, "activation"@, NativeRequest::Activate, before, after_request, r_request),
        after_activate.len() > before.len() ==> after_activate.last() == after_request.last(),
    ensures
        same_outcome(r_activate, r_request),
        after_activate == after_request,
{
    if lifecycle_refusal(lifecycle) is None && profile.grants_capability("platform/"@ + "activation"@) {
        assert(after_activate.last() == NativeCall::Dispatch(NativeRequest::Activate, native_answer(r_activate)));
        assert(after_request.last() == NativeCall::Dispatch(NativeRequest::Activate, native_answer(r_request)));
    }
}

/// The refusal, if any, that the lifecycle gives before any native work.
pub open spec fn lifecycle_refusal(lifecycle: Lifecycle) -> Option<CapsuleError> {
    match lifecycle {
        Lifecycle::Suspended => Some(CapsuleError::Suspended),
        Lifecycle::Stopped => Some(CapsuleError::Stopped),
        _ => None,
    }
}

/// A capability-gated native membrane over explicit mounts, authority and budgets.
pub struct WindowsCapsule<N: NativeServices> {
    native: N,
    profile: WindowsProfile,
    lifecycle: Lifecycle,
}

impl<N: NativeServices> WindowsCapsule<N> {
    /// The native services.
    pub closed spec fn native_state(&self) -> N {
        self.native
    }

    /// The profile the capsule was built with.
    pub closed spec fn profile_state(&self) -> WindowsProfile {
        self.profile
    }

    /// The lifecycle.
    pub closed spec fn lifecycle_state(&self) -> Lifecycle {
        self.lifecycle
    }

    /// Construct a capsule from explicit mounts, authority and budgets,
    /// refusing unbounded process or output profiles.
    pub fn new(native: N, profile: WindowsProfile) -> (r: Result<Self, CapsuleError>)
        ensures
            profile.bounded() ==> (r matches Ok(c) && c.native_state() == native
                && c.profile_state() == profile && c.lifecycle_state() == Lifecycle::Ready),
            !profile.bounded() ==> r matches Err(CapsuleError::InvalidBudget),
    {
        if profile.max_processes == 0 || profile.max_processes > MAX_PROCESSES
            || profile.max_output_bytes == 0 || profile.max_output_bytes > MAX_OUTPUT_BYTES {
            return Err(CapsuleError::InvalidBudget);
        }
        Ok(WindowsCapsule { native, profile, lifecycle: Lifecycle::Ready })
    }

    pub fn lifecycle(&self) -> (r: Lifecycle)
        ensures
            r == self.lifecycle_state(),
    {
        self.lifecycle
    }

    /// Resolve a named preopen and normalize the path only at the Table/Dir boundary.
    pub fn resolve_preopen(&self, name: &str, relative: &[u16]) -> (r: Result<
        WindowsPath,
        CapsuleError,
    >)
        ensures
            !self.profile_state().has_preopen(name@) ==> (r matches Err(
                CapsuleError::UnknownPreopen(n),
            ) && n@ == name@),
            self.profile_state().has_preopen(name@) ==> match spec_path(relative@) {
                Ok((api, identity)) => r matches Ok(p) && p.units() == api && p.identity_text()
                    == identity,
                Err(_) => r matches Err(CapsuleError::Native(m)) && m@ == "invalid table path"@,
            },
    {
        let mut known = false;
        for i in 0..self.profile.preopened_dirs.len()
            invariant
                known <==> exists|j: int|
                    0 <= j < i && #[trigger] self.profile.preopened_dirs@[j].0@ == name@,
        {
            if crate::text::str_eq(self.profile.preopened_dirs[i].0.as_str(), name) {
                known = true;
            }
        }
        if !known {
            return Err(CapsuleError::UnknownPreopen(name.to_owned()));
        }
        match WindowsPath::from_table_units(relative) {
            Ok(p) => Ok(p),
            Err(_) => {
                let m = "invalid table path";
                proof {
                    reveal_strlit("invalid table path");
                }
                Err(CapsuleError::Native(m))
            },
        }
    }

    /// Dispatch a capability-gated service request: an inactive lifecycle or a
    /// missing `platform/<service>` grant refuses it before any native work.
    pub fn request(&mut self, service: &str, request: NativeRequest) -> (r: Result<(), CapsuleError>)
        ensures
            final(self).profile_state() == old(self).profile_state(),
            final(self).lifecycle_state() == old(self).lifecycle_state(),
            lifecycle_refusal(old(self).lifecycle_state()) is Some ==> final(self).native_state()
                == old(self).native_state(),
            request_effect(
                old(self).lifecycle_state(),
                old(self).profile_state(),
                service@,
                request,
                old(self).native_state().calls(),
                final(self).native_state().calls(),
                r,
            ),
    {
        if let Some(e) = self.refusal() {
            return Err(e);
        }
        let required = crate::package::concat("platform/", service);
        if !crate::scan::contains_str(&self.profile.grants, required.as_str()) {
            return Err(CapsuleError::MissingCapability(required));
        }
        let answer = self.native.dispatch(request);
        match answer {
            Ok(u) => {
                assert(u == ());
                Ok(())
            },
            Err(m) => {
                let r = Err(CapsuleError::Native(m));
                assert(native_answer(r) == answer);
                r
            },
        }
    }

    /// Enter the active lifecycle through the ordinary activation service,
    /// under the same capability gate as every other request.
    pub fn activate(&mut self) -> (r: Result<(), CapsuleError>)
        ensures
            final(self).profile_state() == old(self).profile_state(),
            final(self).lifecycle_state() == if r is Ok {
                Lifecycle::Active
            } else {
                old(self).lifecycle_state()
            },
            lifecycle_refusal(old(self).lifecycle_state()) is Some ==> final(self).native_state()
                == old(self).native_state(),
            request_effect(
                old(self).lifecycle_state(),
                old(self).profile_state(),
                "activation"@,
                NativeRequest::Activate,
                old(self).native_state().calls(),
                final(self).native_state().calls(),
                r,
            ),
    {
        proof {
            reveal_strlit("activation");
            reveal_strlit("platform/");
            reveal_strlit("platform/activation");
            assert("platform/"@ + "activation"@ =~= "platform/activation"@);
        }
        match self.request("activation", NativeRequest::Activate) {
            Ok(()) => {
                self.lifecycle = Lifecycle::Active;
                Ok(())
            },
            Err(e) => Err(e),
        }
    }

    /// Cancel the entire bounded job-object process tree.
    pub fn cancel_process_tree(&mut self) -> (r: Result<(), CapsuleError>)
        ensures
            final(self).profile_state() == old(self).profile_state(),
            final(self).lifecycle_state() == old(self).lifecycle_state(),
            match lifecycle_refusal(old(self).lifecycle_state()) {
                Some(e) => r == Err::<(), CapsuleError>(e) && final(self).native_state() == old(self).native_state(),
                None => r is Ok && final(self).native_state().calls() == old(self).native_state().calls().push(
                    NativeCall::CancelProcessTree,
                ),
            },
    {
        if let Some(e) = self.refusal() {
            return Err(e);
        }
        self.native.cancel_process_tree();
        Ok(())
    }

    /// Suspend a running capsule without discarding its bounded state.
    pub fn suspend(&mut self) -> (r: Result<(), CapsuleError>)
        ensures
            final(self).profile_state() == old(self).profile_state(),
            final(self).native_state() == old(self).native_state(),
            match lifecycle_refusal(old(self).lifecycle_state()) {
                Some(e) => r == Err::<(), CapsuleError>(e) && final(self).lifecycle_state() == old(self).lifecycle_state(),
                None => r is Ok && final(self).lifecycle_state() == Lifecycle::Suspended,
            },
    {
        if let Some(e) = self.refusal() {
            return Err(e);
        }
        self.lifecycle = Lifecycle::Suspended;
        Ok(())
    }

    /// Resume a suspended capsule into its ready lifecycle; a running capsule
    /// stays as it is and a stopped one is refused.
    pub fn resume(&mut self) -> (r: Result<(), CapsuleError>)
        ensures
            final(self).profile_state() == old(self).profile_state(),
            final(self).native_state() == old(self).native_state(),
            old(self).lifecycle_state() == Lifecycle::Suspended ==> r is Ok && final(self).lifecycle_state() == Lifecycle::Ready,
            old(self).lifecycle_state() == Lifecycle::Stopped ==> (r matches Err(CapsuleError::Stopped)
                && final(self).lifecycle_state() == Lifecycle::Stopped),
            lifecycle_refusal(old(self).lifecycle_state()) is None ==> r is Ok && final(self).lifecycle_state() == old(self).lifecycle_state(),
    {
        if self.lifecycle == Lifecycle::Suspended {
            self.lifecycle = Lifecycle::Ready;
            Ok(())
        } else {
            match self.refusal() {
                Some(e) => Err(e),
                None => Ok(()),
            }
        }
    }

    /// Stop the capsule, cleaning up native state once; stopping again does nothing.
    pub fn stop(&mut self)
        ensures
            final(self).profile_state() == old(self).profile_state(),
            final(self).lifecycle_state() == Lifecycle::Stopped,
            old(self).lifecycle_state() == Lifecycle::Stopped ==> final(self).native_state() == old(self).native_state(),
            old(self).lifecycle_state() != Lifecycle::Stopped ==> final(self).native_state().calls()
                == old(self).native_state().calls().push(NativeCall::Cleanup),
    {
        if self.lifecycle != Lifecycle::Stopped {
            self.native.cleanup();
            self.lifecycle = Lifecycle::Stopped;
        }
    }

    fn refusal(&self) -> (r: Option<CapsuleError>)
        ensures
            r == lifecycle_refusal(self.lifecycle_state()),
    {
        match self.lifecycle {
            Lifecycle::Suspended => Some(CapsuleError::Suspended),
            Lifecycle::Stopped => Some(CapsuleError::Stopped),
            _ => None,
        }
    }
}


// ---------------------------------------------------------------- package

/// One file of the unsigned package.
#[derive(Clone, Debug, PartialEq, Eq)]
pub struct PackageFile {
    pub path: String,
    pub content_digest: String,
    pub bytes: Vec<u8>,
}

/// The deterministic unsigned package: its files sorted by path and an
/// identity over their content digests.
#[derive(Clone, Debug, PartialEq, Eq)]
pub struct UnsignedPackage {
    pub schema: String,
    pub target: String,
    pub identity: String,
    pub files: Vec<PackageFile>,
}

/// Mathematical form of a [`PackageFile`].
pub struct FileView {
    pub path: Seq<char>,
    pub content_digest: Seq<char>,
    pub bytes: Seq<u8>,
}

/// Mathematical form of an [`UnsignedPackage`].
pub struct PackageView {
    pub schema: Seq<char>,
    pub target: Seq<char>,
    pub identity: Seq<char>,
    pub files: Seq<FileView>,
}

impl View for PackageFile {
    type V = FileView;

    open spec fn view(&self) -> FileView {
        FileView { path: self.path@, content_digest: self.content_digest@, bytes: self.bytes@ }
    }
}

impl View for UnsignedPackage {
    type V = PackageView;

    open spec fn view(&self) -> PackageView {
        PackageView {
            schema: self.schema@,
            target: self.target@,
            identity: self.identity@,
            files: self.files@.map_values(|f: PackageFile| f@),
        }
    }
}

/// A file at `path` holding `bytes`, with their stable digest.
pub open spec fn package_file(path: Seq<char>, bytes: Seq<u8>) -> FileView {
    FileView { path, content_digest: spec_stable_digest(bytes), bytes }
}

/// The UTF-8 bytes of the files' content digests, one after another.
pub open spec fn digest_bytes(files: Seq<FileView>) -> Seq<u8>
    decreases files.len(),
{
    if files.len() == 0 {
        Seq::empty()
    } else {
        digest_bytes(files.drop_last()) + encode_utf8(files.last().content_digest)
    }
}

pub const ARTIFACT_NAME: &'static str = "sim-platform-windows.dll";
pub const SHELL: &'static str = "shell/windows-app";

/// The package files, sorted by path: the application manifest, the capsule
/// artifact, the rind, the bundle descriptor and the capsule card.
pub open spec fn package_files(rind: Seq<u8>, capsule: Seq<u8>, appx_manifest: Seq<u8>) -> Seq<
    FileView,
> {
    seq![
        package_file("AppxManifest.xml"@, appx_manifest),
        package_file(ARTIFACT_NAME@, capsule),
        package_file("sim.exe"@, rind),
        package_file(
            "sim.platform-bundle.toml"@,
            encode_utf8(
                crate::package::bundle_descriptor(
                    CAPSULE_CARD_NAME@,
                    ARTIFACT_NAME@,
                    spec_stable_digest(capsule),
                    NATIVE_ABI_ENTRY@,
                    SHELL@,
                ),
            ),
        ),
        package_file(
            CAPSULE_CARD_NAME@,
            encode_utf8(
                crate::package::capsule_card(
                    "platform/site/windows"@,
                    SHELL@,
                    spec_service_names(),
                ),
            ),
        ),
    ]
}

/// The unsigned package assembled beside its card, permissions, shell and rind.
pub open spec fn unsigned_package(rind: Seq<u8>, capsule: Seq<u8>, appx_manifest: Seq<u8>) -> PackageView {
    let files = package_files(rind, capsule, appx_manifest);
    PackageView {
        schema: "sim.platform-package/v1"@,
        target: TARGET@,
        identity: spec_stable_digest(digest_bytes(files)),
        files,
    }
}

fn file(path: &str, bytes: Vec<u8>) -> (r: PackageFile)
    ensures
        r@ == package_file(path@, bytes@),
{
    let content_digest = stable_digest(bytes.as_slice());
    PackageFile { path: path.to_owned(), content_digest, bytes }
}

fn text_bytes(text: &str) -> (r: Vec<u8>)
    ensures
        r@ == encode_utf8(text@),
{
    let mut out: Vec<u8> = Vec::new();
    crate::package::append_bytes(&mut out, text.as_bytes());
    assert(out@ =~= encode_utf8(text@));
    out
}

/// Assemble the deterministic package beside its card, permissions, shell and
/// rind. `appx_manifest` is the application manifest shipped with the package.
pub fn build_unsigned_package(rind: Vec<u8>, capsule: Vec<u8>, appx_manifest: Vec<u8>) -> (r:
    UnsignedPackage)
    ensures
        r@ == unsigned_package(rind@, capsule@, appx_manifest@),
{
    let ghost expected = package_files(rind@, capsule@, appx_manifest@);
    let names = service_names();
    let card = crate::package::capsule_card_text("platform/site/windows", SHELL, &names);
    let artifact_digest = stable_digest(capsule.as_slice());
    let descriptor = crate::package::bundle_descriptor_text(
        CAPSULE_CARD_NAME,
        ARTIFACT_NAME,
        artifact_digest.as_str(),
        NATIVE_ABI_ENTRY,
        SHELL,
    );
    let mut files: Vec<PackageFile> = Vec::new();
    files.push(file("AppxManifest.xml", appx_manifest));
    files.push(file(ARTIFACT_NAME, capsule));
    files.push(file("sim.exe", rind));
    files.push(file("sim.platform-bundle.toml", text_bytes(descriptor.as_str())));
    files.push(file(CAPSULE_CARD_NAME, text_bytes(card.as_str())));
    assert(files@.map_values(|f: PackageFile| f@) =~= expected);
    let mut source: Vec<u8> = Vec::new();
    for i in 0..files.len()
        invariant
            files@.map_values(|f: PackageFile| f@) == expected,
            source@ == digest_bytes(expected.take(i as int)),
    {
        assert(expected.take(i + 1).drop_last() =~= expected.take(i as int));
        assert(files@.map_values(|f: PackageFile| f@)[i as int] == files@[i as int]@);
        crate::package::append_bytes(&mut source, files[i].content_digest.as_str().as_bytes());
    }
    assert(expected.take(files@.len() as int) =~= expected);
    let identity = stable_digest(source.as_slice());
    UnsignedPackage {
        schema: "sim.platform-package/v1".to_owned(),
        target: TARGET.to_owned(),
        identity,
        files,
    }
}

} // verus!
