//! WASI component capsule: the closed import profile, the capability-gated
//! membrane over an explicit profile, and the WASI platform card.
use vstd::prelude::*;
use crate::digest::{spec_stable_digest, stable_digest};
use crate::package::append_bytes;
use crate::records::{card, symbol, CardView, EvidenceLevel, FactPort, OfferView, PlatformCard, ServiceOffer};
use crate::scan::{contains_str, contains_text};
use crate::text::str_eq;

verus! {

/// Content reference supplied by a bundle. There is no path-valued variant.
#[derive(Clone, Debug, PartialEq, Eq, PartialOrd, Ord)]
pub enum PreopenRef {
    Table { table: String, key: String },
    Dir { table: String, key: String },
}

/// Existing service reached by one admitted WASI import.
#[derive(Clone, Copy, Debug, PartialEq, Eq, PartialOrd, Ord, Structural)]
pub enum CanonicalService {
    PreopenedDirectories,
    WallClock,
    MonotonicClock,
    Entropy,
    Sockets,
    Lifecycle,
}

/// The canonical identity a service is offered under.
pub open spec fn spec_identity(s: CanonicalService) -> Seq<char> {
    match s {
        CanonicalService::PreopenedDirectories => "storage/table-dir"@,
        CanonicalService::WallClock => "platform/wall-clock"@,
        CanonicalService::MonotonicClock => "platform/monotonic"@,
        CanonicalService::Entropy => "platform/entropy"@,
        CanonicalService::Sockets => "transport/socket"@,
        CanonicalService::Lifecycle => "platform/lifecycle"@,
    }
}

/// The capability a bundle must carry to reach a service.
pub open spec fn spec_capability(s: CanonicalService) -> Seq<char> {
    match s {
        CanonicalService::PreopenedDirectories => "storage/preopen"@,
        CanonicalService::WallClock => "platform/wall-clock"@,
        CanonicalService::MonotonicClock => "platform/monotonic"@,
        CanonicalService::Entropy => "platform/entropy"@,
        CanonicalService::Sockets => "transport/socket"@,
        CanonicalService::Lifecycle => "platform/lifecycle"@,
    }
}

impl CanonicalService {
    pub fn identity(self) -> (r: &'static str)
        ensures
            r@ == spec_identity(self),
    {
        match self {
            CanonicalService::PreopenedDirectories => "storage/table-dir",
            CanonicalService::WallClock => "platform/wall-clock",
            CanonicalService::MonotonicClock => "platform/monotonic",
            CanonicalService::Entropy => "platform/entropy",
            CanonicalService::Sockets => "transport/socket",
            CanonicalService::Lifecycle => "platform/lifecycle",
        }
    }

    pub fn capability(self) -> (r: &'static str)
        ensures
            r@ == spec_capability(self),
    {
        match self {
            CanonicalService::PreopenedDirectories => "storage/preopen",
            CanonicalService::WallClock => "platform/wall-clock",
            CanonicalService::MonotonicClock => "platform/monotonic",
            CanonicalService::Entropy => "platform/entropy",
            CanonicalService::Sockets => "transport/socket",
            CanonicalService::Lifecycle => "platform/lifecycle",
        }
    }
}

/// Each service is gated by a capability of its own: two different services
/// never share a capability, so granting one never reaches another.
pub proof fn law_capability_is_injective(a: CanonicalService, b: CanonicalService)
    ensures
        spec_capability(a) == spec_capability(b) ==> a == b,
{
    reveal_strlit("storage/preopen");
    reveal_strlit("platform/wall-clock");
    reveal_strlit("platform/monotonic");
    reveal_strlit("platform/entropy");
    reveal_strlit("transport/socket");
    reveal_strlit("platform/lifecycle");
    if a != b {
        let (x, y) = (spec_capability(a), spec_capability(b));
        assert(x.len() != y.len() || x[0] != y[0] || x[9] != y[9]);
    }
}

/// Every service but the preopened directories is gated by the very name it
/// is offered under: the clocks, entropy, sockets and lifecycle each need the
/// capability that names them.
pub proof fn law_capability_names_its_service(s: CanonicalService)
    requires
        s != CanonicalService::PreopenedDirectories,
    ensures
        spec_capability(s) == spec_identity(s),
{
}

/// A profile that grants only the capability of service `a` lets `require`
/// through for `a` and for no other service.
pub proof fn law_one_grant_reaches_one_service(
    capabilities: Seq<String>,
    a: CanonicalService,
    b: CanonicalService,
)
    requires
        capabilities.len() > 0,
        forall|i: int| 0 <= i < capabilities.len() ==> #[trigger] capabilities[i]@ == spec_capability(a),
    ensures
        contains_text(capabilities, spec_capability(b)) <==> b == a,
{
    law_capability_is_injective(a, b);
    if b == a {
        assert(capabilities[0]@ == spec_capability(b));
    }
}

/// One exact artifact import beside the canonical SIM service it realizes.
#[derive(Clone, Copy, Debug, PartialEq, Eq)]
pub struct ImportDeclaration {
    pub module: &'static str,
    pub name: &'static str,
    pub service: CanonicalService,
}

/// Module, name and service of a declaration.
pub open spec fn declaration_view(d: ImportDeclaration) -> (Seq<char>, Seq<char>, CanonicalService) {
    (d.module@, d.name@, d.service)
}

/// Module, name and service of each declaration.
pub open spec fn declaration_views(ds: Seq<ImportDeclaration>) -> Seq<
    (Seq<char>, Seq<char>, CanonicalService),
> {
    ds.map_values(|d: ImportDeclaration| declaration_view(d))
}

/// The closed component profile. Extending the WASI surface requires an
/// explicit source change and cannot happen through host feature discovery.
pub open spec fn spec_allowed_imports() -> Seq<(Seq<char>, Seq<char>, CanonicalService)> {
    seq![
        ("wasi:filesystem/preopens@0.2.0"@, "get-directories"@, CanonicalService::PreopenedDirectories),
        ("wasi:clocks/wall-clock@0.2.0"@, "now"@, CanonicalService::WallClock),
        ("wasi:clocks/monotonic-clock@0.2.0"@, "now"@, CanonicalService::MonotonicClock),
        ("wasi:random/random@0.2.0"@, "get-random-bytes"@, CanonicalService::Entropy),
        ("wasi:sockets/tcp@0.2.0"@, "start-connect"@, CanonicalService::Sockets),
        ("wasi:cli/exit@0.2.0"@, "exit"@, CanonicalService::Lifecycle),
    ]
}

/// The admitted imports, in profile order.
pub fn allowed_imports() -> (r: Vec<ImportDeclaration>)
    ensures
        declaration_views(r@) == spec_allowed_imports(),
{
    let r = vec![
        ImportDeclaration {
            module: "wasi:filesystem/preopens@0.2.0",
            name: "get-directories",
            service: CanonicalService::PreopenedDirectories,
        },
        ImportDeclaration {
            module: "wasi:clocks/wall-clock@0.2.0",
            name: "now",
            service: CanonicalService::WallClock,
        },
        ImportDeclaration {
            module: "wasi:clocks/monotonic-clock@0.2.0",
            name: "now",
            service: CanonicalService::MonotonicClock,
        },
        ImportDeclaration {
            module: "wasi:random/random@0.2.0",
            name: "get-random-bytes",
            service: CanonicalService::Entropy,
        },
        ImportDeclaration {
            module: "wasi:sockets/tcp@0.2.0",
            name: "start-connect",
            service: CanonicalService::Sockets,
        },
        ImportDeclaration {
            module: "wasi:cli/exit@0.2.0",
            name: "exit",
            service: CanonicalService::Lifecycle,
        },
    ];
    assert(declaration_views(r@) =~= spec_allowed_imports());
    r
}

/// The first entry of `allowed` with this module and name.
pub open spec fn find_declaration(
    allowed: Seq<(Seq<char>, Seq<char>, CanonicalService)>,
    module: Seq<char>,
    name: Seq<char>,
) -> Option<(Seq<char>, Seq<char>, CanonicalService)>
    decreases allowed.len(),
{
    if allowed.len() == 0 {
        None
    } else if allowed[0].0 == module && allowed[0].1 == name {
        Some(allowed[0])
    } else {
        find_declaration(allowed.drop_first(), module, name)
    }
}

/// The profile entry admitting an import, if any.
pub open spec fn declared(import: (Seq<char>, Seq<char>)) -> Option<
    (Seq<char>, Seq<char>, CanonicalService),
> {
    find_declaration(spec_allowed_imports(), import.0, import.1)
}

/// The profile entries of imports that are all admitted.
pub open spec fn admitted_entries(imports: Seq<(Seq<char>, Seq<char>)>) -> Seq<
    (Seq<char>, Seq<char>, CanonicalService),
> {
    imports.map_values(|p: (Seq<char>, Seq<char>)| declared(p)->Some_0)
}

/// Position of the first import that no profile entry admits.
pub open spec fn first_undeclared(imports: Seq<(Seq<char>, Seq<char>)>) -> Option<int>
    decreases imports.len(),
{
    if imports.len() == 0 {
        None
    } else {
        match first_undeclared(imports.drop_last()) {
            Some(i) => Some(i),
            None => if declared(imports.last()) is None {
                Some(imports.len() - 1)
            } else {
                None
            },
        }
    }
}

/// The imports of an artifact as text pairs.
pub open spec fn import_views(imports: Seq<(String, String)>) -> Seq<(Seq<char>, Seq<char>)> {
    imports.map_values(|p: (String, String)| (p.0@, p.1@))
}

/// Module and name of every import a core Wasm artifact declares, in section
/// order, as far as the artifact can be read, and the reader's message for the
/// first malformed part, if any.
pub uninterp spec fn wasm_import_scan(bytes: Seq<u8>) -> (Seq<(Seq<char>, Seq<char>)>, Option<Seq<char>>);

/// The text of an optional message.
pub open spec fn message_view(m: Option<String>) -> Option<Seq<char>> {
    match m {
        Some(s) => Some(s@),
        None => None,
    }
}

/// `wasmparser::Parser::parse_all` over `bytes`, with every import section
/// read through `into_imports`: the imports read before the first reader
/// error, and that error's message. What the parser reads is left to the name
/// `wasm_import_scan`, a function of the bytes alone.
#[verifier::external_body]
fn scan_imports(bytes: &[u8]) -> (r: (Vec<(String, String)>, Option<String>))
    ensures
        (import_views(r.0@), message_view(r.1)) == wasm_import_scan(bytes@),
{
    let mut imports = Vec::new();
    for payload in wasmparser::Parser::new(0).parse_all(bytes) {
        match payload {
            Err(error) => return (imports, Some(error.to_string())),
            Ok(wasmparser::Payload::ImportSection(section)) => for import in section.into_imports() {
                match import {
                    Ok(import) => imports.push((import.module.to_owned(), import.name.to_owned())),
                    Err(error) => return (imports, Some(error.to_string())),
                }
            },
            Ok(_) => {},
        }
    }
    (imports, None)
}

#[derive(Clone, Debug, PartialEq, Eq)]
pub enum WasiRefusal {
    MalformedArtifact(String),
    UndeclaredImport { module: String, name: String },
    CapabilityDenied { capability: &'static str },
    UnsupportedService { service: String },
    UnknownPreopen { name: String },
    UnknownSocket { endpoint: String },
}

/// What admitting the scanned imports gives: the first undeclared import is
/// refused; otherwise a reader error refuses the artifact as malformed;
/// otherwise every import is admitted with its profile entry, in order.
pub open spec fn admits(
    imports: Seq<(Seq<char>, Seq<char>)>,
    error: Option<Seq<char>>,
    r: Result<Vec<ImportDeclaration>, WasiRefusal>,
) -> bool {
    match first_undeclared(imports) {
        Some(i) => r matches Err(WasiRefusal::UndeclaredImport { module, name }) && module@
            == imports[i].0 && name@ == imports[i].1,
        None => match error {
            Some(e) => r matches Err(WasiRefusal::MalformedArtifact(m)) && m@ == e,
            None => r matches Ok(ds) && declaration_views(ds@) == admitted_entries(imports),
        },
    }
}

fn lookup(allowed: &Vec<ImportDeclaration>, module: &str, name: &str) -> (r: Option<
    ImportDeclaration,
>)
    requires
        declaration_views(allowed@) == spec_allowed_imports(),
    ensures
        match declared((module@, name@)) {
            Some(v) => r matches Some(d) && declaration_view(d) == v,
            None => r is None,
        },
{
    let ghost all = spec_allowed_imports();
    assert(all.skip(0) =~= all);
    for i in 0..allowed.len()
        invariant
            declaration_views(allowed@) == all,
            all == spec_allowed_imports(),
            find_declaration(all, module@, name@) == find_declaration(
                all.skip(i as int),
                module@,
                name@,
            ),
    {
        let d = allowed[i];
        assert(all.skip(i as int)[0] == declaration_view(d));
        assert(all.skip(i as int).drop_first() =~= all.skip(i + 1));
        if str_eq(d.module, module) && str_eq(d.name, name) {
            return Some(d);
        }
    }
    assert(all.skip(allowed@.len() as int).len() == 0);
    None
}

/// Admit scanned imports against the closed profile, as [`admits`] states.
pub fn admit_imports(imports: &Vec<(String, String)>, error: Option<String>) -> (r: Result<
    Vec<ImportDeclaration>,
    WasiRefusal,
>)
    ensures
        admits(import_views(imports@), message_view(error), r),
{
    let ghost views = import_views(imports@);
    let allowed = allowed_imports();
    let mut admitted: Vec<ImportDeclaration> = Vec::new();
    for i in 0..imports.len()
        invariant
            views == import_views(imports@),
            declaration_views(allowed@) == spec_allowed_imports(),
            first_undeclared(views.take(i as int)) is None,
            admitted@.len() == i,
            views.len() == imports@.len(),
            declaration_views(admitted@) == admitted_entries(views.take(i as int)),
    {
        assert(views.take(i + 1).drop_last() =~= views.take(i as int));
        assert(views[i as int] == (imports@[i as int].0@, imports@[i as int].1@));
        match lookup(&allowed, imports[i].0.as_str(), imports[i].1.as_str()) {
            Some(d) => {
                let ghost before = admitted@;
                assert(declared(views[i as int]) == Some(declaration_view(d)));
                admitted.push(d);
                assert(admitted@ == before.push(d));
                assert forall|j: int| 0 <= j <= i implies #[trigger] declaration_views(admitted@)[j]
                    == admitted_entries(views.take(i + 1))[j] by {
                    if j < i {
                        assert(declaration_views(before)[j] == admitted_entries(views.take(i as int))[j]);
                        assert(views.take(i as int)[j] == views.take(i + 1)[j]);
                    } else {
                        assert(views.take(i + 1)[j] == views[j]);
                        assert(admitted@[j] == d);
                    }
                }
                assert(declaration_views(admitted@) =~= admitted_entries(views.take(i + 1)));
            },
            None => {
                proof {
                    assert(first_undeclared(views.take(i + 1)) == Some(i as int));
                    lemma_first_undeclared_prefix(views, i + 1);
                }
                return Err(
                    WasiRefusal::UndeclaredImport {
                        module: imports[i].0.clone(),
                        name: imports[i].1.clone(),
                    },
                );
            },
        }
    }
    assert(views.take(views.len() as int) =~= views);
    match error {
        Some(m) => Err(WasiRefusal::MalformedArtifact(m)),
        None => Ok(admitted),
    }
}

proof fn lemma_first_undeclared_prefix(s: Seq<(Seq<char>, Seq<char>)>, k: int)
    requires
        0 <= k <= s.len(),
        first_undeclared(s.take(k)) is Some,
    ensures
        first_undeclared(s) == first_undeclared(s.take(k)),
    decreases s.len() - k,
{
    if k < s.len() {
        assert(s.take(k + 1).drop_last() =~= s.take(k));
        lemma_first_undeclared_prefix(s, k + 1);
    } else {
        assert(s.take(k) =~= s);
    }
}

/// Inspect the complete core Wasm import section before instantiation,
/// refusing a malformed artifact and the first import the profile does not admit.
pub fn inspect_artifact(bytes: &[u8]) -> (r: Result<Vec<ImportDeclaration>, WasiRefusal>)
    ensures
        admits(wasm_import_scan(bytes@).0, wasm_import_scan(bytes@).1, r),
{
    let (imports, error) = scan_imports(bytes);
    admit_imports(&imports, error)
}


/// The entire discoverable authority of one activation. Preopens are looked up
/// by name, the first entry of a name winning; capabilities and endpoints by
/// exact text.
#[derive(Clone, Debug, PartialEq, Eq)]
pub struct WasiProfile {
    pub preopens: Vec<(String, PreopenRef)>,
    pub capabilities: Vec<String>,
    pub wall_clock_ticks: u64,
    pub monotonic_ticks: u64,
    pub entropy_seed: [u8; 32],
    pub socket_endpoints: Vec<String>,
}

/// Position of the first preopen named `name`.
pub open spec fn preopen_position(preopens: Seq<(String, PreopenRef)>, name: Seq<char>) -> Option<int>
    decreases preopens.len(),
{
    if preopens.len() == 0 {
        None
    } else {
        match preopen_position(preopens.drop_last(), name) {
            Some(i) => Some(i),
            None => if preopens.last().0@ == name {
                Some(preopens.len() - 1)
            } else {
                None
            },
        }
    }
}

/// No two preopens share a name, as in the name-keyed map a profile stands for.
pub open spec fn preopen_names_distinct(preopens: Seq<(String, PreopenRef)>) -> bool {
    forall|i: int, j: int| 0 <= i < j < preopens.len() ==> preopens[i].0@ != preopens[j].0@
}

proof fn lemma_preopen_position_names(preopens: Seq<(String, PreopenRef)>, name: Seq<char>)
    ensures
        preopen_position(preopens, name) matches Some(k) ==> 0 <= k < preopens.len()
            && preopens[k].0@ == name,
    decreases preopens.len(),
{
    if preopens.len() > 0 {
        lemma_preopen_position_names(preopens.drop_last(), name);
    }
}

/// With distinct names a profile is a map from name to preopen: the preopen
/// found for a name is the one entry of that name.
pub proof fn law_distinct_preopens_are_found_by_name(
    preopens: Seq<(String, PreopenRef)>,
    name: Seq<char>,
    i: int,
)
    requires
        preopen_names_distinct(preopens),
        0 <= i < preopens.len(),
        preopens[i].0@ == name,
    ensures
        preopen_position(preopens, name) == Some(i),
    decreases preopens.len(),
{
    let rest = preopens.drop_last();
    lemma_preopen_position_names(rest, name);
    if i < preopens.len() - 1 {
        assert(preopen_names_distinct(rest)) by {
            assert forall|a: int, b: int| 0 <= a < b < rest.len() implies rest[a].0@ != rest[b].0@ by {
                assert(rest[a] == preopens[a] && rest[b] == preopens[b]);
            }
        }
        assert(rest[i] == preopens[i]);
        law_distinct_preopens_are_found_by_name(rest, name, i);
    } else if let Some(k) = preopen_position(rest, name) {
        assert(rest[k] == preopens[k]);
    }
}

/// A capsule over one explicit profile; nothing is discovered from the host.
#[derive(Clone, Debug, PartialEq, Eq)]
pub struct WasiCapsule {
    profile: WasiProfile,
}

impl WasiCapsule {
    /// The profile the capsule was built with.
    pub closed spec fn profile_state(&self) -> WasiProfile {
        self.profile
    }

    pub fn new(profile: WasiProfile) -> (r: Self)
        ensures
            r.profile_state() == profile,
    {
        WasiCapsule { profile }
    }

    /// Resolve a named preopen without consulting the working directory, the
    /// environment or host paths.
    #[verifier::loop_isolation(false)]
    pub fn preopen(&self, name: &str) -> (r: Result<&PreopenRef, WasiRefusal>)
        ensures
            !contains_text(self.profile_state().capabilities@, "storage/preopen"@) ==> (r matches Err(
                WasiRefusal::CapabilityDenied { capability },
            ) && capability@ == "storage/preopen"@),
            contains_text(self.profile_state().capabilities@, "storage/preopen"@) ==> match preopen_position(
                self.profile_state().preopens@,
                name@,
            ) {
                Some(i) => r == Ok::<&PreopenRef, WasiRefusal>(&self.profile_state().preopens@[i].1),
                None => r matches Err(WasiRefusal::UnknownPreopen { name: n }) && n@ == name@,
            },
    {
        if let Err(e) = self.require(CanonicalService::PreopenedDirectories) {
            return Err(e);
        }
        for i in 0..self.profile.preopens.len()
            invariant
                preopen_position(self.profile.preopens@.take(i as int), name@) is None,
        {
            assert(self.profile.preopens@.take(i + 1).drop_last() =~= self.profile.preopens@.take(
                i as int,
            ));
            if str_eq(self.profile.preopens[i].0.as_str(), name) {
                proof {
                    lemma_preopen_prefix(self.profile.preopens@, i + 1);
                }
                return Ok(&self.profile.preopens[i].1);
            }
        }
        assert(self.profile.preopens@.take(self.profile.preopens@.len() as int)
            =~= self.profile.preopens@);
        Err(WasiRefusal::UnknownPreopen { name: name.to_owned() })
    }

    /// Resolve a declared endpoint; name resolution and interface discovery
    /// are not exposed.
    pub fn connect(&self, endpoint: &str) -> (r: Result<(), WasiRefusal>)
        ensures
            !contains_text(self.profile_state().capabilities@, "transport/socket"@) ==> (r matches Err(
                WasiRefusal::CapabilityDenied { capability },
            ) && capability@ == "transport/socket"@),
            contains_text(self.profile_state().capabilities@, "transport/socket"@) && contains_text(
                self.profile_state().socket_endpoints@,
                endpoint@,
            ) ==> r is Ok,
            contains_text(self.profile_state().capabilities@, "transport/socket"@) && !contains_text(
                self.profile_state().socket_endpoints@,
                endpoint@,
            ) ==> (r matches Err(WasiRefusal::UnknownSocket { endpoint: e }) && e@ == endpoint@),
    {
        if let Err(e) = self.require(CanonicalService::Sockets) {
            return Err(e);
        }
        if contains_str(&self.profile.socket_endpoints, endpoint) {
            Ok(())
        } else {
            Err(WasiRefusal::UnknownSocket { endpoint: endpoint.to_owned() })
        }
    }

    /// Capability-check a canonical service before its host adapter is invoked.
    pub fn require(&self, service: CanonicalService) -> (r: Result<(), WasiRefusal>)
        ensures
            contains_text(self.profile_state().capabilities@, spec_capability(service)) ==> r is Ok,
            !contains_text(self.profile_state().capabilities@, spec_capability(service)) ==> (r matches Err(
                WasiRefusal::CapabilityDenied { capability },
            ) && capability@ == spec_capability(service)),
    {
        let capability = service.capability();
        if contains_str(&self.profile.capabilities, capability) {
            Ok(())
        } else {
            Err(WasiRefusal::CapabilityDenied { capability })
        }
    }

    /// Typed refusal for services deliberately absent from the WASI card.
    pub fn unsupported(&self, service: &str) -> (r: WasiRefusal)
        ensures
            r matches WasiRefusal::UnsupportedService { service: s } && s@ == service@,
    {
        WasiRefusal::UnsupportedService { service: service.to_owned() }
    }

    /// Stable model result depending only on the explicit profile and the
    /// request: the stable digest of the profile's JSON serialization
    /// `profile_json` followed by `request`.
    pub fn model_digest(&self, profile_json: &[u8], request: &[u8]) -> (r: String)
        ensures
            r@ == spec_stable_digest(profile_json@ + request@),
    {
        let mut bytes: Vec<u8> = Vec::new();
        append_bytes(&mut bytes, profile_json);
        append_bytes(&mut bytes, request);
        stable_digest(bytes.as_slice())
    }
}

proof fn lemma_preopen_prefix(s: Seq<(String, PreopenRef)>, k: int)
    requires
        0 <= k <= s.len(),
        preopen_position(s.take(k), s[k - 1].0@) == Some(k - 1),
    ensures
        preopen_position(s, s[k - 1].0@) == Some(k - 1),
    decreases s.len() - k,
{
    if k < s.len() {
        assert(s.take(k + 1).drop_last() =~= s.take(k));
        assert(s.take(k + 1)[k - 1] == s[k - 1]);
        lemma_preopen_prefix_step(s, k);
    } else {
        assert(s.take(k) =~= s);
    }
}

proof fn lemma_preopen_prefix_step(s: Seq<(String, PreopenRef)>, k: int)
    requires
        0 < k <= s.len(),
        preopen_position(s.take(k), s[k - 1].0@) == Some(k - 1),
    ensures
        forall|m: int| k <= m <= s.len() ==> preopen_position(#[trigger] s.take(m), s[k - 1].0@) == Some(k - 1),
    decreases s.len() - k,
{
    assert forall|m: int| k <= m <= s.len() implies preopen_position(#[trigger] s.take(m), s[k - 1].0@)
        == Some(k - 1) by {
        lemma_preopen_take(s, k, m);
    }
}

proof fn lemma_preopen_take(s: Seq<(String, PreopenRef)>, k: int, m: int)
    requires
        0 < k <= m <= s.len(),
        preopen_position(s.take(k), s[k - 1].0@) == Some(k - 1),
    ensures
        preopen_position(s.take(m), s[k - 1].0@) == Some(k - 1),
    decreases m - k,
{
    if m > k {
        lemma_preopen_take(s, k, m - 1);
        assert(s.take(m).drop_last() =~= s.take(m - 1));
    }
}

/// The port a canonical service is offered through.
pub open spec fn service_port(s: CanonicalService) -> FactPort {
    match s {
        CanonicalService::WallClock => FactPort::WallClock,
        CanonicalService::MonotonicClock => FactPort::MonotonicClock,
        CanonicalService::Entropy => FactPort::Entropy,
        CanonicalService::Lifecycle => FactPort::LifecyclePressure,
        CanonicalService::PreopenedDirectories => FactPort::MachineLimits,
        CanonicalService::Sockets => FactPort::MachineLimits,
    }
}

/// The modeled offers of the admitted services, in profile order.
pub open spec fn wasi_offers() -> Seq<OfferView> {
    spec_allowed_imports().map_values(
        |d: (Seq<char>, Seq<char>, CanonicalService)|
            OfferView {
                service: spec_identity(d.2),
                port: service_port(d.2),
                evidence: EvidenceLevel::Modeled,
            },
    )
}

fn port_of(s: CanonicalService) -> (r: FactPort)
    ensures
        r == service_port(s),
{
    match s {
        CanonicalService::WallClock => FactPort::WallClock,
        CanonicalService::MonotonicClock => FactPort::MonotonicClock,
        CanonicalService::Entropy => FactPort::Entropy,
        CanonicalService::Lifecycle => FactPort::LifecyclePressure,
        CanonicalService::PreopenedDirectories => FactPort::MachineLimits,
        CanonicalService::Sockets => FactPort::MachineLimits,
    }
}

/// The card offers only the six canonical services; process creation, native
/// dynamic loading, UI, notifications and devices are absent. `profile_json`
/// is the JSON serialization of the profile, whose stable digest is the card's
/// content digest.
pub fn platform_card(profile: &WasiProfile, profile_json: &[u8]) -> (r: PlatformCard)
    ensures
        r@ == (CardView {
            schema: crate::records::CARD_SCHEMA@,
            site: "platform/site/wasi"@,
            contract: "contract/wasi-component-v1"@,
            content_digest: spec_stable_digest(profile_json@),
            issuer: crate::records::CARD_ISSUER@,
            services: wasi_offers(),
        }),
{
    let allowed = allowed_imports();
    let mut services: Vec<ServiceOffer> = Vec::new();
    for i in 0..allowed.len()
        invariant
            declaration_views(allowed@) == spec_allowed_imports(),
            services@.len() == i,
            forall|j: int| 0 <= j < i ==> #[trigger] services@[j]@ == wasi_offers()[j],
    {
        let service = allowed[i].service;
        assert(declaration_views(allowed@)[i as int] == declaration_view(allowed@[i as int]));
        services.push(ServiceOffer {
            service: symbol(service.identity()),
            port: port_of(service),
            evidence: EvidenceLevel::Modeled,
        });
    }
    assert(services@.map_values(|o: ServiceOffer| o@) =~= wasi_offers());
    let digest = stable_digest(profile_json);
    card("platform/site/wasi", "contract/wasi-component-v1", digest, services)
}

#[derive(Clone, Copy, Debug, PartialEq, Eq, Structural)]
pub enum EvidenceGrade {
    InMemory,
    RealRuntime,
}

#[derive(Clone, Debug, PartialEq, Eq)]
pub struct FrameEvidence {
    pub grade: EvidenceGrade,
    pub cases: usize,
    pub digest: String,
}

} // verus!
