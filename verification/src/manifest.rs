//! Pure, fail-closed manifest contracts: package roles, capsule records and
//! bundle descriptors.
use vstd::prelude::*;
use crate::text::{blank, is_blank, str_eq};
use crate::scan::{contains_str, contains_text};

verus! {

/// Architectures of the shared Ubuntu profile.
#[derive(Clone, Copy, Debug, PartialEq, Eq, Structural)]
pub enum UbuntuArchitecture {
    X86_64,
    Aarch64,
}

/// Desktop or headless Ubuntu.
#[derive(Clone, Copy, Debug, PartialEq, Eq, Structural)]
pub enum UbuntuProfileKind {
    Desktop,
    Headless,
}

/// Shared Ubuntu profile facts composed by concrete PC and Pi capsules.
#[derive(Clone, Copy, Debug, PartialEq, Eq, Structural)]
pub struct UbuntuProfile {
    pub architecture: UbuntuArchitecture,
    pub kind: UbuntuProfileKind,
}

/// The only accepted package classifications. Missing metadata is pure.
#[derive(Clone, Copy, Debug, PartialEq, Eq, Structural)]
pub enum PackageRole {
    SimPure,
    PlatformBootstrap,
    PlatformCapsule,
    HostTool,
}

impl Default for PackageRole {
    fn default() -> (r: Self)
        ensures
            r == PackageRole::SimPure,
    {
        PackageRole::SimPure
    }
}

/// Manifest and context refusals.
#[derive(Clone, Debug, PartialEq, Eq)]
pub enum ValidationError {
    Parse(String),
    WrongSchema { expected: &'static str, found: String },
    CapsuleOutsideOwner,
    DuplicateProvider(String),
    UndeclaredShell(String),
    NonCanonicalBootstrap(String),
    HostToolInProductClosure,
    UnknownRole(String),
    EmptyField(&'static str),
    WrongEntry(String),
    UnsupportedLoader(String),
}

/// Mathematical form of a [`ValidationError`], texts as character sequences.
pub enum ValidationFault {
    Parse(Seq<char>),
    WrongSchema { expected: Seq<char>, found: Seq<char> },
    CapsuleOutsideOwner,
    DuplicateProvider(Seq<char>),
    UndeclaredShell(Seq<char>),
    NonCanonicalBootstrap(Seq<char>),
    HostToolInProductClosure,
    UnknownRole(Seq<char>),
    EmptyField(Seq<char>),
    WrongEntry(Seq<char>),
    UnsupportedLoader(Seq<char>),
}

impl View for ValidationError {
    type V = ValidationFault;

    open spec fn view(&self) -> ValidationFault {
        match self {
            ValidationError::Parse(s) => ValidationFault::Parse(s@),
            ValidationError::WrongSchema { expected, found } => ValidationFault::WrongSchema {
                expected: expected@,
                found: found@,
            },
            ValidationError::CapsuleOutsideOwner => ValidationFault::CapsuleOutsideOwner,
            ValidationError::DuplicateProvider(s) => ValidationFault::DuplicateProvider(s@),
            ValidationError::UndeclaredShell(s) => ValidationFault::UndeclaredShell(s@),
            ValidationError::NonCanonicalBootstrap(s) => ValidationFault::NonCanonicalBootstrap(s@),
            ValidationError::HostToolInProductClosure => ValidationFault::HostToolInProductClosure,
            ValidationError::UnknownRole(s) => ValidationFault::UnknownRole(s@),
            ValidationError::EmptyField(s) => ValidationFault::EmptyField(s@),
            ValidationError::WrongEntry(s) => ValidationFault::WrongEntry(s@),
            ValidationError::UnsupportedLoader(s) => ValidationFault::UnsupportedLoader(s@),
        }
    }
}

/// Result of a check, in mathematical form.
pub open spec fn fault_of(r: Result<(), ValidationError>) -> Option<ValidationFault> {
    match r {
        Ok(_) => None,
        Err(e) => Some(e@),
    }
}

/// The role named by explicit metadata; `None` means `sim-pure`.
pub open spec fn spec_role(value: Option<Seq<char>>) -> Result<PackageRole, ValidationFault> {
    let name = match value {
        Some(s) => s,
        None => "sim-pure"@,
    };
    if name == "sim-pure"@ {
        Ok(PackageRole::SimPure)
    } else if name == "platform-bootstrap"@ {
        Ok(PackageRole::PlatformBootstrap)
    } else if name == "platform-capsule"@ {
        Ok(PackageRole::PlatformCapsule)
    } else if name == "host-tool"@ {
        Ok(PackageRole::HostTool)
    } else {
        Err(ValidationFault::UnknownRole(name))
    }
}

impl PackageRole {
    /// Parse explicit role metadata. `None` deliberately means `sim-pure`;
    /// any other unrecognized value is refused with `UnknownRole`.
    pub fn parse(value: Option<&str>) -> (r: Result<Self, ValidationError>)
        ensures
            match spec_role(
                match value {
                    Some(s) => Some(s@),
                    None => None,
                },
            ) {
                Ok(role) => r == Ok::<PackageRole, ValidationError>(role),
                Err(fault) => r matches Err(e) && e@ == fault,
            },
    {
        let name = match value {
            Some(s) => s,
            None => "sim-pure",
        };
        proof {
            if value is None {
                reveal_strlit("sim-pure");
            }
        }
        if str_eq(name, "sim-pure") {
            Ok(PackageRole::SimPure)
        } else if str_eq(name, "platform-bootstrap") {
            Ok(PackageRole::PlatformBootstrap)
        } else if str_eq(name, "platform-capsule") {
            Ok(PackageRole::PlatformCapsule)
        } else if str_eq(name, "host-tool") {
            Ok(PackageRole::HostTool)
        } else {
            Err(ValidationError::UnknownRole(name.to_owned()))
        }
    }
}

/// Context discovered from repository and package structure, not trusted input.
#[derive(Clone, Debug, PartialEq, Eq)]
pub struct ValidationContext<'a> {
    pub owner_repository: &'a str,
    pub declaring_repository: &'a str,
    pub bootstrap_packages: &'a [&'a str],
    pub product_closure_roles: &'a [PackageRole],
}

/// A capsule manifest record.
#[derive(Clone, Debug, PartialEq, Eq)]
pub struct CapsuleManifest {
    pub schema: String,
    pub provider: String,
    pub services: Vec<String>,
    pub shells: Vec<String>,
    /// Exact loader kinds implemented by this capsule.
    pub loader_kinds: Vec<String>,
}

/// A bundle descriptor record.
#[derive(Clone, Debug, PartialEq, Eq)]
pub struct BundleManifest {
    pub schema: String,
    pub capsule: String,
    pub artifact: String,
    /// Exact loader kind used to realize `artifact`.
    pub loader: String,
    pub artifact_content: String,
    pub entry: String,
    pub shell: Option<String>,
}

/// Schema tag of capsule records.
pub const CAPSULE_SCHEMA: &'static str = "sim.platform-capsule/v1";
/// Schema tag of bundle descriptors.
pub const BUNDLE_SCHEMA: &'static str = "sim.platform-bundle/v1";
/// The one canonical bootstrap package.
pub const CANONICAL_BOOTSTRAP: &'static str = "sim-platform-bootstrap";
/// The only entry symbol a bundle may name.
pub const NATIVE_ENTRY: &'static str = "sim_native_abi_v1";

/// The refusal, if any, of capsule `i` given the capsules before it: wrong
/// schema, blank provider, or a provider already declared earlier.
pub open spec fn capsule_fault(caps: Seq<CapsuleManifest>, i: int) -> Option<ValidationFault> {
    let c = caps[i];
    if c.schema@ != CAPSULE_SCHEMA@ {
        Some(ValidationFault::WrongSchema { expected: CAPSULE_SCHEMA@, found: c.schema@ })
    } else if blank(c.provider@) {
        Some(ValidationFault::EmptyField("provider"@))
    } else if exists|j: int| 0 <= j < i && #[trigger] caps[j].provider@ == c.provider@ {
        Some(ValidationFault::DuplicateProvider(c.provider@))
    } else {
        None
    }
}

/// The first of the first `n` bootstrap packages that is not the canonical one.
pub open spec fn first_noncanonical(bootstrap: Seq<Seq<char>>, n: int) -> Option<int>
    decreases n,
{
    if n <= 0 {
        None
    } else {
        match first_noncanonical(bootstrap, n - 1) {
            Some(i) => Some(i),
            None => if bootstrap[n - 1] != CANONICAL_BOOTSTRAP@ {
                Some(n - 1)
            } else {
                None
            },
        }
    }
}

/// The first of the first `n` capsules that is refused.
pub open spec fn first_capsule_fault(caps: Seq<CapsuleManifest>, n: int) -> Option<int>
    decreases n,
{
    if n <= 0 {
        None
    } else {
        match first_capsule_fault(caps, n - 1) {
            Some(i) => Some(i),
            None => if capsule_fault(caps, n - 1) is Some {
                Some(n - 1)
            } else {
                None
            },
        }
    }
}

proof fn lemma_first_noncanonical_stable(bootstrap: Seq<Seq<char>>, m: int, n: int)
    requires
        first_noncanonical(bootstrap, m) is Some,
        m <= n,
    ensures
        first_noncanonical(bootstrap, n) == first_noncanonical(bootstrap, m),
    decreases n - m,
{
    if m < n {
        lemma_first_noncanonical_stable(bootstrap, m, n - 1);
    }
}

proof fn lemma_first_capsule_fault_stable(caps: Seq<CapsuleManifest>, m: int, n: int)
    requires
        first_capsule_fault(caps, m) is Some,
        m <= n,
    ensures
        first_capsule_fault(caps, n) == first_capsule_fault(caps, m),
    decreases n - m,
{
    if m < n {
        lemma_first_capsule_fault_stable(caps, m, n - 1);
    }
}

proof fn lemma_no_capsule_fault_before(caps: Seq<CapsuleManifest>, n: int, i: int)
    requires
        first_capsule_fault(caps, n) is None,
        0 <= i < n,
    ensures
        capsule_fault(caps, i) is None,
    decreases n,
{
    if i < n - 1 {
        lemma_no_capsule_fault_before(caps, n - 1, i);
    }
}

proof fn lemma_first_capsule_fault_is_fault(caps: Seq<CapsuleManifest>, n: int)
    requires
        first_capsule_fault(caps, n) is Some,
    ensures
        0 <= first_capsule_fault(caps, n)->Some_0 < n,
        capsule_fault(caps, first_capsule_fault(caps, n)->Some_0) is Some,
    decreases n,
{
    if first_capsule_fault(caps, n - 1) is Some {
        lemma_first_capsule_fault_is_fault(caps, n - 1);
    }
}

proof fn lemma_all_canonical(bootstrap: Seq<Seq<char>>, n: int)
    requires
        0 <= n <= bootstrap.len(),
        forall|i: int| 0 <= i < bootstrap.len() ==> #[trigger] bootstrap[i] == CANONICAL_BOOTSTRAP@,
    ensures
        first_noncanonical(bootstrap, n) is None,
    decreases n,
{
    if n > 0 {
        lemma_all_canonical(bootstrap, n - 1);
    }
}

/// Capsules are only accepted under the capsule schema tag: validation that
/// succeeds has seen `CAPSULE_SCHEMA` on every capsule, and with an owned,
/// canonical, host-tool-free context a first capsule under any other tag is
/// refused as `WrongSchema`, naming the expected and the found tag.
pub proof fn law_capsules_carry_the_capsule_schema(
    owner: Seq<char>,
    declaring: Seq<char>,
    bootstrap: Seq<Seq<char>>,
    roles: Seq<PackageRole>,
    caps: Seq<CapsuleManifest>,
)
    ensures
        spec_validate_capsules(owner, declaring, bootstrap, roles, caps) is None ==> forall|i: int|
            0 <= i < caps.len() ==> #[trigger] caps[i].schema@ == CAPSULE_SCHEMA@,
        declaring == owner && (forall|i: int| 0 <= i < bootstrap.len() ==> #[trigger] bootstrap[i]
            == CANONICAL_BOOTSTRAP@) && !roles.contains(PackageRole::HostTool) && caps.len() > 0
            && caps[0].schema@ != CAPSULE_SCHEMA@ ==> spec_validate_capsules(
            owner,
            declaring,
            bootstrap,
            roles,
            caps,
        ) == Some(ValidationFault::WrongSchema { expected: CAPSULE_SCHEMA@, found: caps[0].schema@ }),
{
    if spec_validate_capsules(owner, declaring, bootstrap, roles, caps) is None {
        if first_capsule_fault(caps, caps.len() as int) is Some {
            lemma_first_capsule_fault_is_fault(caps, caps.len() as int);
        }
        assert forall|i: int| 0 <= i < caps.len() implies #[trigger] caps[i].schema@
            == CAPSULE_SCHEMA@ by {
            lemma_no_capsule_fault_before(caps, caps.len() as int, i);
        }
    }
    if declaring == owner && (forall|i: int| 0 <= i < bootstrap.len() ==> #[trigger] bootstrap[i]
        == CANONICAL_BOOTSTRAP@) && !roles.contains(PackageRole::HostTool) && caps.len() > 0
        && caps[0].schema@ != CAPSULE_SCHEMA@ {
        lemma_all_canonical(bootstrap, bootstrap.len() as int);
        assert(first_capsule_fault(caps, 0) is None);
        assert(first_capsule_fault(caps, 1) == Some(0int));
        lemma_first_capsule_fault_stable(caps, 1, caps.len() as int);
    }
}

/// What validating a context and a complete set of capsules gives: the first
/// ownership, bootstrap, closure-role, schema, provider or uniqueness refusal.
pub open spec fn spec_validate_capsules(
    owner: Seq<char>,
    declaring: Seq<char>,
    bootstrap: Seq<Seq<char>>,
    roles: Seq<PackageRole>,
    caps: Seq<CapsuleManifest>,
) -> Option<ValidationFault> {
    if declaring != owner {
        Some(ValidationFault::CapsuleOutsideOwner)
    } else if let Some(i) = first_noncanonical(bootstrap, bootstrap.len() as int) {
        Some(ValidationFault::NonCanonicalBootstrap(bootstrap[i]))
    } else if roles.contains(PackageRole::HostTool) {
        Some(ValidationFault::HostToolInProductClosure)
    } else if let Some(i) = first_capsule_fault(caps, caps.len() as int) {
        capsule_fault(caps, i)
    } else {
        None
    }
}

/// Validate discovered ownership plus a complete set of capsule records.
///
/// Returns the first ownership, role, schema, or provider-identity violation,
/// as [`spec_validate_capsules`] states.
#[verifier::loop_isolation(false)]
pub fn validate_capsules(context: &ValidationContext<'_>, capsules: &[CapsuleManifest]) -> (r:
    Result<(), ValidationError>)
    ensures
        fault_of(r) == spec_validate_capsules(
            context.owner_repository@,
            context.declaring_repository@,
            context.bootstrap_packages@.map_values(|s: &str| s@),
            context.product_closure_roles@,
            capsules@,
        ),
{
    let ghost bootstrap = context.bootstrap_packages@.map_values(|s: &str| s@);
    if !str_eq(context.declaring_repository, context.owner_repository) {
        return Err(ValidationError::CapsuleOutsideOwner);
    }
    let names = context.bootstrap_packages;
    for i in 0..names.len()
        invariant
            bootstrap == names@.map_values(|s: &str| s@),
            first_noncanonical(bootstrap, i as int) is None,
    {
        if !str_eq(names[i], CANONICAL_BOOTSTRAP) {
            assert(first_noncanonical(bootstrap, i + 1) == Some(i as int));
            proof {
                lemma_first_noncanonical_stable(bootstrap, i + 1, bootstrap.len() as int);
            }
            return Err(ValidationError::NonCanonicalBootstrap(names[i].to_owned()));
        }
        assert(first_noncanonical(bootstrap, i + 1) is None);
    }
    let roles = context.product_closure_roles;
    for i in 0..roles.len()
        invariant
            forall|j: int| 0 <= j < i ==> roles@[j] != PackageRole::HostTool,
    {
        if roles[i] == PackageRole::HostTool {
            assert(roles@[i as int] == PackageRole::HostTool);
            return Err(ValidationError::HostToolInProductClosure);
        }
    }
    assert(!roles@.contains(PackageRole::HostTool));
    let mut providers: Vec<String> = Vec::new();
    for i in 0..capsules.len()
        invariant
            first_capsule_fault(capsules@, i as int) is None,
            providers@.len() == i,
            forall|j: int| 0 <= j < i ==> #[trigger] providers@[j]@ == capsules@[j].provider@,
    {
        let capsule = &capsules[i];
        if !str_eq(capsule.schema.as_str(), CAPSULE_SCHEMA) {
            assert(first_capsule_fault(capsules@, i + 1) == Some(i as int));
            proof {
                lemma_first_capsule_fault_stable(capsules@, i + 1, capsules@.len() as int);
            }
            return Err(
                ValidationError::WrongSchema {
                    expected: CAPSULE_SCHEMA,
                    found: capsule.schema.clone(),
                },
            );
        }
        if is_blank(capsule.provider.as_str()) {
            assert(first_capsule_fault(capsules@, i + 1) == Some(i as int));
            proof {
                lemma_first_capsule_fault_stable(capsules@, i + 1, capsules@.len() as int);
            }
            return Err(ValidationError::EmptyField("provider"));
        }
        let seen = contains_str(&providers, capsule.provider.as_str());
        proof {
            if seen {
                let j = choose|j: int|
                    0 <= j < providers@.len() && #[trigger] providers@[j]@ == capsule.provider@;
                assert(capsules@[j].provider@ == capsules@[i as int].provider@);
            } else {
                assert forall|j: int| 0 <= j < i implies #[trigger] capsules@[j].provider@
                    != capsules@[i as int].provider@ by {
                    assert(providers@[j]@ == capsules@[j].provider@);
                }
            }
        }
        if seen {
            assert(first_capsule_fault(capsules@, i + 1) == Some(i as int));
            proof {
                lemma_first_capsule_fault_stable(capsules@, i + 1, capsules@.len() as int);
            }
            return Err(ValidationError::DuplicateProvider(capsule.provider.clone()));
        }
        assert(first_capsule_fault(capsules@, i + 1) is None);
        providers.push(capsule.provider.clone());
    }
    Ok(())
}

/// What validating a bundle against its selected capsule gives: the first
/// schema, blank-field, entry, loader or shell refusal.
pub open spec fn spec_validate_bundle(b: BundleManifest, c: CapsuleManifest) -> Option<
    ValidationFault,
> {
    if b.schema@ != BUNDLE_SCHEMA@ {
        Some(ValidationFault::WrongSchema { expected: BUNDLE_SCHEMA@, found: b.schema@ })
    } else if blank(b.capsule@) {
        Some(ValidationFault::EmptyField("capsule"@))
    } else if blank(b.artifact@) {
        Some(ValidationFault::EmptyField("artifact"@))
    } else if blank(b.artifact_content@) {
        Some(ValidationFault::EmptyField("artifact_content"@))
    } else if blank(b.loader@) {
        Some(ValidationFault::EmptyField("loader"@))
    } else if b.entry@ != NATIVE_ENTRY@ {
        Some(ValidationFault::WrongEntry(b.entry@))
    } else if !contains_text(c.loader_kinds@, b.loader@) {
        Some(ValidationFault::UnsupportedLoader(b.loader@))
    } else if b.shell matches Some(shell) && !contains_text(c.shells@, shell@) {
        Some(ValidationFault::UndeclaredShell(b.shell->0@))
    } else {
        None
    }
}

/// Validate a bundle against its selected capsule, as [`spec_validate_bundle`] states.
pub fn validate_bundle(bundle: &BundleManifest, capsule: &CapsuleManifest) -> (r: Result<
    (),
    ValidationError,
>)
    ensures
        fault_of(r) == spec_validate_bundle(*bundle, *capsule),
{
    require_schema(bundle.schema.as_str(), BUNDLE_SCHEMA)?;
    require_nonempty(bundle.capsule.as_str(), "capsule")?;
    require_nonempty(bundle.artifact.as_str(), "artifact")?;
    require_nonempty(bundle.artifact_content.as_str(), "artifact_content")?;
    require_nonempty(bundle.loader.as_str(), "loader")?;
    if !str_eq(bundle.entry.as_str(), NATIVE_ENTRY) {
        return Err(ValidationError::WrongEntry(bundle.entry.clone()));
    }
    if !contains_str(&capsule.loader_kinds, bundle.loader.as_str()) {
        return Err(ValidationError::UnsupportedLoader(bundle.loader.clone()));
    }
    if let Some(shell) = &bundle.shell {
        if !contains_str(&capsule.shells, shell.as_str()) {
            return Err(ValidationError::UndeclaredShell(shell.clone()));
        }
    }
    Ok(())
}

/// `value` must be exactly the schema tag `expected`.
pub fn require_schema(value: &str, expected: &'static str) -> (r: Result<(), ValidationError>)
    ensures
        value@ == expected@ ==> r is Ok,
        value@ != expected@ ==> (r matches Err(e) && e@ == (ValidationFault::WrongSchema {
            expected: expected@,
            found: value@,
        })),
{
    if str_eq(value, expected) {
        Ok(())
    } else {
        Err(ValidationError::WrongSchema { expected, found: value.to_owned() })
    }
}

/// `value` must not be blank; a blank value names `field`.
pub fn require_nonempty(value: &str, field: &'static str) -> (r: Result<(), ValidationError>)
    ensures
        !blank(value@) ==> r is Ok,
        blank(value@) ==> (r matches Err(e) && e@ == ValidationFault::EmptyField(field@)),
{
    if is_blank(value) {
        Err(ValidationError::EmptyField(field))
    } else {
        Ok(())
    }
}

} // verus!
