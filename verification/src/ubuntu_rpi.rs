//! Headless Ubuntu Raspberry Pi capsule with profile-owned native facts.
use vstd::prelude::*;
use crate::digest::{spec_stable_digest, stable_digest};
use crate::manifest::{UbuntuArchitecture, UbuntuProfile, UbuntuProfileKind};
use crate::records::{card, symbol, CardView, EvidenceLevel, FactPort, OfferView, PlatformCard, ServiceOffer};

verus! {

/// The complete domain-facing service vocabulary of this capsule.
#[derive(Clone, Copy, Debug, PartialEq, Eq, PartialOrd, Ord, Hash, Structural)]
pub enum PiService {
    Gpio,
    Serial,
    I2c,
    Spi,
    Audio,
    Network,
    Storage,
    Process,
    Compute,
}

/// Position of a service in the vocabulary, the order services are listed in.
pub open spec fn service_index(s: PiService) -> int {
    match s {
        PiService::Gpio => 0,
        PiService::Serial => 1,
        PiService::I2c => 2,
        PiService::Spi => 3,
        PiService::Audio => 4,
        PiService::Network => 5,
        PiService::Storage => 6,
        PiService::Process => 7,
        PiService::Compute => 8,
    }
}

/// Every service, in vocabulary order.
pub open spec fn all_services() -> Seq<PiService> {
    seq![
        PiService::Gpio,
        PiService::Serial,
        PiService::I2c,
        PiService::Spi,
        PiService::Audio,
        PiService::Network,
        PiService::Storage,
        PiService::Process,
        PiService::Compute,
    ]
}

/// The domain symbol of a service.
pub open spec fn spec_symbol(s: PiService) -> Seq<char> {
    match s {
        PiService::Gpio => "device/gpio"@,
        PiService::Serial => "device/serial"@,
        PiService::I2c => "device/i2c"@,
        PiService::Spi => "device/spi"@,
        PiService::Audio => "audio/device"@,
        PiService::Network => "network/socket"@,
        PiService::Storage => "storage/host-dir"@,
        PiService::Process => "runtime/process"@,
        PiService::Compute => "compute/cpu"@,
    }
}

impl PiService {
    pub const ALL: [PiService; 9] = [
        PiService::Gpio,
        PiService::Serial,
        PiService::I2c,
        PiService::Spi,
        PiService::Audio,
        PiService::Network,
        PiService::Storage,
        PiService::Process,
        PiService::Compute,
    ];

    pub fn symbol(self) -> (r: &'static str)
        ensures
            r@ == spec_symbol(self),
    {
        match self {
            PiService::Gpio => "device/gpio",
            PiService::Serial => "device/serial",
            PiService::I2c => "device/i2c",
            PiService::Spi => "device/spi",
            PiService::Audio => "audio/device",
            PiService::Network => "network/socket",
            PiService::Storage => "storage/host-dir",
            PiService::Process => "runtime/process",
            PiService::Compute => "compute/cpu",
        }
    }

    fn index(self) -> (r: usize)
        ensures
            r == service_index(self),
    {
        match self {
            PiService::Gpio => 0,
            PiService::Serial => 1,
            PiService::I2c => 2,
            PiService::Spi => 3,
            PiService::Audio => 4,
            PiService::Network => 5,
            PiService::Storage => 6,
            PiService::Process => 7,
            PiService::Compute => 8,
        }
    }
}

/// A map keyed by Pi service, one slot per service.
#[derive(Clone, Debug, PartialEq, Eq)]
pub struct PiServiceMap<V> {
    slots: Vec<Option<V>>,
}

impl<V> PiServiceMap<V> {
    /// The entries.
    pub closed spec fn entries(&self) -> Map<PiService, V> {
        Map::new(
            |s: PiService| service_index(s) < self.slots@.len() && self.slots@[service_index(s)] is Some,
            |s: PiService| self.slots@[service_index(s)]->Some_0,
        )
    }

    /// The empty map.
    pub fn new() -> (r: Self)
        ensures
            r.entries() == Map::<PiService, V>::empty(),
    {
        let mut slots: Vec<Option<V>> = Vec::new();
        for i in 0..9
            invariant
                slots@.len() == i,
                forall|j: int| 0 <= j < i ==> #[trigger] slots@[j] is None,
        {
            slots.push(None);
        }
        let r = PiServiceMap { slots };
        assert(r.entries() =~= Map::<PiService, V>::empty());
        r
    }

    /// Sets the entry of `key`, returning the one it replaces.
    pub fn insert(&mut self, key: PiService, value: V) -> (r: Option<V>)
        ensures
            final(self).entries() == old(self).entries().insert(key, value),
            r == (if old(self).entries().contains_key(key) {
                Some(old(self).entries()[key])
            } else {
                None
            }),
    {
        let i = key.index();
        let ghost start = self.slots@;
        while self.slots.len() <= i
            invariant
                start.len() <= self.slots@.len(),
                forall|j: int| 0 <= j < start.len() ==> #[trigger] self.slots@[j] == start[j],
                forall|j: int| start.len() <= j < self.slots@.len() ==> #[trigger] self.slots@[j] is None,
            decreases i + 1 - self.slots@.len(),
        {
            self.slots.push(None);
        }
        let ghost before = self.slots@;
        let previous = self.slots.remove(i);
        self.slots.insert(i, Some(value));
        assert(self.slots@ =~= before.update(i as int, Some(value)));
        assert(self.entries() =~= old(self).entries().insert(key, value)) by {
            assert forall|s: PiService| #![auto] service_index(s) < self.slots@.len() && s != key implies self.slots@[service_index(s)] == before[service_index(s)] by {
                assert(service_index(s) != service_index(key));
            }
        }
        previous
    }

    /// The entry of `key`.
    pub fn get(&self, key: PiService) -> (r: Option<&V>)
        ensures
            r == (if self.entries().contains_key(key) {
                Some(&self.entries()[key])
            } else {
                None
            }),
    {
        let i = key.index();
        if i >= self.slots.len() {
            return None;
        }
        match &self.slots[i] {
            Some(v) => Some(v),
            None => None,
        }
    }

    pub fn contains_key(&self, key: PiService) -> (r: bool)
        ensures
            r == self.entries().contains_key(key),
    {
        let i = key.index();
        i < self.slots.len() && self.slots[i].is_some()
    }

    pub fn is_empty(&self) -> (r: bool)
        ensures
            r == (self.entries() == Map::<PiService, V>::empty()),
    {
        let n = if self.slots.len() < 9 { self.slots.len() } else { 9 };
        let mut i: usize = 0;
        while i < n
            invariant
                i <= n,
                n <= 9,
                n <= self.slots@.len(),
                n == 9 || n == self.slots@.len(),
                forall|j: int| 0 <= j < i ==> #[trigger] self.slots@[j] is None,
            decreases n - i,
        {
            if self.slots[i].is_some() {
                proof {
                    let s = all_services()[i as int];
                    assert(service_index(s) == i);
                    assert(self.entries().contains_key(s));
                    assert(!Map::<PiService, V>::empty().contains_key(s));
                }
                return false;
            }
            i = i + 1;
        }
        assert(self.entries() =~= Map::<PiService, V>::empty());
        true
    }
}

/// A concrete binding held at the provider boundary, never by a domain consumer.
#[derive(Clone, Debug, PartialEq, Eq)]
pub enum Binding {
    DevicePath(String),
    Api(String),
}

/// Permission needed before the capsule can open a binding.
#[derive(Clone, Debug, PartialEq, Eq)]
pub struct PermissionRule {
    pub group: String,
    pub read: bool,
    pub write: bool,
}

/// All Raspberry Pi-specific facts. Adding a board never changes a consumer.
#[derive(Clone, Debug, PartialEq, Eq)]
pub struct UbuntuRpiProfile {
    pub ubuntu: UbuntuProfile,
    pub board_revision: String,
    pub bindings: PiServiceMap<Binding>,
    pub permissions: PiServiceMap<PermissionRule>,
}

#[derive(Clone, Copy, Debug, PartialEq, Eq, Structural)]
pub enum PiRefusal {
    Unsupported { service: PiService },
    PermissionProfileMissing { service: PiService },
}

/// What requiring `service` of `profile` gives: its binding, or the refusal
/// for a missing binding, then for a missing permission rule.
pub open spec fn spec_require(profile: UbuntuRpiProfile, service: PiService) -> Result<
    Binding,
    PiRefusal,
> {
    if !profile.bindings.entries().contains_key(service) {
        Err(PiRefusal::Unsupported { service })
    } else if !profile.permissions.entries().contains_key(service) {
        Err(PiRefusal::PermissionProfileMissing { service })
    } else {
        Ok(profile.bindings.entries()[service])
    }
}

/// The headless Ubuntu identity on aarch64.
pub open spec fn headless_aarch64() -> UbuntuProfile {
    UbuntuProfile { architecture: UbuntuArchitecture::Aarch64, kind: UbuntuProfileKind::Headless }
}

impl UbuntuRpiProfile {
    /// Derive only the common headless Ubuntu identity; services are explicit.
    pub fn from_ubuntu_headless(board_revision: &str) -> (r: Self)
        ensures
            r.ubuntu == headless_aarch64(),
            r.board_revision@ == board_revision@,
            r.bindings.entries() == Map::<PiService, Binding>::empty(),
            r.permissions.entries() == Map::<PiService, PermissionRule>::empty(),
    {
        UbuntuRpiProfile {
            ubuntu: UbuntuProfile {
                architecture: UbuntuArchitecture::Aarch64,
                kind: UbuntuProfileKind::Headless,
            },
            board_revision: board_revision.to_owned(),
            bindings: PiServiceMap::new(),
            permissions: PiServiceMap::new(),
        }
    }

    /// Resolve a declared domain service without probing or fallback.
    pub fn require(&self, service: PiService) -> (r: Result<&Binding, PiRefusal>)
        ensures
            match spec_require(*self, service) {
                Ok(b) => r == Ok::<&Binding, PiRefusal>(&b),
                Err(e) => r == Err::<&Binding, PiRefusal>(e),
            },
    {
        let binding = match self.bindings.get(service) {
            Some(b) => b,
            None => {
                return Err(PiRefusal::Unsupported { service });
            },
        };
        if !self.permissions.contains_key(service) {
            return Err(PiRefusal::PermissionProfileMissing { service });
        }
        Ok(binding)
    }
}

/// Registration output pairs the immutable profile and its exact observed card.
#[derive(Clone, Debug, PartialEq, Eq)]
pub struct RegisteredPiCard {
    pub profile: UbuntuRpiProfile,
    pub card: PlatformCard,
}

/// The declared offers of the services among `services` that `bindings` binds.
pub open spec fn declared_offers(services: Seq<PiService>, bindings: Map<PiService, Binding>) -> Seq<
    OfferView,
>
    decreases services.len(),
{
    if services.len() == 0 {
        Seq::empty()
    } else {
        let rest = declared_offers(services.drop_last(), bindings);
        if bindings.contains_key(services.last()) {
            rest.push(
                OfferView {
                    service: spec_symbol(services.last()),
                    port: FactPort::MachineLimits,
                    evidence: EvidenceLevel::Declared,
                },
            )
        } else {
            rest
        }
    }
}

/// The card of a Pi profile: a declared offer for each bound service, in
/// vocabulary order. `profile_json` is the JSON serialization of `profile`,
/// whose stable digest is the card's content digest.
pub fn register(profile: UbuntuRpiProfile, profile_json: &[u8]) -> (r: RegisteredPiCard)
    ensures
        r.profile == profile,
        r.card@ == (CardView {
            schema: crate::records::CARD_SCHEMA@,
            site: "platform/site/ubuntu-rpi-headless"@,
            contract: "contract/ubuntu-rpi-v1"@,
            content_digest: spec_stable_digest(profile_json@),
            issuer: crate::records::CARD_ISSUER@,
            services: declared_offers(all_services(), profile.bindings.entries()),
        }),
{
    let all = PiService::ALL;
    assert(all@ == all_services());
    let mut services: Vec<ServiceOffer> = Vec::new();
    for i in 0..9
        invariant
            all@ == all_services(),
            services@.map_values(|o: ServiceOffer| o@) == declared_offers(
                all_services().take(i as int),
                profile.bindings.entries(),
            ),
    {
        let service = all[i];
        assert(all_services().take(i + 1).drop_last() =~= all_services().take(i as int));
        if profile.bindings.contains_key(service) {
            services.push(ServiceOffer {
                service: symbol(service.symbol()),
                port: FactPort::MachineLimits,
                evidence: EvidenceLevel::Declared,
            });
        }
        assert(services@.map_values(|o: ServiceOffer| o@) =~= declared_offers(
            all_services().take(i + 1),
            profile.bindings.entries(),
        ));
    }
    assert(all_services().take(9) =~= all_services());
    let digest = stable_digest(profile_json);
    let card = card("platform/site/ubuntu-rpi-headless", "contract/ubuntu-rpi-v1", digest, services);
    RegisteredPiCard { card, profile }
}


/// The device path or API name of a binding, and whether it is a device path.
pub open spec fn binding_view(b: Binding) -> (bool, Seq<char>) {
    match b {
        Binding::DevicePath(p) => (true, p@),
        Binding::Api(a) => (false, a@),
    }
}

/// The group, read and write of a permission rule.
pub open spec fn rule_view(r: PermissionRule) -> (Seq<char>, bool, bool) {
    (r.group@, r.read, r.write)
}

fn bind(profile: &mut UbuntuRpiProfile, service: PiService, binding: Binding, rule: PermissionRule)
    ensures
        final(profile).ubuntu == old(profile).ubuntu,
        final(profile).board_revision == old(profile).board_revision,
        final(profile).bindings.entries() == old(profile).bindings.entries().insert(service, binding),
        final(profile).permissions.entries() == old(profile).permissions.entries().insert(
            service,
            rule,
        ),
{
    profile.bindings.insert(service, binding);
    profile.permissions.insert(service, rule);
}

fn rule(group: &str, write: bool) -> (r: PermissionRule)
    ensures
        rule_view(r) == (group@, true, write),
{
    PermissionRule { group: group.to_owned(), read: true, write }
}

/// Deterministic hostile profile: only the bindings explicitly inserted exist,
/// here the modeled GPIO API and its permission rule.
pub fn hostile_model_profile() -> (r: UbuntuRpiProfile)
    ensures
        r.ubuntu == headless_aarch64(),
        r.board_revision@ == "model-hostile"@,
        r.bindings.entries().dom() == set![PiService::Gpio],
        binding_view(r.bindings.entries()[PiService::Gpio]) == (false, "model/gpio-v1"@),
        r.permissions.entries().dom() == set![PiService::Gpio],
        rule_view(r.permissions.entries()[PiService::Gpio]) == ("modeled"@, true, true),
{
    let mut profile = UbuntuRpiProfile::from_ubuntu_headless("model-hostile");
    bind(&mut profile, PiService::Gpio, Binding::Api("model/gpio-v1".to_owned()), rule("modeled", true));
    assert(profile.bindings.entries().dom() =~= set![PiService::Gpio]);
    assert(profile.permissions.entries().dom() =~= set![PiService::Gpio]);
    profile
}

/// The binding of each service on a Raspberry Pi 5 under Ubuntu.
pub open spec fn pi5_binding(s: PiService) -> (bool, Seq<char>) {
    match s {
        PiService::Gpio => (true, "/dev/gpiochip4"@),
        PiService::Serial => (true, "/dev/serial0"@),
        PiService::I2c => (true, "/dev/i2c-1"@),
        PiService::Spi => (true, "/dev/spidev0.0"@),
        PiService::Audio => (false, "alsa/default"@),
        PiService::Network => (false, "linux/socket-v1"@),
        PiService::Storage => (false, "linux/preopened-dir-v1"@),
        PiService::Process => (false, "linux/process-v1"@),
        PiService::Compute => (false, "linux/aarch64-cpu-v1"@),
    }
}

/// The permission rule of each service on a Raspberry Pi 5: readable, and
/// writable except for compute.
pub open spec fn pi5_rule(s: PiService) -> (Seq<char>, bool, bool) {
    match s {
        PiService::Gpio => ("gpio"@, true, true),
        PiService::Serial => ("dialout"@, true, true),
        PiService::I2c => ("i2c"@, true, true),
        PiService::Spi => ("spi"@, true, true),
        PiService::Audio => ("audio"@, true, true),
        PiService::Compute => ("sim"@, true, false),
        _ => ("sim"@, true, true),
    }
}

/// Raspberry Pi 5 profile for Ubuntu's documented kernel interfaces. No path
/// is opened here; activation must verify the recorded group permission before
/// constructing the domain-owned port.
pub fn raspberry_pi_5_profile() -> (r: UbuntuRpiProfile)
    ensures
        r.ubuntu == headless_aarch64(),
        r.board_revision@ == "d04170"@,
        forall|s: PiService| #[trigger] r.bindings.entries().contains_key(s),
        forall|s: PiService| #[trigger] r.permissions.entries().contains_key(s),
        forall|s: PiService| binding_view(#[trigger] r.bindings.entries()[s]) == pi5_binding(s),
        forall|s: PiService| rule_view(#[trigger] r.permissions.entries()[s]) == pi5_rule(s),
{
    let mut p = UbuntuRpiProfile::from_ubuntu_headless("d04170");
    bind(&mut p, PiService::Gpio, Binding::DevicePath("/dev/gpiochip4".to_owned()), rule("gpio", true));
    bind(&mut p, PiService::Serial, Binding::DevicePath("/dev/serial0".to_owned()), rule("dialout", true));
    bind(&mut p, PiService::I2c, Binding::DevicePath("/dev/i2c-1".to_owned()), rule("i2c", true));
    bind(&mut p, PiService::Spi, Binding::DevicePath("/dev/spidev0.0".to_owned()), rule("spi", true));
    bind(&mut p, PiService::Audio, Binding::Api("alsa/default".to_owned()), rule("audio", true));
    bind(&mut p, PiService::Network, Binding::Api("linux/socket-v1".to_owned()), rule("sim", true));
    bind(&mut p, PiService::Storage, Binding::Api("linux/preopened-dir-v1".to_owned()), rule("sim", true));
    bind(&mut p, PiService::Process, Binding::Api("linux/process-v1".to_owned()), rule("sim", true));
    bind(&mut p, PiService::Compute, Binding::Api("linux/aarch64-cpu-v1".to_owned()), rule("sim", false));
    assert forall|s: PiService| #[trigger] p.bindings.entries().contains_key(s) && binding_view(
        p.bindings.entries()[s],
    ) == pi5_binding(s) && p.permissions.entries().contains_key(s) && rule_view(
        p.permissions.entries()[s],
    ) == pi5_rule(s) by {
        match s {
            PiService::Gpio => {},
            PiService::Serial => {},
            PiService::I2c => {},
            PiService::Spi => {},
            PiService::Audio => {},
            PiService::Network => {},
            PiService::Storage => {},
            PiService::Process => {},
            PiService::Compute => {},
        }
    }
    p
}

/// The capsule card of the headless Pi site.
pub const CAPSULE_MANIFEST: &'static str = "\nschema = \"sim.platform-capsule/v1\"\nprovider = \"platform/site/ubuntu-rpi-headless\"\nservices = [\"device/gpio\"]\nshells = []\nloader_kinds = [\"loader/native-v1\"]\n";

#[derive(Clone, Copy, Debug, PartialEq, Eq, Structural)]
pub enum BuildEvidence {
    CrossBuilt,
    Physical,
}

/// Offline evidence for declared Rust targets. Physical evidence is forbidden
/// without a host receipt.
#[derive(Clone, Debug, PartialEq, Eq)]
pub struct TargetAttestation {
    pub targets: Vec<String>,
    pub evidence: BuildEvidence,
    pub registered_host: Option<String>,
}

impl TargetAttestation {
    pub fn validate(&self) -> (r: Result<(), &'static str>)
        ensures
            self.targets.len() == 0 ==> (r matches Err(m) && m@ == "no declared target was built"@),
            self.targets.len() > 0 && self.evidence == BuildEvidence::Physical
                && self.registered_host is None ==> (r matches Err(m) && m@
                == "physical evidence requires a registered host"@),
            self.targets.len() > 0 && (self.evidence == BuildEvidence::CrossBuilt
                || self.registered_host is Some) ==> r is Ok,
    {
        if self.targets.len() == 0 {
            let m = "no declared target was built";
            proof {
                reveal_strlit("no declared target was built");
            }
            return Err(m);
        }
        if self.evidence == BuildEvidence::Physical && self.registered_host.is_none() {
            let m = "physical evidence requires a registered host";
            proof {
                reveal_strlit("physical evidence requires a registered host");
            }
            return Err(m);
        }
        Ok(())
    }
}

proof fn lemma_declared_offers_membership(
    services: Seq<PiService>,
    bindings: Map<PiService, Binding>,
    symbol_text: Seq<char>,
)
    requires
        forall|i: int, j: int|
            0 <= i < j < services.len() ==> services[i] != services[j],
    ensures
        (exists|k: int|
            0 <= k < declared_offers(services, bindings).len() && #[trigger] declared_offers(
                services,
                bindings,
            )[k].service == symbol_text) <==> (exists|i: int|
            0 <= i < services.len() && bindings.contains_key(#[trigger] services[i]) && spec_symbol(
                services[i],
            ) == symbol_text),
    decreases services.len(),
{
    if services.len() > 0 {
        let rest = services.drop_last();
        lemma_declared_offers_membership(rest, bindings, symbol_text);
        let d = declared_offers(services, bindings);
        let dr = declared_offers(rest, bindings);
        if exists|i: int|
            0 <= i < services.len() && bindings.contains_key(#[trigger] services[i]) && spec_symbol(
                services[i],
            ) == symbol_text {
            let i = choose|i: int|
                0 <= i < services.len() && bindings.contains_key(#[trigger] services[i])
                    && spec_symbol(services[i]) == symbol_text;
            if i == services.len() - 1 {
                assert(d[d.len() - 1].service == symbol_text);
            } else {
                assert(rest[i] == services[i]);
                let k = choose|k: int| 0 <= k < dr.len() && #[trigger] dr[k].service == symbol_text;
                assert(d[k] == dr[k]);
            }
        }
        if exists|k: int| 0 <= k < d.len() && #[trigger] d[k].service == symbol_text {
            let k = choose|k: int| 0 <= k < d.len() && #[trigger] d[k].service == symbol_text;
            if k < dr.len() {
                assert(d[k] == dr[k]);
                let i = choose|i: int|
                    0 <= i < rest.len() && bindings.contains_key(#[trigger] rest[i])
                        && spec_symbol(rest[i]) == symbol_text;
                assert(services[i] == rest[i]);
            } else {
                assert(services[services.len() - 1] == services.last());
            }
        }
    }
}

/// A registered Pi card offers exactly the services its profile can satisfy:
/// when every bound service has a permission rule, a symbol is on the card if
/// and only if requiring the service of that symbol succeeds.
pub proof fn law_card_offers_exactly_the_requirable_services(
    profile: UbuntuRpiProfile,
    service: PiService,
)
    requires
        forall|s: PiService|
            #[trigger] profile.bindings.entries().contains_key(s)
                ==> profile.permissions.entries().contains_key(s),
    ensures
        (exists|k: int|
            0 <= k < declared_offers(all_services(), profile.bindings.entries()).len()
                && #[trigger] declared_offers(all_services(), profile.bindings.entries())[k].service
                == spec_symbol(service)) <==> spec_require(profile, service) is Ok,
{
    let all = all_services();
    assert forall|i: int, j: int| 0 <= i < j < all.len() implies all[i] != all[j] by {
        assert(service_index(all[i]) == i);
        assert(service_index(all[j]) == j);
    }
    lemma_declared_offers_membership(all, profile.bindings.entries(), spec_symbol(service));
    assert(all[service_index(service)] == service);
    lemma_symbols_distinct();
}

proof fn lemma_symbol_shape(s: PiService)
    ensures
        spec_symbol(s).len() == match s {
            PiService::Gpio => 11int,
            PiService::Serial => 13,
            PiService::I2c => 10,
            PiService::Spi => 10,
            PiService::Audio => 12,
            PiService::Network => 14,
            PiService::Storage => 16,
            PiService::Process => 15,
            PiService::Compute => 11,
        },
        spec_symbol(s)[0] == (if s == PiService::Compute { 'c' } else if s == PiService::Gpio { 'd' } else { spec_symbol(s)[0] }),
        spec_symbol(s)[7] == (if s == PiService::I2c { 'i' } else if s == PiService::Spi { 's' } else { spec_symbol(s)[7] }),
{
    reveal_strlit("device/gpio");
    reveal_strlit("device/serial");
    reveal_strlit("device/i2c");
    reveal_strlit("device/spi");
    reveal_strlit("audio/device");
    reveal_strlit("network/socket");
    reveal_strlit("storage/host-dir");
    reveal_strlit("runtime/process");
    reveal_strlit("compute/cpu");
}

/// Distinct services have distinct symbols.
proof fn lemma_symbols_distinct()
    ensures
        forall|s: PiService, t: PiService| spec_symbol(s) == spec_symbol(t) ==> s == t,
{
    assert forall|s: PiService, t: PiService| spec_symbol(s) == spec_symbol(t) implies s == t by {
        lemma_symbol_shape(s);
        lemma_symbol_shape(t);
    }
}

} // verus!
