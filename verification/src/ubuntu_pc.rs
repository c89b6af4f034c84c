//! Ubuntu PC capsule: card registration for a supported profile, the curated
//! bundle rows and the sanitized physical attestation envelope.
use vstd::prelude::*;
use crate::digest::{spec_stable_digest, stable_digest};
use crate::manifest::{UbuntuProfile, UbuntuProfileKind};
use crate::records::{card, prefixed, CardView, EvidenceLevel, FactPort, OfferView, PlatformCard, ServiceOffer};
use crate::text::{contains_char, str_eq};

verus! {

pub const BUNDLE_DESCRIPTOR: &'static str = "sim.platform-bundle.toml";

/// Ubuntu PC distribution bundle. The one row admits only this capsule.
pub const UBUNTU_BUNDLE_MANIFEST: &'static str = "\nschema = \"sim.platform-bundle/v1\"\ncapsule = \"platform/site/ubuntu-pc\"\nartifact = \"sim-platform-ubuntu-pc.so\"\nloader = \"loader/native-v1\"\nartifact_content = \"sha256:ubuntu-pc-release-content\"\nentry = \"sim_native_abi_v1\"\n";

/// Ubuntu PC capsule card paired with [`UBUNTU_BUNDLE_MANIFEST`].
pub const UBUNTU_CAPSULE_MANIFEST: &'static str = "\nschema = \"sim.platform-capsule/v1\"\nprovider = \"platform/site/ubuntu-pc\"\nservices = [\"platform/monotonic\", \"platform/wall-clock\", \"platform/entropy\"]\nshells = []\nloader_kinds = [\"loader/native-v1\", \"loader/wasm-v1\", \"loader/source-v1\", \"loader/static-v1\"]\n";

/// A card registered for a supported profile.
#[derive(Clone, Debug, PartialEq, Eq)]
pub struct RegisteredCard {
    pub profile: UbuntuProfile,
    pub card: PlatformCard,
}

/// `platform/<name>` through `port`, attested.
pub open spec fn offer(name: Seq<char>, port: FactPort) -> OfferView {
    OfferView { service: "platform/"@ + name, port, evidence: EvidenceLevel::Attested }
}

/// The fact services every Ubuntu PC offers, each through its own port.
pub open spec fn fact_offers() -> Seq<OfferView> {
    seq![
        offer("wall-clock"@, FactPort::WallClock),
        offer("monotonic-clock"@, FactPort::MonotonicClock),
        offer("timer"@, FactPort::Timer),
        offer("entropy"@, FactPort::Entropy),
        offer("locale"@, FactPort::Locale),
        offer("timezone"@, FactPort::Timezone),
        offer("pressure"@, FactPort::LifecyclePressure),
        offer("limits"@, FactPort::MachineLimits),
    ]
}

/// The XDG and temporary mounts, through machine limits.
pub open spec fn mount_offers() -> Seq<OfferView> {
    seq![
        offer("mount/xdg-config"@, FactPort::MachineLimits),
        offer("mount/xdg-cache"@, FactPort::MachineLimits),
        offer("mount/xdg-data"@, FactPort::MachineLimits),
        offer("mount/xdg-state"@, FactPort::MachineLimits),
        offer("mount/temp"@, FactPort::MachineLimits),
    ]
}

/// The desktop services, through lifecycle pressure.
pub open spec fn desktop_offers() -> Seq<OfferView> {
    seq![
        offer("open"@, FactPort::LifecyclePressure),
        offer("share"@, FactPort::LifecyclePressure),
        offer("notify"@, FactPort::LifecyclePressure),
        offer("clipboard"@, FactPort::LifecyclePressure),
        offer("permission"@, FactPort::LifecyclePressure),
        offer("keep-awake"@, FactPort::LifecyclePressure),
        offer("activation"@, FactPort::LifecyclePressure),
    ]
}

/// The services of a profile kind: facts and mounts, and the desktop services
/// only on a desktop.
pub open spec fn ubuntu_pc_offers(kind: UbuntuProfileKind) -> Seq<OfferView> {
    fact_offers() + mount_offers() + if kind == UbuntuProfileKind::Desktop {
        desktop_offers()
    } else {
        Seq::empty()
    }
}

/// The site of a profile kind.
pub open spec fn ubuntu_pc_site(kind: UbuntuProfileKind) -> Seq<char> {
    match kind {
        UbuntuProfileKind::Desktop => "platform/site/ubuntu-pc-desktop"@,
        UbuntuProfileKind::Headless => "platform/site/ubuntu-pc-headless"@,
    }
}

/// A desktop card offers exactly the headless services followed by the desktop
/// services; a headless card offers no desktop service.
pub proof fn law_desktop_extends_headless()
    ensures
        ubuntu_pc_offers(UbuntuProfileKind::Desktop) == ubuntu_pc_offers(UbuntuProfileKind::Headless)
            + desktop_offers(),
        ubuntu_pc_offers(UbuntuProfileKind::Headless) == fact_offers() + mount_offers(),
{
    assert(fact_offers() + mount_offers() + Seq::<OfferView>::empty() =~= fact_offers()
        + mount_offers());
}

fn push_offer(services: &mut Vec<ServiceOffer>, name: &str, port: FactPort)
    ensures
        final(services)@.map_values(|o: ServiceOffer| o@) == old(services)@.map_values(
            |o: ServiceOffer| o@,
        ).push(offer(name@, port)),
{
    services.push(ServiceOffer {
        service: prefixed("platform/", name),
        port,
        evidence: EvidenceLevel::Attested,
    });
    assert(services@.map_values(|o: ServiceOffer| o@) =~= old(services)@.map_values(
        |o: ServiceOffer| o@,
    ).push(offer(name@, port)));
}

/// Construct the exact card for a supported Ubuntu profile. `profile_json` is
/// the JSON serialization of `profile`, whose stable digest is the card's
/// content digest.
pub fn register(profile: UbuntuProfile, profile_json: &[u8]) -> (r: RegisteredCard)
    ensures
        r.profile == profile,
        r.card@ == (CardView {
            schema: crate::records::CARD_SCHEMA@,
            site: ubuntu_pc_site(profile.kind),
            contract: "contract/ubuntu-pc-v1"@,
            content_digest: spec_stable_digest(profile_json@),
            issuer: crate::records::CARD_ISSUER@,
            services: ubuntu_pc_offers(profile.kind),
        }),
{
    let mut services: Vec<ServiceOffer> = Vec::new();
    push_offer(&mut services, "wall-clock", FactPort::WallClock);
    push_offer(&mut services, "monotonic-clock", FactPort::MonotonicClock);
    push_offer(&mut services, "timer", FactPort::Timer);
    push_offer(&mut services, "entropy", FactPort::Entropy);
    push_offer(&mut services, "locale", FactPort::Locale);
    push_offer(&mut services, "timezone", FactPort::Timezone);
    push_offer(&mut services, "pressure", FactPort::LifecyclePressure);
    push_offer(&mut services, "limits", FactPort::MachineLimits);
    push_offer(&mut services, "mount/xdg-config", FactPort::MachineLimits);
    push_offer(&mut services, "mount/xdg-cache", FactPort::MachineLimits);
    push_offer(&mut services, "mount/xdg-data", FactPort::MachineLimits);
    push_offer(&mut services, "mount/xdg-state", FactPort::MachineLimits);
    push_offer(&mut services, "mount/temp", FactPort::MachineLimits);
    if profile.kind == UbuntuProfileKind::Desktop {
        push_offer(&mut services, "open", FactPort::LifecyclePressure);
        push_offer(&mut services, "share", FactPort::LifecyclePressure);
        push_offer(&mut services, "notify", FactPort::LifecyclePressure);
        push_offer(&mut services, "clipboard", FactPort::LifecyclePressure);
        push_offer(&mut services, "permission", FactPort::LifecyclePressure);
        push_offer(&mut services, "keep-awake", FactPort::LifecyclePressure);
        push_offer(&mut services, "activation", FactPort::LifecyclePressure);
    }
    assert(services@.map_values(|o: ServiceOffer| o@) =~= ubuntu_pc_offers(profile.kind));
    let site = match profile.kind {
        UbuntuProfileKind::Desktop => "platform/site/ubuntu-pc-desktop",
        UbuntuProfileKind::Headless => "platform/site/ubuntu-pc-headless",
    };
    let digest = stable_digest(profile_json);
    RegisteredCard { profile, card: card(site, "contract/ubuntu-pc-v1", digest, services) }
}

// ---------------------------------------------------------------- attestation

/// The sanitized, content-bound offline evidence envelope of a physical run.
#[derive(Clone, Debug, PartialEq, Eq)]
pub struct PhysicalAttestation {
    pub schema: String,
    pub provider: String,
    pub registered_capability: String,
    pub source_content: String,
    pub artifact_content: String,
    pub card_content: String,
    pub result_content: String,
    pub source: String,
    pub artifact: String,
    pub card: String,
    pub result: String,
    pub checks: Vec<String>,
}

/// `claimed` is the stable digest of the text `payload`.
pub open spec fn binds(claimed: Seq<char>, payload: Seq<char>) -> bool {
    claimed == spec_stable_digest(vstd::utf8::encode_utf8(payload))
}

/// A check names a host path or an account.
pub open spec fn leaks(check: Seq<char>) -> bool {
    check.contains('/') || check.contains('@')
}

/// The refusal an attestation earns, or `None` when it is valid: the identity
/// first, then the four content identities, then at least four sanitized checks.
pub open spec fn attestation_refusal(a: PhysicalAttestation) -> Option<Seq<char>> {
    if a.schema@ != "sim.platform-physical-attestation/v1"@ || a.provider@ != "ubuntu-pc"@
        || a.registered_capability@ != "linux-x86_64"@ {
        Some("wrong attestation identity"@)
    } else if !binds(a.source_content@, a.source@) || !binds(a.artifact_content@, a.artifact@)
        || !binds(a.card_content@, a.card@) || !binds(a.result_content@, a.result@) {
        Some("content identity mismatch"@)
    } else if a.checks.len() < 4 || exists|i: int|
        0 <= i < a.checks.len() && leaks(#[trigger] a.checks@[i]@) {
        Some("unsanitized or incomplete evidence"@)
    } else {
        None
    }
}

fn bound(claimed: &String, payload: &String) -> (r: bool)
    ensures
        r == binds(claimed@, payload@),
{
    let digest = stable_digest(payload.as_str().as_bytes());
    str_eq(claimed.as_str(), digest.as_str())
}

impl PhysicalAttestation {
    /// Verify the sanitized, content-bound offline evidence envelope.
    pub fn validate(&self) -> (r: Result<(), &'static str>)
        ensures
            match attestation_refusal(*self) {
                None => r is Ok,
                Some(m) => r matches Err(e) && e@ == m,
            },
    {
        if !str_eq(self.schema.as_str(), "sim.platform-physical-attestation/v1") || !str_eq(
            self.provider.as_str(),
            "ubuntu-pc",
        ) || !str_eq(self.registered_capability.as_str(), "linux-x86_64") {
            let m = "wrong attestation identity";
            proof {
                reveal_strlit("wrong attestation identity");
            }
            return Err(m);
        }
        if !bound(&self.source_content, &self.source) || !bound(
            &self.artifact_content,
            &self.artifact,
        ) || !bound(&self.card_content, &self.card) || !bound(&self.result_content, &self.result) {
            let m = "content identity mismatch";
            proof {
                reveal_strlit("content identity mismatch");
            }
            return Err(m);
        }
        let mut leaking = false;
        for i in 0..self.checks.len()
            invariant
                leaking <==> exists|j: int| 0 <= j < i && leaks(#[trigger] self.checks@[j]@),
        {
            let check = self.checks[i].as_str();
            if contains_char(check, '/') || contains_char(check, '@') {
                assert(leaks(self.checks@[i as int]@));
                leaking = true;
            }
        }
        if self.checks.len() < 4 || leaking {
            let m = "unsanitized or incomplete evidence";
            proof {
                reveal_strlit("unsanitized or incomplete evidence");
            }
            return Err(m);
        }
        Ok(())
    }
}

} // verus!
