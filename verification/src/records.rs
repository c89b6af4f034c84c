//! Platform card records shared by every capsule: open symbols, offered
//! services with their fact port and evidence level, and provenance.
use vstd::prelude::*;

verus! {

/// An open, namespaced symbol such as `platform/site/windows`.
#[derive(Clone, Debug, PartialEq, Eq)]
pub struct OpenSymbol(pub String);

/// The fact port a platform service is reached through.
#[derive(Clone, Copy, Debug, PartialEq, Eq, Structural)]
pub enum FactPort {
    WallClock,
    MonotonicClock,
    Timer,
    Entropy,
    Locale,
    Timezone,
    LifecyclePressure,
    MachineLimits,
}

/// How strongly an offered service is evidenced.
#[derive(Clone, Copy, Debug, PartialEq, Eq, Structural)]
pub enum EvidenceLevel {
    Declared,
    Modeled,
    Attested,
}

/// One service a platform card offers.
#[derive(Clone, Debug, PartialEq, Eq)]
pub struct ServiceOffer {
    pub service: OpenSymbol,
    pub port: FactPort,
    pub evidence: EvidenceLevel,
}

/// Which contract a card realizes, the content it was derived from, and who issued it.
#[derive(Clone, Debug, PartialEq, Eq)]
pub struct ContractProvenance {
    pub contract: OpenSymbol,
    pub content_digest: String,
    pub issuer: OpenSymbol,
}

/// A platform card: the site, its offered services and their provenance.
#[derive(Clone, Debug, PartialEq, Eq)]
pub struct PlatformCard {
    pub schema: OpenSymbol,
    pub site: OpenSymbol,
    pub provenance: ContractProvenance,
    pub services: Vec<ServiceOffer>,
}

/// Mathematical form of a [`ServiceOffer`].
pub struct OfferView {
    pub service: Seq<char>,
    pub port: FactPort,
    pub evidence: EvidenceLevel,
}

/// Mathematical form of a [`PlatformCard`].
pub struct CardView {
    pub schema: Seq<char>,
    pub site: Seq<char>,
    pub contract: Seq<char>,
    pub content_digest: Seq<char>,
    pub issuer: Seq<char>,
    pub services: Seq<OfferView>,
}

impl View for ServiceOffer {
    type V = OfferView;

    open spec fn view(&self) -> OfferView {
        OfferView { service: self.service.0@, port: self.port, evidence: self.evidence }
    }
}

impl View for PlatformCard {
    type V = CardView;

    open spec fn view(&self) -> CardView {
        CardView {
            schema: self.schema.0@,
            site: self.site.0@,
            contract: self.provenance.contract.0@,
            content_digest: self.provenance.content_digest@,
            issuer: self.provenance.issuer.0@,
            services: self.services@.map_values(|o: ServiceOffer| o@),
        }
    }
}

/// Schema symbol of every card built here.
pub const CARD_SCHEMA: &'static str = "platform/card-v1";
/// Issuer symbol of every card built here.
pub const CARD_ISSUER: &'static str = "issuer/sim-platform";

/// A symbol spelled by `text`.
pub fn symbol(text: &str) -> (r: OpenSymbol)
    ensures
        r.0@ == text@,
{
    OpenSymbol(text.to_owned())
}

/// A symbol spelled `prefix` followed by `name`.
pub fn prefixed(prefix: &str, name: &str) -> (r: OpenSymbol)
    ensures
        r.0@ == prefix@ + name@,
{
    let mut text = String::from_str(prefix);
    text.append(name);
    OpenSymbol(text)
}

/// Assembles a card from its parts.
pub fn card(site: &str, contract: &str, content_digest: String, services: Vec<ServiceOffer>) -> (r:
    PlatformCard)
    ensures
        r@ == (CardView {
            schema: CARD_SCHEMA@,
            site: site@,
            contract: contract@,
            content_digest: content_digest@,
            issuer: CARD_ISSUER@,
            services: services@.map_values(|o: ServiceOffer| o@),
        }),
{
    PlatformCard {
        schema: symbol(CARD_SCHEMA),
        site: symbol(site),
        provenance: ContractProvenance {
            contract: symbol(contract),
            content_digest,
            issuer: symbol(CARD_ISSUER),
        },
        services,
    }
}

} // verus!
