//! Android audio routing: the bounded session a turn arms, privacy-safe route
//! observations, and the receipt that says whether private output may play.
use vstd::prelude::*;
use vstd::utf8::encode_utf8;
use crate::text::{decimal, decimal_text};

verus! {

/// Privacy-safe Android route classes. No device id, address or product name crosses the shell.
#[derive(Clone, Copy, Debug, PartialEq, Eq, PartialOrd, Ord, Structural)]
pub enum AudioRouteClass {
    Handset,
    Wired,
    ClassicBluetooth,
    LeAudio,
    Usb,
    Other,
}

/// Every route class, in order.
pub open spec fn all_classes() -> Seq<AudioRouteClass> {
    seq![
        AudioRouteClass::Handset,
        AudioRouteClass::Wired,
        AudioRouteClass::ClassicBluetooth,
        AudioRouteClass::LeAudio,
        AudioRouteClass::Usb,
        AudioRouteClass::Other,
    ]
}

#[derive(Clone, Copy, Debug, PartialEq, Eq, Structural)]
pub enum RouteEvidence {
    InitialQuery,
    DeviceCallback,
    CommunicationCallback,
}

#[derive(Clone, Copy, Debug, PartialEq, Eq, Structural)]
pub enum RoutingContract {
    Api28To30CommunicationMode,
    Api31To35CommunicationDevice,
}

/// The routing contract of an Android API level, within the supported 28 to 35.
pub open spec fn contract_for(api_level: u16) -> Option<RoutingContract> {
    if 28 <= api_level <= 30 {
        Some(RoutingContract::Api28To30CommunicationMode)
    } else if 31 <= api_level <= 35 {
        Some(RoutingContract::Api31To35CommunicationDevice)
    } else {
        None
    }
}

/// The refusal of an unsupported API level.
pub open spec fn api_refusal(api_level: u16) -> Seq<char> {
    "unsupported Android audio API level "@ + decimal(api_level as nat)
}

impl RoutingContract {
    /// Selects the bounded Android routing contract for `api_level`, refusing
    /// levels outside 28 through 35.
    pub fn for_api(api_level: u16) -> (r: Result<Self, String>)
        ensures
            match contract_for(api_level) {
                Some(c) => r == Ok::<RoutingContract, String>(c),
                None => r matches Err(m) && m@ == api_refusal(api_level),
            },
    {
        if 28 <= api_level && api_level <= 30 {
            Ok(RoutingContract::Api28To30CommunicationMode)
        } else if 31 <= api_level && api_level <= 35 {
            Ok(RoutingContract::Api31To35CommunicationDevice)
        } else {
            let mut m = String::from_str("unsupported Android audio API level ");
            let digits = decimal_text(api_level as u64);
            m.append(digits.as_str());
            Err(m)
        }
    }
}

#[derive(Clone, Copy, Debug, PartialEq, Eq, Structural)]
pub struct PcmContract {
    pub sample_rate_hz: u32,
    pub channels: u8,
    pub frames_per_chunk: u16,
    pub queue_capacity_chunks: u16,
}

/// The PCM contract stays within the canonical bounded limits.
pub open spec fn pcm_bounded(p: PcmContract) -> bool {
    &&& 8000 <= p.sample_rate_hz <= 192000
    &&& 1 <= p.channels <= 8
    &&& 1 <= p.frames_per_chunk <= 4096
    &&& 1 <= p.queue_capacity_chunks <= 256
}

pub const PCM_REFUSAL: &'static str = "Android audio PCM contract exceeds canonical bounded limits";

impl PcmContract {
    fn validate(&self) -> (r: Result<(), String>)
        ensures
            pcm_bounded(*self) ==> r is Ok,
            !pcm_bounded(*self) ==> (r matches Err(m) && m@ == PCM_REFUSAL@),
    {
        if !(8000 <= self.sample_rate_hz && self.sample_rate_hz <= 192000) || !(1 <= self.channels
            && self.channels <= 8) || !(1 <= self.frames_per_chunk && self.frames_per_chunk <= 4096)
            || !(1 <= self.queue_capacity_chunks && self.queue_capacity_chunks <= 256) {
            return Err(String::from_str(PCM_REFUSAL));
        }
        Ok(())
    }
}

#[derive(Clone, Debug, PartialEq, Eq)]
pub struct AudioSessionSpec {
    pub turn_content_id: String,
    pub api_level: u16,
    pub admitted: bool,
    pub private_output: bool,
    pub pcm: PcmContract,
    pub armed_at_ms: u64,
    pub expires_at_ms: u64,
}

#[derive(Clone, Debug, PartialEq, Eq)]
pub struct RouteObservation {
    pub capture: Vec<AudioRouteClass>,
    pub render: Vec<AudioRouteClass>,
    pub generation: u64,
    pub observed_at_ms: u64,
    pub evidence: RouteEvidence,
}

/// Independent attested route conditions, not a hidden state machine.
#[derive(Clone, Debug, PartialEq, Eq)]
pub struct AudioRouteReceipt {
    pub turn_content_id: String,
    pub capture: Vec<AudioRouteClass>,
    pub render: Vec<AudioRouteClass>,
    pub duplex: bool,
    pub generation: u64,
    pub observed_at_ms: u64,
    pub fresh: bool,
    pub evidence: RouteEvidence,
    pub routing_contract: RoutingContract,
    pub focus_held: bool,
    pub communication_route_held: bool,
    pub private_output_paused: bool,
    pub pcm: PcmContract,
}

#[derive(Clone, Copy, Debug, PartialEq, Eq, Structural)]
pub enum AudioStopReason {
    Stop,
    Cancellation,
    BackgroundExpiry,
    PermissionLoss,
    RouteLoss,
    FocusConflict,
    ProcessDeath,
}

#[derive(Clone, Debug, PartialEq, Eq)]
pub enum AudioInput {
    Arm { spec: AudioSessionSpec },
    Route { observation: RouteObservation },
    Stop { reason: AudioStopReason },
    Tick { now_ms: u64 },
}

/// The members of `order` that occur in `classes`, in the order of `order`.
pub open spec fn present_in(order: Seq<AudioRouteClass>, classes: Seq<AudioRouteClass>) -> Seq<
    AudioRouteClass,
>
    decreases order.len(),
{
    if order.len() == 0 {
        Seq::empty()
    } else if classes.contains(order.last()) {
        present_in(order.drop_last(), classes).push(order.last())
    } else {
        present_in(order.drop_last(), classes)
    }
}

/// The route classes of `classes`, each once, in class order.
pub open spec fn normalized_classes(classes: Seq<AudioRouteClass>) -> Seq<AudioRouteClass> {
    present_in(all_classes(), classes)
}

fn contains_class(classes: &Vec<AudioRouteClass>, class: AudioRouteClass) -> (r: bool)
    ensures
        r == classes@.contains(class),
{
    for i in 0..classes.len()
        invariant
            forall|j: int| 0 <= j < i ==> #[trigger] classes@[j] != class,
    {
        if classes[i] == class {
            assert(classes@[i as int] == class);
            return true;
        }
    }
    false
}

/// Sort and deduplicate route classes.
fn normalize_classes(classes: &mut Vec<AudioRouteClass>)
    ensures
        final(classes)@ == normalized_classes(old(classes)@),
{
    let all: [AudioRouteClass; 6] = [
        AudioRouteClass::Handset,
        AudioRouteClass::Wired,
        AudioRouteClass::ClassicBluetooth,
        AudioRouteClass::LeAudio,
        AudioRouteClass::Usb,
        AudioRouteClass::Other,
    ];
    assert(all@ == all_classes());
    let ghost present = classes@;
    let mut out: Vec<AudioRouteClass> = Vec::new();
    for i in 0..6
        invariant
            all@ == all_classes(),
            present == classes@,
            out@ == present_in(all_classes().take(i as int), present),
    {
        assert(all_classes().take(i + 1).drop_last() =~= all_classes().take(i as int));
        assert(all_classes().take(i + 1).last() == all[i as int]);
        if contains_class(classes, all[i]) {
            out.push(all[i]);
        }
    }
    assert(all_classes().take(6) =~= all_classes());
    *classes = out;
}


/// An ASCII hexadecimal digit.
pub open spec fn hex_byte(b: u8) -> bool {
    (48 <= b <= 57) || (65 <= b <= 70) || (97 <= b <= 102)
}

/// A turn content id is 64 hexadecimal digits and the session expires after it is armed.
pub open spec fn identity_and_expiry_valid(spec: AudioSessionSpec) -> bool {
    &&& encode_utf8(spec.turn_content_id@).len() == 64
    &&& forall|i: int|
        0 <= i < encode_utf8(spec.turn_content_id@).len() ==> hex_byte(
            #[trigger] encode_utf8(spec.turn_content_id@)[i],
        )
    &&& spec.armed_at_ms < spec.expires_at_ms
}

pub const ADMISSION_REFUSAL: &'static str = "Android audio session must be admitted before it is armed";
pub const IDENTITY_REFUSAL: &'static str = "Android audio session identity or expiry is invalid";
pub const GENERATION_REFUSAL: &'static str = "Android audio route generation must increase";

/// How long a route observation stays fresh, in milliseconds.
pub const FRESH_MS: u64 = 2000;

/// Mathematical form of the audio state.
pub struct AudioView {
    pub session: Option<AudioSessionSpec>,
    pub route: Option<RouteObservation>,
    pub focus_held: bool,
    pub communication_route_held: bool,
}

/// `v` with its session, focus and communication route released; the route stays.
pub open spec fn released(v: AudioView) -> AudioView {
    AudioView { session: None, route: v.route, focus_held: false, communication_route_held: false }
}

/// The route a receipt reports: the observed one, or an empty initial query.
pub open spec fn reported_route(v: AudioView) -> (Seq<AudioRouteClass>, Seq<AudioRouteClass>, u64, u64, RouteEvidence) {
    match v.route {
        Some(o) => (o.capture@, o.render@, o.generation, o.observed_at_ms, o.evidence),
        None => (Seq::empty(), Seq::empty(), 0, 0, RouteEvidence::InitialQuery),
    }
}

/// The receipt time when none is given: when the route was observed, or zero.
pub open spec fn route_time(v: AudioView) -> u64 {
    match v.route {
        Some(o) => o.observed_at_ms,
        None => 0,
    }
}

/// The route was observed, at most two seconds before `now_ms`.
pub open spec fn fresh_at(v: AudioView, now_ms: u64) -> bool {
    let (_, _, generation, observed, _) = reported_route(v);
    generation > 0 && (if now_ms >= observed { now_ms - observed } else { 0 }) <= FRESH_MS
}

/// Some capture class also renders.
pub open spec fn duplex_route(v: AudioView) -> bool {
    let (capture, render, _, _, _) = reported_route(v);
    exists|i: int| 0 <= i < capture.len() && render.contains(#[trigger] capture[i])
}

/// Private output must pause: the route is stale, renders nowhere, or is not duplex.
pub open spec fn output_paused(v: AudioView, now_ms: u64) -> bool {
    let (_, render, _, _, _) = reported_route(v);
    v.session->Some_0.private_output && (!fresh_at(v, now_ms) || render.len() == 0 || (
    v.session->Some_0.private_output && !duplex_route(v)))
}

/// The fields of a receipt that report the session and route of `v` at `now_ms`.
pub open spec fn reports(rc: AudioRouteReceipt, v: AudioView, now_ms: u64) -> bool {
    let s = v.session->Some_0;
    let (capture, render, generation, observed, evidence) = reported_route(v);
    &&& rc.turn_content_id@ == s.turn_content_id@
    &&& rc.capture@ == capture
    &&& rc.render@ == render
    &&& rc.duplex == duplex_route(v)
    &&& rc.generation == generation
    &&& rc.observed_at_ms == observed
    &&& rc.fresh == fresh_at(v, now_ms)
    &&& rc.evidence == evidence
    &&& rc.routing_contract == contract_for(s.api_level)->Some_0
    &&& rc.pcm == s.pcm
}

/// The receipt of `v` at `now_ms`: none without a session, a refusal for an
/// unsupported API level, otherwise the session, route and holds of `v`.
pub open spec fn receipt_outcome(v: AudioView, now_ms: u64, r: Result<Option<AudioRouteReceipt>, String>) -> bool {
    match v.session {
        None => r == Ok::<Option<AudioRouteReceipt>, String>(None),
        Some(s) => match contract_for(s.api_level) {
            None => r matches Err(m) && m@ == api_refusal(s.api_level),
            Some(_) => r matches Ok(Some(rc)) && reports(rc, v, now_ms) && rc.focus_held
                == v.focus_held && rc.communication_route_held == v.communication_route_held
                && rc.private_output_paused == output_paused(v, now_ms),
        },
    }
}

/// `o` is `observation` with its capture and render classes normalized.
pub open spec fn normalizes_route(observation: RouteObservation, o: RouteObservation) -> bool {
    &&& o.capture@ == normalized_classes(observation.capture@)
    &&& o.render@ == normalized_classes(observation.render@)
    &&& o.generation == observation.generation
    &&& o.observed_at_ms == observation.observed_at_ms
    &&& o.evidence == observation.evidence
}

/// One step of the audio state machine on `input`, from `pre` to `post` with result `r`.
pub open spec fn audio_step(
    pre: AudioView,
    input: AudioInput,
    post: AudioView,
    r: Result<Option<AudioRouteReceipt>, String>,
) -> bool {
    match input {
        AudioInput::Arm { spec } => if contract_for(spec.api_level) is None {
            r matches Err(m) && m@ == api_refusal(spec.api_level) && post == pre
        } else if !pcm_bounded(spec.pcm) {
            r matches Err(m) && m@ == PCM_REFUSAL@ && post == pre
        } else if !spec.admitted {
            r matches Err(m) && m@ == ADMISSION_REFUSAL@ && post == pre
        } else if !identity_and_expiry_valid(spec) {
            r matches Err(m) && m@ == IDENTITY_REFUSAL@ && post == pre
        } else {
            &&& post == (AudioView {
                session: Some(spec),
                route: pre.route,
                focus_held: true,
                communication_route_held: true,
            })
            &&& receipt_outcome(post, route_time(post), r)
        },
        AudioInput::Route { observation } => if pre.route matches Some(current)
            && observation.generation <= current.generation {
            r matches Err(m) && m@ == GENERATION_REFUSAL@ && post == pre
        } else {
            post.route matches Some(o) && normalizes_route(observation, o) && {
                let observed = AudioView {
                    session: pre.session,
                    route: Some(o),
                    focus_held: pre.focus_held,
                    communication_route_held: pre.communication_route_held,
                };
                if o.capture@.len() == 0 && o.render@.len() == 0 {
                    match pre.session {
                        Some(s) if contract_for(s.api_level) is Some => post == released(observed)
                            && (r matches Ok(Some(rc)) && reports(rc, observed, o.observed_at_ms)
                            && !rc.focus_held && !rc.communication_route_held
                            && rc.private_output_paused == (output_paused(observed, o.observed_at_ms)
                            || rc.render@.len() == 0)),
                        Some(s) => post == observed && (r matches Err(m) && m@ == api_refusal(
                            s.api_level,
                        )),
                        None => post == released(observed) && r == Ok::<
                            Option<AudioRouteReceipt>,
                            String,
                        >(None),
                    }
                } else {
                    post == observed && receipt_outcome(observed, o.observed_at_ms, r)
                }
            }
        },
        AudioInput::Stop { .. } => post == released(pre) && r == Ok::<
            Option<AudioRouteReceipt>,
            String,
        >(None),
        AudioInput::Tick { now_ms } => if pre.session matches Some(s) && now_ms >= s.expires_at_ms {
            post == released(pre) && r == Ok::<Option<AudioRouteReceipt>, String>(None)
        } else {
            post == pre && receipt_outcome(pre, now_ms, r)
        },
    }
}


/// The audio session a shell holds for one turn and the last observed route.
pub struct AndroidAudioState {
    session: Option<AudioSessionSpec>,
    route: Option<RouteObservation>,
    focus_held: bool,
    communication_route_held: bool,
}

impl View for AndroidAudioState {
    type V = AudioView;

    closed spec fn view(&self) -> AudioView {
        AudioView {
            session: self.session,
            route: self.route,
            focus_held: self.focus_held,
            communication_route_held: self.communication_route_held,
        }
    }
}

impl AndroidAudioState {
    /// Only a session at a supported API level is ever armed.
    #[verifier::type_invariant]
    spec fn armed_sessions_supported(&self) -> bool {
        session_supported(self@)
    }
}

impl Default for AndroidAudioState {
    fn default() -> (r: Self)
        ensures
            r@ == (AudioView {
                session: None,
                route: None,
                focus_held: false,
                communication_route_held: false,
            }),
    {
        AndroidAudioState { session: None, route: None, focus_held: false, communication_route_held: false }
    }
}

fn copy_classes(classes: &Vec<AudioRouteClass>) -> (r: Vec<AudioRouteClass>)
    ensures
        r@ == classes@,
{
    let mut out: Vec<AudioRouteClass> = Vec::new();
    for i in 0..classes.len()
        invariant
            out@ == classes@.take(i as int),
    {
        out.push(classes[i]);
        assert(out@ =~= classes@.take(i + 1));
    }
    assert(classes@.take(classes@.len() as int) =~= classes@);
    out
}

fn identity_valid(spec: &AudioSessionSpec) -> (r: bool)
    ensures
        r == identity_and_expiry_valid(*spec),
{
    let bytes = spec.turn_content_id.as_str().as_bytes();
    if bytes.len() != 64 {
        return false;
    }
    for i in 0..bytes.len()
        invariant
            bytes@ == encode_utf8(spec.turn_content_id@),
            forall|j: int| 0 <= j < i ==> hex_byte(#[trigger] bytes@[j]),
    {
        let b = bytes[i];
        if !((48 <= b && b <= 57) || (65 <= b && b <= 70) || (97 <= b && b <= 102)) {
            return false;
        }
    }
    spec.armed_at_ms < spec.expires_at_ms
}

impl AndroidAudioState {
    /// Apply one input, as [`audio_step`] states.
    pub fn dispatch(&mut self, input: AudioInput) -> (r: Result<Option<AudioRouteReceipt>, String>)
        ensures
            audio_step(old(self)@, input, final(self)@, r),
            session_supported(old(self)@),
            session_supported(final(self)@),
    {
        proof {
            use_type_invariant(&*self);
        }
        match input {
            AudioInput::Arm { spec } => {
                match RoutingContract::for_api(spec.api_level) {
                    Ok(_) => {},
                    Err(e) => {
                        return Err(e);
                    },
                }
                match spec.pcm.validate() {
                    Ok(()) => {},
                    Err(e) => {
                        return Err(e);
                    },
                }
                if !spec.admitted {
                    return Err(String::from_str(ADMISSION_REFUSAL));
                }
                if !identity_valid(&spec) {
                    return Err(String::from_str(IDENTITY_REFUSAL));
                }
                self.release();
                self.session = Some(spec);
                self.focus_held = true;
                self.communication_route_held = true;
                self.receipt()
            },
            AudioInput::Route { observation } => {
                let mut observation = observation;
                let ghost given = observation;
                normalize_classes(&mut observation.capture);
                normalize_classes(&mut observation.render);
                let stale = match &self.route {
                    Some(current) => observation.generation <= current.generation,
                    None => false,
                };
                if stale {
                    return Err(String::from_str(GENERATION_REFUSAL));
                }
                let route_lost = observation.capture.len() == 0 && observation.render.len() == 0;
                self.route = Some(observation);
                let receipt = match self.receipt() {
                    Ok(receipt) => receipt,
                    Err(e) => {
                        return Err(e);
                    },
                };
                if route_lost {
                    self.release();
                    match receipt {
                        Some(mut receipt) => {
                            receipt.focus_held = false;
                            receipt.communication_route_held = false;
                            receipt.private_output_paused = receipt.private_output_paused
                                || receipt.render.len() == 0;
                            Ok(Some(receipt))
                        },
                        None => Ok(None),
                    }
                } else {
                    Ok(receipt)
                }
            },
            AudioInput::Stop { .. } => {
                self.release();
                Ok(None)
            },
            AudioInput::Tick { now_ms } => {
                let expired = match &self.session {
                    Some(session) => now_ms >= session.expires_at_ms,
                    None => false,
                };
                if expired {
                    self.release();
                    Ok(None)
                } else {
                    self.receipt_at(now_ms)
                }
            },
        }
    }

    /// Release the session, focus and communication route; the route stays.
    pub fn release(&mut self)
        ensures
            final(self)@ == released(old(self)@),
    {
        self.session = None;
        self.focus_held = false;
        self.communication_route_held = false;
    }

    /// Whether a session is armed.
    pub fn armed(&self) -> (r: bool)
        ensures
            r == self@.session is Some,
    {
        self.session.is_some()
    }

    fn receipt(&self) -> (r: Result<Option<AudioRouteReceipt>, String>)
        ensures
            receipt_outcome(self@, route_time(self@), r),
    {
        let now = match &self.route {
            Some(route) => route.observed_at_ms,
            None => 0,
        };
        self.receipt_at(now)
    }

    fn receipt_at(&self, now_ms: u64) -> (r: Result<Option<AudioRouteReceipt>, String>)
        ensures
            receipt_outcome(self@, now_ms, r),
    {
        let session = match &self.session {
            Some(session) => session,
            None => {
                return Ok(None);
            },
        };
        let contract = match RoutingContract::for_api(session.api_level) {
            Ok(c) => c,
            Err(e) => {
                return Err(e);
            },
        };
        let (capture, render, generation, observed_at_ms, evidence) = match &self.route {
            Some(route) => (
                copy_classes(&route.capture),
                copy_classes(&route.render),
                route.generation,
                route.observed_at_ms,
                route.evidence,
            ),
            None => (Vec::new(), Vec::new(), 0, 0, RouteEvidence::InitialQuery),
        };
        let age = if now_ms >= observed_at_ms {
            now_ms - observed_at_ms
        } else {
            0
        };
        let fresh = generation > 0 && age <= FRESH_MS;
        let mut duplex = false;
        for i in 0..capture.len()
            invariant
                capture@ == reported_route(self@).0,
                render@ == reported_route(self@).1,
                duplex <==> exists|j: int| 0 <= j < i && render@.contains(#[trigger] capture@[j]),
        {
            if contains_class(&render, capture[i]) {
                duplex = true;
            }
        }
        let uncertain = !fresh || render.len() == 0 || (session.private_output && !duplex);
        assert(fresh == fresh_at(self@, now_ms));
        let id = session.turn_content_id.clone();
        assert(id@ == session.turn_content_id@);
        Ok(
            Some(
                AudioRouteReceipt {
                    turn_content_id: id,
                    capture,
                    render,
                    duplex,
                    generation,
                    observed_at_ms,
                    fresh,
                    evidence,
                    routing_contract: contract,
                    focus_held: self.focus_held,
                    communication_route_held: self.communication_route_held,
                    private_output_paused: session.private_output && uncertain,
                    pcm: session.pcm,
                },
            ),
        )
    }
}


/// Focus and the communication route are held exactly while a session is armed.
pub open spec fn holds_follow_session(v: AudioView) -> bool {
    v.focus_held == v.session is Some && v.communication_route_held == v.session is Some
}

/// Every step keeps focus and the communication route tied to the armed session.
pub proof fn law_holds_follow_session(
    pre: AudioView,
    input: AudioInput,
    post: AudioView,
    r: Result<Option<AudioRouteReceipt>, String>,
)
    requires
        holds_follow_session(pre),
        audio_step(pre, input, post, r),
    ensures
        holds_follow_session(post),
{
}

/// An armed session, if any, has a supported API level. The state a shell
/// starts in has no session, and every step keeps this so.
pub open spec fn session_supported(v: AudioView) -> bool {
    v.session matches Some(s) ==> contract_for(s.api_level) is Some
}

/// Every step keeps the armed session, if any, at a supported API level.
pub proof fn law_sessions_stay_supported(
    pre: AudioView,
    input: AudioInput,
    post: AudioView,
    r: Result<Option<AudioRouteReceipt>, String>,
)
    requires
        session_supported(pre),
        audio_step(pre, input, post, r),
    ensures
        session_supported(post),
{
}

/// Route generations only increase: a route observation that does not advance
/// the generation is refused and changes nothing, and one that advances it is
/// accepted and becomes the current route.
pub proof fn law_route_generation_increases(
    pre: AudioView,
    observation: RouteObservation,
    post: AudioView,
    r: Result<Option<AudioRouteReceipt>, String>,
)
    requires
        session_supported(pre),
        audio_step(pre, AudioInput::Route { observation }, post, r),
    ensures
        pre.route matches Some(c) && observation.generation <= c.generation ==> r is Err && post
            == pre,
        !(pre.route matches Some(c) && observation.generation <= c.generation) ==> r is Ok && (
        post.route matches Some(o) && normalizes_route(observation, o)),
        r is Err ==> post == pre,
        r is Ok ==> (post.route matches Some(o) && o.generation == observation.generation && (
        pre.route matches Some(c) ==> c.generation < o.generation)),
{
}

/// A route that neither captures nor renders releases the session, focus and
/// communication route, and its receipt pauses private output.
pub proof fn law_route_loss_releases(
    pre: AudioView,
    observation: RouteObservation,
    post: AudioView,
    r: Result<Option<AudioRouteReceipt>, String>,
)
    requires
        audio_step(pre, AudioInput::Route { observation }, post, r),
        normalized_classes(observation.capture@).len() == 0,
        normalized_classes(observation.render@).len() == 0,
        r is Ok,
    ensures
        post.session is None,
        !post.focus_held,
        !post.communication_route_held,
        r matches Ok(Some(rc)) ==> rc.private_output_paused && !rc.focus_held
            && !rc.communication_route_held,
{
}

/// A tick at or after the expiry releases the session and reports nothing.
pub proof fn law_expired_session_is_released(
    pre: AudioView,
    now_ms: u64,
    post: AudioView,
    r: Result<Option<AudioRouteReceipt>, String>,
)
    requires
        audio_step(pre, AudioInput::Tick { now_ms }, post, r),
        pre.session matches Some(s) && now_ms >= s.expires_at_ms,
    ensures
        post == released(pre),
        r == Ok::<Option<AudioRouteReceipt>, String>(None),
{
}

/// Some route class both captures and renders.
pub open spec fn shares_a_class(capture: Seq<AudioRouteClass>, render: Seq<AudioRouteClass>) -> bool {
    exists|c: AudioRouteClass| capture.contains(c) && render.contains(c)
}

/// A receipt's `duplex` says exactly whether some class it reports as
/// capturing is also among the classes it reports as rendering.
pub proof fn law_receipt_duplex_is_a_shared_class(rc: AudioRouteReceipt, v: AudioView, now_ms: u64)
    requires
        reports(rc, v, now_ms),
    ensures
        rc.duplex <==> shares_a_class(rc.capture@, rc.render@),
{
    let (capture, render, _, _, _) = reported_route(v);
    if rc.duplex {
        let i = choose|i: int| 0 <= i < capture.len() && render.contains(#[trigger] capture[i]);
        assert(rc.capture@.contains(capture[i]) && rc.render@.contains(capture[i]));
    }
    if shares_a_class(rc.capture@, rc.render@) {
        let c = choose|c: AudioRouteClass| rc.capture@.contains(c) && rc.render@.contains(c);
        let i = choose|i: int| 0 <= i < capture.len() && capture[i] == c;
        assert(render.contains(capture[i]));
    }
}

/// Every receipt a step issues reports `duplex` exactly when a capture class
/// also renders, and for a session with private output a route on which no
/// capture class renders pauses that output.
pub proof fn law_private_output_needs_a_duplex_route(
    pre: AudioView,
    input: AudioInput,
    post: AudioView,
    r: Result<Option<AudioRouteReceipt>, String>,
)
    requires
        audio_step(pre, input, post, r),
    ensures
        r matches Ok(Some(rc)) ==> (rc.duplex <==> shares_a_class(rc.capture@, rc.render@)),
        r matches Ok(Some(rc)) && !shares_a_class(rc.capture@, rc.render@) && (match input {
            AudioInput::Arm { spec } => spec.private_output,
            _ => pre.session matches Some(s) && s.private_output,
        }) ==> (r matches Ok(Some(rc)) && rc.private_output_paused),
{
    if let Ok(Some(rc)) = r {
        let now_ms = match input {
            AudioInput::Route { observation } => observation.observed_at_ms,
            AudioInput::Tick { now_ms } => now_ms,
            _ => route_time(post),
        };
        let v = match input {
            AudioInput::Route { .. } => AudioView {
                session: pre.session,
                route: post.route,
                focus_held: pre.focus_held,
                communication_route_held: pre.communication_route_held,
            },
            AudioInput::Arm { .. } => post,
            _ => pre,
        };
        assert(reports(rc, v, now_ms));
        law_receipt_duplex_is_a_shared_class(rc, v, now_ms);
    }
}

/// Private output is paused whenever the reported route is stale or renders nowhere.
pub proof fn law_private_output_pauses_on_uncertain_route(v: AudioView, now_ms: u64, r: Result<
    Option<AudioRouteReceipt>,
    String,
>)
    requires
        receipt_outcome(v, now_ms, r),
        v.session matches Some(s) && s.private_output,
        r matches Ok(Some(rc)) && (!rc.fresh || rc.render@.len() == 0 || !rc.duplex),
    ensures
        r matches Ok(Some(rc)) && rc.private_output_paused,
{
}

} // verus!
