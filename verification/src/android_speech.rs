//! Android local speech: evidence that a tier runs on the device with the
//! network denied, and the bounded transcribe/speak session state.
use vstd::prelude::*;
use crate::text::{blank, is_blank, lemma_text_order, str_eq, str_lt, text_lt, trim, trimmed, utf8_len};

verus! {

pub const MAX_PCM_BYTES: usize = 8388608;
pub const MAX_SPEAK_BYTES: usize = 32768;

#[derive(Clone, Copy, Debug, PartialEq, Eq, PartialOrd, Ord, Structural)]
pub enum SpeechKind {
    Transcribe,
    Speak,
}

#[derive(Clone, Copy, Debug, PartialEq, Eq, Structural)]
pub enum SpeechTier {
    OnDevice,
}

#[derive(Clone, Debug, PartialEq, Eq)]
pub struct SpeechLanguage {
    pub tag: String,
    pub installed: bool,
}

/// Evidence produced by the Android shell. Optimistic configuration is insufficient.
#[derive(Clone, Debug, PartialEq, Eq)]
pub struct LocalSpeechEvidence {
    pub kind: SpeechKind,
    pub implementation: String,
    pub explicitly_on_device: bool,
    pub remotely_backed: bool,
    pub discovery_contacted_provider: bool,
    pub prompted: bool,
    pub downloaded: bool,
    pub network_denied_self_test: bool,
    pub languages: Vec<SpeechLanguage>,
}

/// `l` placed into `sorted` after every language whose tag does not sort after its own.
pub open spec fn insert_by_tag(sorted: Seq<SpeechLanguage>, l: SpeechLanguage) -> Seq<SpeechLanguage>
    decreases sorted.len(),
{
    if sorted.len() == 0 {
        seq![l]
    } else if text_lt(l.tag@, sorted.last().tag@) {
        insert_by_tag(sorted.drop_last(), l).push(sorted.last())
    } else {
        sorted.push(l)
    }
}

/// `s` stably sorted by tag.
pub open spec fn sort_by_tag(s: Seq<SpeechLanguage>) -> Seq<SpeechLanguage>
    decreases s.len(),
{
    if s.len() == 0 {
        Seq::empty()
    } else {
        insert_by_tag(sort_by_tag(s.drop_last()), s.last())
    }
}

/// `s` with each language dropped whose tag equals that of the last one kept.
pub open spec fn dedup_by_tag(s: Seq<SpeechLanguage>) -> Seq<SpeechLanguage>
    decreases s.len(),
{
    if s.len() == 0 {
        Seq::empty()
    } else {
        let kept = dedup_by_tag(s.drop_last());
        if kept.len() > 0 && kept.last().tag@ == s.last().tag@ {
            kept
        } else {
            kept.push(s.last())
        }
    }
}

/// The languages of evidence as it is kept: sorted by tag, one per tag.
pub open spec fn normalized_languages(s: Seq<SpeechLanguage>) -> Seq<SpeechLanguage> {
    dedup_by_tag(sort_by_tag(s))
}

/// An installed language with a printable tag of at most 64 bytes.
pub open spec fn usable_language(l: SpeechLanguage) -> bool {
    l.installed && !blank(l.tag@) && utf8_len(l.tag@) <= 64
}

/// Normalized evidence proves a local tier: a named implementation, explicitly
/// on the device, not remotely backed, no provider contacted, no prompt, no
/// download, a passed network-denied self test, and at least one usable language.
pub open spec fn proves_local_tier(e: LocalSpeechEvidence) -> bool {
    &&& e.implementation@.len() > 0
    &&& e.explicitly_on_device
    &&& !e.remotely_backed
    &&& !e.discovery_contacted_provider
    &&& !e.prompted
    &&& !e.downloaded
    &&& e.network_denied_self_test
    &&& e.languages@.len() > 0
    &&& forall|i: int| 0 <= i < e.languages@.len() ==> usable_language(#[trigger] e.languages@[i])
}

/// `normalized` is `e` with its implementation trimmed and its languages normalized.
pub open spec fn normalizes(e: LocalSpeechEvidence, normalized: LocalSpeechEvidence) -> bool {
    &&& normalized.kind == e.kind
    &&& normalized.implementation@ == trimmed(e.implementation@)
    &&& normalized.explicitly_on_device == e.explicitly_on_device
    &&& normalized.remotely_backed == e.remotely_backed
    &&& normalized.discovery_contacted_provider == e.discovery_contacted_provider
    &&& normalized.prompted == e.prompted
    &&& normalized.downloaded == e.downloaded
    &&& normalized.network_denied_self_test == e.network_denied_self_test
    &&& normalized.languages@ == normalized_languages(e.languages@)
}

pub const EVIDENCE_REFUSAL: &'static str = "Android local speech requires installed-language, on-device, network-denied evidence";

proof fn lemma_insert_at(s: Seq<SpeechLanguage>, l: SpeechLanguage, j: int)
    requires
        0 <= j <= s.len(),
        forall|m: int| j <= m < s.len() ==> text_lt(l.tag@, #[trigger] s[m].tag@),
        j > 0 ==> !text_lt(l.tag@, s[j - 1].tag@),
    ensures
        insert_by_tag(s, l) == s.insert(j, l),
    decreases s.len(),
{
    if s.len() == j {
        assert(s.insert(j, l) =~= s.push(l));
    } else {
        lemma_insert_at(s.drop_last(), l, j);
        assert(s.insert(j, l) =~= s.drop_last().insert(j, l).push(s.last()));
    }
}

#[verifier::loop_isolation(false)]
fn insert_language(sorted: &mut Vec<SpeechLanguage>, l: SpeechLanguage)
    ensures
        final(sorted)@ == insert_by_tag(old(sorted)@, l),
{
    let ghost s = sorted@;
    let mut j = sorted.len();
    loop
        invariant
            j <= sorted@.len(),
            s == sorted@,
            forall|m: int| j <= m < sorted@.len() ==> text_lt(l.tag@, #[trigger] s[m].tag@),
        decreases j,
    {
        if j == 0 {
            break;
        }
        if !str_lt(l.tag.as_str(), sorted[j - 1].tag.as_str()) {
            break;
        }
        j = j - 1;
    }
    proof {
        lemma_insert_at(s, l, j as int);
    }
    sorted.insert(j, l);
}

/// The languages sorted by tag and deduplicated by tag, as [`normalized_languages`] states.
fn normalize_languages(languages: Vec<SpeechLanguage>) -> (r: Vec<SpeechLanguage>)
    ensures
        r@ == normalized_languages(languages@),
{
    let ghost all = languages@;
    let mut rest = languages;
    let mut reversed: Vec<SpeechLanguage> = Vec::new();
    while rest.len() > 0
        invariant
            rest@ + reversed@.reverse() == all,
        decreases rest.len(),
    {
        let l = rest.pop().unwrap();
        reversed.push(l);
        assert(rest@ + reversed@.reverse() =~= all);
    }
    assert(reversed@.reverse() =~= all);
    let n = reversed.len();
    let mut sorted: Vec<SpeechLanguage> = Vec::new();
    while reversed.len() > 0
        invariant
            n == all.len(),
            reversed@.len() <= n,
            reversed@.reverse() == all.skip(n - reversed@.len()),
            sorted@ == sort_by_tag(all.take(n - reversed@.len())),
        decreases reversed.len(),
    {
        let ghost before = reversed@;
        let l = reversed.pop().unwrap();
        let ghost k = n - reversed@.len() - 1;
        assert(reversed@ =~= before.drop_last());
        assert(before.reverse()[0] == before[before.len() - 1]);
        assert(all.skip(k)[0] == all[k]);
        assert(all.take(k + 1).drop_last() =~= all.take(k));
        insert_language(&mut sorted, l);
        assert forall|m: int| 0 <= m < reversed@.len() implies #[trigger] reversed@.reverse()[m]
            == all.skip(k + 1)[m] by {
            assert(reversed@.reverse()[m] == before.reverse()[m + 1]);
            assert(all.skip(k + 1)[m] == all.skip(k)[m + 1]);
        }
        assert(reversed@.reverse() =~= all.skip(k + 1));
    }
    assert(all.take(n as int) =~= all);
    let ghost ordered = sorted@;
    let mut kept: Vec<SpeechLanguage> = Vec::new();
    let mut pending: Vec<SpeechLanguage> = Vec::new();
    while sorted.len() > 0
        invariant
            sorted@ + pending@.reverse() == ordered,
        decreases sorted.len(),
    {
        let l = sorted.pop().unwrap();
        pending.push(l);
        assert(sorted@ + pending@.reverse() =~= ordered);
    }
    assert(pending@.reverse() =~= ordered);
    let m = pending.len();
    while pending.len() > 0
        invariant
            m == ordered.len(),
            pending@.len() <= m,
            pending@.reverse() == ordered.skip(m - pending@.len()),
            kept@ == dedup_by_tag(ordered.take(m - pending@.len())),
        decreases pending.len(),
    {
        let ghost before = pending@;
        let l = pending.pop().unwrap();
        let ghost k = m - pending@.len() - 1;
        assert(pending@ =~= before.drop_last());
        assert(before.reverse()[0] == before[before.len() - 1]);
        assert(ordered.skip(k)[0] == ordered[k]);
        assert(ordered.take(k + 1).drop_last() =~= ordered.take(k));
        let duplicate = kept.len() > 0 && str_eq(kept[kept.len() - 1].tag.as_str(), l.tag.as_str());
        if !duplicate {
            kept.push(l);
        }
        assert forall|i: int| 0 <= i < pending@.len() implies #[trigger] pending@.reverse()[i]
            == ordered.skip(k + 1)[i] by {
            assert(pending@.reverse()[i] == before.reverse()[i + 1]);
            assert(ordered.skip(k + 1)[i] == ordered.skip(k)[i + 1]);
        }
        assert(pending@.reverse() =~= ordered.skip(k + 1));
    }
    assert(ordered.take(m as int) =~= ordered);
    kept
}

fn usable(l: &SpeechLanguage) -> (r: bool)
    ensures
        r == usable_language(*l),
{
    l.installed && !is_blank(l.tag.as_str()) && l.tag.as_str().as_bytes().len() <= 64
}

impl LocalSpeechEvidence {
    /// Normalize the evidence (trimmed implementation, languages sorted and
    /// deduplicated by tag) and check that it proves a local tier.
    pub fn validate(&mut self) -> (r: Result<(), String>)
        ensures
            normalizes(*old(self), *final(self)),
            proves_local_tier(*final(self)) ==> r is Ok,
            !proves_local_tier(*final(self)) ==> (r matches Err(m) && m@ == EVIDENCE_REFUSAL@),
    {
        self.implementation = trim(self.implementation.as_str());
        let mut languages: Vec<SpeechLanguage> = Vec::new();
        std::mem::swap(&mut languages, &mut self.languages);
        self.languages = normalize_languages(languages);
        let mut all_usable = true;
        for i in 0..self.languages.len()
            invariant
                all_usable <==> forall|j: int|
                    0 <= j < i ==> usable_language(#[trigger] self.languages@[j]),
        {
            if !usable(&self.languages[i]) {
                all_usable = false;
            }
        }
        if self.implementation.as_str().as_bytes().len() == 0 || !self.explicitly_on_device
            || self.remotely_backed || self.discovery_contacted_provider || self.prompted
            || self.downloaded || !self.network_denied_self_test || !all_usable
            || self.languages.len() == 0 {
            return Err(String::from_str(EVIDENCE_REFUSAL));
        }
        Ok(())
    }
}


/// Evidence that proves a local tier once normalized.
pub open spec fn admissible(e: LocalSpeechEvidence) -> bool {
    &&& trimmed(e.implementation@).len() > 0
    &&& e.explicitly_on_device
    &&& !e.remotely_backed
    &&& !e.discovery_contacted_provider
    &&& !e.prompted
    &&& !e.downloaded
    &&& e.network_denied_self_test
    &&& normalized_languages(e.languages@).len() > 0
    &&& forall|i: int|
        0 <= i < normalized_languages(e.languages@).len() ==> usable_language(
            #[trigger] normalized_languages(e.languages@)[i],
        )
}

#[derive(Clone, Copy, Debug, PartialEq, Eq, Structural)]
pub enum SpeechFallback {
    VoiceNote,
    Type,
    Discard,
    PhoneScene,
    Silence,
}

#[derive(Clone, Copy, Debug, PartialEq, Eq, Structural)]
pub enum SpeechStopReason {
    Release,
    PermissionLoss,
    StaleRoute,
    LifecycleExpiry,
    OversizedInput,
    EmptyInput,
    Revocation,
}

#[derive(Clone, Debug, PartialEq, Eq)]
pub enum SpeechInput {
    InstallEvidence { evidence: LocalSpeechEvidence },
    Transcribe { language: String, pcm: Vec<u8> },
    Transcript { language: String, text: String },
    Speak { language: String, text: String },
    Complete,
    Stop { reason: SpeechStopReason },
}

#[derive(Clone, Debug, PartialEq, Eq)]
pub enum SpeechOutput {
    Available { kind: SpeechKind, tier: SpeechTier, languages: Vec<String> },
    Started { kind: SpeechKind, language: String },
    Transcript { language: String, text: String },
    Unsupported { kind: SpeechKind, fallback: SpeechFallback },
    Stopped { reason: SpeechStopReason },
}

impl SpeechOutput {
    /// Whether the output offers speech, rather than refusing or stopping it.
    pub fn is_available(&self) -> (r: bool)
        ensures
            r == !(self is Unsupported || self is Stopped),
    {
        match self {
            SpeechOutput::Unsupported { .. } => false,
            SpeechOutput::Stopped { .. } => false,
            _ => true,
        }
    }
}

/// What a missing tier falls back to.
pub open spec fn fallback_for(kind: SpeechKind) -> SpeechFallback {
    match kind {
        SpeechKind::Transcribe => SpeechFallback::VoiceNote,
        SpeechKind::Speak => SpeechFallback::Silence,
    }
}

fn fallback(kind: SpeechKind) -> (r: SpeechFallback)
    ensures
        r == fallback_for(kind),
{
    match kind {
        SpeechKind::Transcribe => SpeechFallback::VoiceNote,
        SpeechKind::Speak => SpeechFallback::Silence,
    }
}

/// Mathematical form of the speech state: the evidence installed per tier and
/// the active session, if any.
pub struct SpeechView {
    pub transcribe: Option<LocalSpeechEvidence>,
    pub speak: Option<LocalSpeechEvidence>,
    pub active: Option<SpeechKind>,
}

/// The evidence installed for `kind`.
pub open spec fn tier_of(v: SpeechView, kind: SpeechKind) -> Option<LocalSpeechEvidence> {
    match kind {
        SpeechKind::Transcribe => v.transcribe,
        SpeechKind::Speak => v.speak,
    }
}

/// The other kind.
pub open spec fn other_kind(kind: SpeechKind) -> SpeechKind {
    match kind {
        SpeechKind::Transcribe => SpeechKind::Speak,
        SpeechKind::Speak => SpeechKind::Transcribe,
    }
}

/// `v` with no active session.
pub open spec fn idle(v: SpeechView) -> SpeechView {
    SpeechView { transcribe: v.transcribe, speak: v.speak, active: None }
}

/// The installed evidence of a tier lists `language` as installed.
pub open spec fn supports(tier: Option<LocalSpeechEvidence>, language: Seq<char>) -> bool {
    tier matches Some(e) && exists|i: int|
        0 <= i < e.languages@.len() && #[trigger] e.languages@[i].tag@ == language
            && e.languages@[i].installed
}

/// The texts of strings.
pub open spec fn texts(s: Seq<String>) -> Seq<Seq<char>> {
    s.map_values(|t: String| t@)
}

/// The tags of languages.
pub open spec fn tags(s: Seq<SpeechLanguage>) -> Seq<Seq<char>> {
    s.map_values(|l: SpeechLanguage| l.tag@)
}

pub const TRANSCRIPT_REFUSAL: &'static str = "Android transcript arrived without an active local transcriber";

/// A stop for `reason`: the session ends, the tiers stay.
pub open spec fn stopped(pre: SpeechView, reason: SpeechStopReason, post: SpeechView, r: Result<
    SpeechOutput,
    String,
>) -> bool {
    r == Ok::<SpeechOutput, String>(SpeechOutput::Stopped { reason }) && post == idle(pre)
}

/// Starting a `kind` session in `language`: started when the tier lists the
/// language as installed, otherwise refused with the kind's fallback.
pub open spec fn start_step(
    pre: SpeechView,
    kind: SpeechKind,
    language: String,
    post: SpeechView,
    r: Result<SpeechOutput, String>,
) -> bool {
    if supports(tier_of(pre, kind), language@) {
        r == Ok::<SpeechOutput, String>(SpeechOutput::Started { kind, language })
            && post == SpeechView { transcribe: pre.transcribe, speak: pre.speak, active: Some(kind) }
    } else {
        r == Ok::<SpeechOutput, String>(
            SpeechOutput::Unsupported { kind, fallback: fallback_for(kind) },
        ) && post == pre
    }
}

/// One step of the speech state machine on `input`, from `pre` to `post` with result `r`.
pub open spec fn speech_step(
    pre: SpeechView,
    input: SpeechInput,
    post: SpeechView,
    r: Result<SpeechOutput, String>,
) -> bool {
    match input {
        SpeechInput::InstallEvidence { evidence } => if admissible(evidence) {
            &&& r matches Ok(SpeechOutput::Available { kind, tier, languages }) && kind
                == evidence.kind && tier == SpeechTier::OnDevice && texts(languages@) == tags(
                normalized_languages(evidence.languages@),
            )
            &&& tier_of(post, evidence.kind) matches Some(n) && normalizes(evidence, n)
            &&& tier_of(post, other_kind(evidence.kind)) == tier_of(pre, other_kind(evidence.kind))
            &&& post.active == pre.active
        } else {
            r matches Err(m) && m@ == EVIDENCE_REFUSAL@ && post == pre
        },
        SpeechInput::Transcribe { language, pcm } => if pcm@.len() == 0 {
            stopped(pre, SpeechStopReason::EmptyInput, post, r)
        } else if pcm@.len() > MAX_PCM_BYTES {
            stopped(pre, SpeechStopReason::OversizedInput, post, r)
        } else {
            start_step(pre, SpeechKind::Transcribe, language, post, r)
        },
        SpeechInput::Speak { language, text } => if blank(text@) {
            stopped(pre, SpeechStopReason::EmptyInput, post, r)
        } else if utf8_len(text@) > MAX_SPEAK_BYTES {
            stopped(pre, SpeechStopReason::OversizedInput, post, r)
        } else {
            start_step(pre, SpeechKind::Speak, language, post, r)
        },
        SpeechInput::Transcript { language, text } => if pre.active != Some(SpeechKind::Transcribe) {
            r matches Err(m) && m@ == TRANSCRIPT_REFUSAL@ && post == pre
        } else if blank(text@) {
            stopped(pre, SpeechStopReason::EmptyInput, post, r)
        } else {
            r == Ok::<SpeechOutput, String>(SpeechOutput::Transcript { language, text }) && post
                == idle(pre)
        },
        SpeechInput::Complete => stopped(pre, SpeechStopReason::Release, post, r),
        SpeechInput::Stop { reason } => stopped(pre, reason, post, r),
    }
}

/// The local speech tiers of a shell and its one active session.
pub struct AndroidSpeechState {
    transcribe: Option<LocalSpeechEvidence>,
    speak: Option<LocalSpeechEvidence>,
    active: Option<SpeechKind>,
}

impl View for AndroidSpeechState {
    type V = SpeechView;

    closed spec fn view(&self) -> SpeechView {
        SpeechView { transcribe: self.transcribe, speak: self.speak, active: self.active }
    }
}

impl Default for AndroidSpeechState {
    fn default() -> (r: Self)
        ensures
            r@ == (SpeechView { transcribe: None, speak: None, active: None }),
    {
        AndroidSpeechState { transcribe: None, speak: None, active: None }
    }
}

fn language_tags(languages: &Vec<SpeechLanguage>) -> (r: Vec<String>)
    ensures
        texts(r@) == tags(languages@),
{
    let mut out: Vec<String> = Vec::new();
    for i in 0..languages.len()
        invariant
            out@.len() == i,
            forall|j: int| 0 <= j < i ==> #[trigger] out@[j]@ == languages@[j].tag@,
    {
        out.push(languages[i].tag.clone());
    }
    assert(texts(out@) =~= tags(languages@));
    out
}

fn lists_installed(evidence: &LocalSpeechEvidence, language: &str) -> (r: bool)
    ensures
        r == supports(Some(*evidence), language@),
{
    for i in 0..evidence.languages.len()
        invariant
            forall|j: int|
                0 <= j < i ==> !(#[trigger] evidence.languages@[j].tag@ == language@
                    && evidence.languages@[j].installed),
    {
        if str_eq(evidence.languages[i].tag.as_str(), language) && evidence.languages[i].installed {
            return true;
        }
    }
    false
}

impl AndroidSpeechState {
    /// The evidence installed for `kind`.
    fn tier(&self, kind: SpeechKind) -> (r: &Option<LocalSpeechEvidence>)
        ensures
            *r == tier_of(self@, kind),
    {
        match kind {
            SpeechKind::Transcribe => &self.transcribe,
            SpeechKind::Speak => &self.speak,
        }
    }

    /// Apply one input, as [`speech_step`] states.
    pub fn dispatch(&mut self, input: SpeechInput) -> (r: Result<SpeechOutput, String>)
        ensures
            speech_step(old(self)@, input, final(self)@, r),
    {
        match input {
            SpeechInput::InstallEvidence { evidence } => {
                let mut evidence = evidence;
                match evidence.validate() {
                    Ok(()) => {},
                    Err(e) => {
                        return Err(e);
                    },
                }
                let kind = evidence.kind;
                let languages = language_tags(&evidence.languages);
                match kind {
                    SpeechKind::Transcribe => {
                        self.transcribe = Some(evidence);
                    },
                    SpeechKind::Speak => {
                        self.speak = Some(evidence);
                    },
                }
                Ok(SpeechOutput::Available { kind, tier: SpeechTier::OnDevice, languages })
            },
            SpeechInput::Transcribe { language, pcm } => {
                if pcm.len() == 0 {
                    return Ok(self.stop_for(SpeechStopReason::EmptyInput));
                }
                if pcm.len() > MAX_PCM_BYTES {
                    return Ok(self.stop_for(SpeechStopReason::OversizedInput));
                }
                Ok(self.start(SpeechKind::Transcribe, language))
            },
            SpeechInput::Speak { language, text } => {
                if is_blank(text.as_str()) {
                    return Ok(self.stop_for(SpeechStopReason::EmptyInput));
                }
                if text.as_str().as_bytes().len() > MAX_SPEAK_BYTES {
                    return Ok(self.stop_for(SpeechStopReason::OversizedInput));
                }
                Ok(self.start(SpeechKind::Speak, language))
            },
            SpeechInput::Transcript { language, text } => {
                if self.active != Some(SpeechKind::Transcribe) {
                    return Err(String::from_str(TRANSCRIPT_REFUSAL));
                }
                if is_blank(text.as_str()) {
                    return Ok(self.stop_for(SpeechStopReason::EmptyInput));
                }
                self.active = None;
                Ok(SpeechOutput::Transcript { language, text })
            },
            SpeechInput::Complete => Ok(self.stop_for(SpeechStopReason::Release)),
            SpeechInput::Stop { reason } => Ok(self.stop_for(reason)),
        }
    }

    fn start(&mut self, kind: SpeechKind, language: String) -> (r: SpeechOutput)
        ensures
            start_step(old(self)@, kind, language, final(self)@, Ok(r)),
    {
        let supported = match self.tier(kind) {
            Some(evidence) => lists_installed(evidence, language.as_str()),
            None => false,
        };
        if !supported {
            return SpeechOutput::Unsupported { kind, fallback: fallback(kind) };
        }
        self.active = Some(kind);
        SpeechOutput::Started { kind, language }
    }

    fn stop_for(&mut self, reason: SpeechStopReason) -> (r: SpeechOutput)
        ensures
            r == (SpeechOutput::Stopped { reason }),
            final(self)@ == idle(old(self)@),
    {
        self.active = None;
        SpeechOutput::Stopped { reason }
    }

    /// End the active session for `reason`; the tiers stay.
    pub fn release(&mut self, reason: SpeechStopReason)
        ensures
            final(self)@ == idle(old(self)@),
    {
        self.active = None;
    }
}


/// Every advertised tier carries evidence that proves it local, for its own
/// kind, and a session is active only on an advertised tier.
pub open spec fn tiers_proven(v: SpeechView) -> bool {
    &&& forall|kind: SpeechKind| #[trigger] tier_of(v, kind) matches Some(e) ==> proves_local_tier(e)
        && e.kind == kind
    &&& v.active matches Some(kind) ==> tier_of(v, kind) is Some
}

/// The state a shell starts in advertises nothing.
pub proof fn law_initial_state_is_proven()
    ensures
        tiers_proven(SpeechView { transcribe: None, speak: None, active: None }),
{
}

/// Every advertised tier requires network-denied, on-device proof: no input
/// makes a state advertise a tier without it.
pub proof fn law_every_advertised_tier_is_proven(
    pre: SpeechView,
    input: SpeechInput,
    post: SpeechView,
    r: Result<SpeechOutput, String>,
)
    requires
        tiers_proven(pre),
        speech_step(pre, input, post, r),
    ensures
        tiers_proven(post),
{
    assert forall|kind: SpeechKind| #[trigger] tier_of(post, kind) is Some implies proves_local_tier(
        tier_of(post, kind)->Some_0,
    ) && tier_of(post, kind)->Some_0.kind == kind by {
        if let SpeechInput::InstallEvidence { evidence } = input {
            if admissible(evidence) && kind == evidence.kind {
                let n = tier_of(post, kind)->Some_0;
                assert(normalizes(evidence, n));
            } else if admissible(evidence) {
                assert(kind == other_kind(evidence.kind));
            }
        }
    }
}

/// Evidence from a remotely backed recognizer never installs a tier: it is
/// refused and the state stays as it was.
pub proof fn law_remote_recognizer_is_refused(
    pre: SpeechView,
    evidence: LocalSpeechEvidence,
    post: SpeechView,
    r: Result<SpeechOutput, String>,
)
    requires
        evidence.remotely_backed,
        speech_step(pre, SpeechInput::InstallEvidence { evidence }, post, r),
    ensures
        r is Err,
        post == pre,
{
}

/// Every stop cause, completion included, ends the active session and keeps the tiers.
pub proof fn law_every_stop_reaps_the_session(
    pre: SpeechView,
    reason: SpeechStopReason,
    post: SpeechView,
    r: Result<SpeechOutput, String>,
)
    requires
        speech_step(pre, SpeechInput::Stop { reason }, post, r),
    ensures
        post.active is None,
        post.transcribe == pre.transcribe,
        post.speak == pre.speak,
        r == Ok::<SpeechOutput, String>(SpeechOutput::Stopped { reason }),
{
}


/// Languages in tag order: no tag sorts before that of an earlier language.
pub open spec fn sorted_by_tag(s: Seq<SpeechLanguage>) -> bool {
    forall|i: int, j: int| 0 <= i < j < s.len() ==> !text_lt(#[trigger] s[j].tag@, #[trigger] s[i].tag@)
}

proof fn lemma_insert_tag_contents(sorted: Seq<SpeechLanguage>, l: SpeechLanguage)
    ensures
        insert_by_tag(sorted, l).len() == sorted.len() + 1,
        forall|k: int|
            0 <= k < insert_by_tag(sorted, l).len() ==> #[trigger] insert_by_tag(sorted, l)[k]
                == l || exists|i: int| 0 <= i < sorted.len() && insert_by_tag(sorted, l)[k] == sorted[i],
    decreases sorted.len(),
{
    if sorted.len() > 0 && text_lt(l.tag@, sorted.last().tag@) {
        let rest = sorted.drop_last();
        lemma_insert_tag_contents(rest, l);
        let r = insert_by_tag(sorted, l);
        assert forall|k: int| 0 <= k < r.len() implies #[trigger] r[k] == l || exists|i: int|
            0 <= i < sorted.len() && r[k] == sorted[i] by {
            if k < r.len() - 1 {
                let r0 = insert_by_tag(rest, l);
                assert(r[k] == r0[k]);
                if r0[k] != l {
                    let i = choose|i: int| 0 <= i < rest.len() && r0[k] == rest[i];
                    assert(r[k] == sorted[i]);
                }
            } else {
                assert(r[k] == sorted[sorted.len() - 1]);
            }
        }
    }
}

proof fn lemma_insert_tag_sorted(sorted: Seq<SpeechLanguage>, l: SpeechLanguage)
    requires
        sorted_by_tag(sorted),
    ensures
        sorted_by_tag(insert_by_tag(sorted, l)),
    decreases sorted.len(),
{
    if sorted.len() == 0 {
    } else if text_lt(l.tag@, sorted.last().tag@) {
        let rest = sorted.drop_last();
        let last = sorted.last();
        lemma_insert_tag_sorted(rest, l);
        lemma_insert_tag_contents(rest, l);
        let r0 = insert_by_tag(rest, l);
        assert forall|i: int| 0 <= i < r0.len() implies !text_lt(last.tag@, #[trigger] r0[i].tag@) by {
            if r0[i] == l {
                lemma_text_order(l.tag@, last.tag@, last.tag@);
            } else {
                let k = choose|k: int| 0 <= k < rest.len() && r0[i] == rest[k];
                assert(sorted[k] == rest[k]);
                assert(!text_lt(sorted[sorted.len() - 1].tag@, sorted[k].tag@));
            }
        }
        let r = r0.push(last);
        assert forall|i: int, j: int| 0 <= i < j < r.len() implies !text_lt(#[trigger] r[j].tag@, #[trigger] r[i].tag@) by {
            if j < r0.len() {
                assert(r[i] == r0[i] && r[j] == r0[j]);
            } else {
                assert(r[i] == r0[i]);
            }
        }
    } else {
        let last = sorted.last();
        let r = sorted.push(l);
        assert forall|i: int| 0 <= i < sorted.len() implies !text_lt(l.tag@, #[trigger] sorted[i].tag@) by {
            let n = sorted.len() - 1;
            if i < n {
                assert(!text_lt(sorted[n].tag@, sorted[i].tag@));
                lemma_text_order(sorted[i].tag@, last.tag@, l.tag@);
                lemma_text_order(l.tag@, sorted[i].tag@, last.tag@);
            }
        }
        assert forall|i: int, j: int| 0 <= i < j < r.len() implies !text_lt(#[trigger] r[j].tag@, #[trigger] r[i].tag@) by {
            if j < sorted.len() {
                assert(r[i] == sorted[i] && r[j] == sorted[j]);
            } else {
                assert(r[i] == sorted[i]);
            }
        }
    }
}

proof fn lemma_sort_tag_sorted(s: Seq<SpeechLanguage>)
    ensures
        sorted_by_tag(sort_by_tag(s)),
    decreases s.len(),
{
    if s.len() > 0 {
        lemma_sort_tag_sorted(s.drop_last());
        lemma_insert_tag_sorted(sort_by_tag(s.drop_last()), s.last());
    }
}

/// Tags strictly increase along `s`.
pub open spec fn tags_increase(s: Seq<SpeechLanguage>) -> bool {
    forall|i: int, j: int| 0 <= i < j < s.len() ==> text_lt(#[trigger] s[i].tag@, #[trigger] s[j].tag@)
}

proof fn lemma_dedup_increasing(s: Seq<SpeechLanguage>)
    requires
        sorted_by_tag(s),
    ensures
        tags_increase(dedup_by_tag(s)),
        s.len() > 0 ==> dedup_by_tag(s).len() > 0 && dedup_by_tag(s).last().tag@ == s.last().tag@,
    decreases s.len(),
{
    if s.len() > 0 {
        let rest = s.drop_last();
        assert(sorted_by_tag(rest)) by {
            assert forall|i: int, j: int| 0 <= i < j < rest.len() implies !text_lt(#[trigger] rest[j].tag@, #[trigger] rest[i].tag@) by {
                assert(rest[i] == s[i] && rest[j] == s[j]);
            }
        }
        lemma_dedup_increasing(rest);
        let kept = dedup_by_tag(rest);
        if kept.len() > 0 && kept.last().tag@ == s.last().tag@ {
        } else {
            let r = kept.push(s.last());
            if kept.len() > 0 {
                let n = s.len() - 1;
                assert(kept.last().tag@ == s[n - 1].tag@);
                assert(!text_lt(s[n].tag@, s[n - 1].tag@));
                lemma_text_order(s[n - 1].tag@, s[n].tag@, s[n].tag@);
                assert(text_lt(kept.last().tag@, s.last().tag@));
                assert forall|i: int, j: int| 0 <= i < j < r.len() implies text_lt(#[trigger] r[i].tag@, #[trigger] r[j].tag@) by {
                    if j < kept.len() {
                        assert(r[i] == kept[i] && r[j] == kept[j]);
                    } else if i < kept.len() - 1 {
                        assert(r[i] == kept[i]);
                        assert(text_lt(kept[i].tag@, kept[kept.len() - 1].tag@));
                        lemma_text_order(kept[i].tag@, kept[kept.len() - 1].tag@, s.last().tag@);
                    } else {
                        assert(r[i] == kept[kept.len() - 1]);
                    }
                }
            }
        }
    }
}

/// Normalized evidence lists each tag once, in increasing tag order.
pub proof fn law_normalized_tags_strictly_increase(languages: Seq<SpeechLanguage>)
    ensures
        tags_increase(normalized_languages(languages)),
{
    lemma_sort_tag_sorted(languages);
    lemma_dedup_increasing(sort_by_tag(languages));
}

} // verus!
