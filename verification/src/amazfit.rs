//! Bounded Amazfit proxy state machine hosted by the Android capsule.
//!
//! Frames arrive as JSON envelopes; decoding a frame into an [`Envelope`] is
//! the caller's part, and [`AmazfitCapsule::receive_parsed`] decides what the
//! decoded frame does to the capsule.
use vstd::prelude::*;
use crate::text::{is_short, short_text};

verus! {

/// Maximum accepted official-wire frame size.
pub const MAX_FRAME_BYTES: usize = 4096;
/// Maximum pending host-bound events; newest data never displaces accepted work.
pub const MAX_PENDING_EVENTS: usize = 32;
/// Wire protocol version shared with the committed Zepp shell.
pub const PROTOCOL_VERSION: u8 = 1;

#[derive(Clone, Copy, Debug, PartialEq, Eq, Structural)]
pub enum Lifecycle {
    Created,
    Active,
    Suspended,
    Destroyed,
}

#[derive(Clone, Debug, PartialEq, Eq)]
pub enum WatchEvent {
    Button { key: String },
    Touch { action: String, x: i16, y: i16 },
    Sensor { sensor: String, value_milli: i32, monotonic_ms: u64 },
    Acknowledgement { action: String },
}

#[derive(Clone, Debug, PartialEq, Eq)]
pub enum HostCommand {
    Glance { title: String, body: String },
    Haptic { pattern: String },
    Clear,
}

#[derive(Clone, Debug, PartialEq, Eq)]
pub struct Envelope<T> {
    pub version: u8,
    pub session: u64,
    pub sequence: u64,
    pub payload: T,
}

#[derive(Clone, Copy, Debug, PartialEq, Eq, Structural)]
pub enum ProxyError {
    Malformed,
    Oversized,
    WrongVersion,
    StaleSession,
    Inactive,
    ConsentRequired,
    QueueFull,
}

/// An event's text fields are bounded and printable (32 bytes for keys and
/// touch actions, 48 for sensor names, 64 for acknowledgements).
pub open spec fn event_valid(event: WatchEvent) -> bool {
    match event {
        WatchEvent::Button { key } => short_text(key@, 32),
        WatchEvent::Touch { action, .. } => short_text(action@, 32),
        WatchEvent::Sensor { sensor, .. } => short_text(sensor@, 48),
        WatchEvent::Acknowledgement { action } => short_text(action@, 64),
    }
}

/// A command's text fields are bounded and printable (glance title 80 and
/// body 512 bytes, haptic pattern 32); `Clear` is always valid.
pub open spec fn command_valid(command: HostCommand) -> bool {
    match command {
        HostCommand::Glance { title, body } => short_text(title@, 80) && short_text(body@, 512),
        HostCommand::Haptic { pattern } => short_text(pattern@, 32),
        HostCommand::Clear => true,
    }
}

fn validate_event(event: &WatchEvent) -> (r: Result<(), ProxyError>)
    ensures
        event_valid(*event) ==> r is Ok,
        !event_valid(*event) ==> r == Err::<(), ProxyError>(ProxyError::Malformed),
{
    let valid = match event {
        WatchEvent::Button { key } => is_short(key.as_str(), 32),
        WatchEvent::Touch { action, .. } => is_short(action.as_str(), 32),
        WatchEvent::Sensor { sensor, .. } => is_short(sensor.as_str(), 48),
        WatchEvent::Acknowledgement { action } => is_short(action.as_str(), 64),
    };
    if valid {
        Ok(())
    } else {
        Err(ProxyError::Malformed)
    }
}

fn validate_command(command: &HostCommand) -> (r: Result<(), ProxyError>)
    ensures
        command_valid(*command) ==> r is Ok,
        !command_valid(*command) ==> r == Err::<(), ProxyError>(ProxyError::Malformed),
{
    let valid = match command {
        HostCommand::Glance { title, body } => is_short(title.as_str(), 80) && is_short(
            body.as_str(),
            512,
        ),
        HostCommand::Haptic { pattern } => is_short(pattern.as_str(), 32),
        HostCommand::Clear => true,
    };
    if valid {
        Ok(())
    } else {
        Err(ProxyError::Malformed)
    }
}

/// Companion-owned proxy. Domain consumers see only `WATCH_8` contracts produced by the host adapter.
pub struct AmazfitCapsule {
    lifecycle: Lifecycle,
    consent: bool,
    connected: bool,
    session: u64,
    seen: Vec<u64>,
    pending: Vec<Envelope<WatchEvent>>,
}

/// Mathematical state of an [`AmazfitCapsule`]: lifecycle, consent and link
/// flags, the session, the sequences accepted in it and the pending events.
pub struct AmazfitView {
    pub lifecycle: Lifecycle,
    pub consent: bool,
    pub connected: bool,
    pub session: u64,
    pub seen: Set<u64>,
    pub pending: Seq<Envelope<WatchEvent>>,
}

impl View for AmazfitCapsule {
    type V = AmazfitView;

    closed spec fn view(&self) -> AmazfitView {
        AmazfitView {
            lifecycle: self.lifecycle,
            consent: self.consent,
            connected: self.connected,
            session: self.session,
            seen: self.seen@.to_set(),
            pending: self.pending@,
        }
    }
}

/// The capsule with its link torn down.
pub open spec fn spec_disconnected(v: AmazfitView) -> AmazfitView {
    AmazfitView { connected: false, seen: Set::empty(), pending: Seq::empty(), ..v }
}

/// The refusal, if any, of a capsule asked to carry traffic.
pub open spec fn spec_require_active(v: AmazfitView) -> Result<(), ProxyError> {
    if !v.consent {
        Err(ProxyError::ConsentRequired)
    } else if !v.connected || v.lifecycle != Lifecycle::Active {
        Err(ProxyError::Inactive)
    } else {
        Ok(())
    }
}

/// One frame of `frame_len` bytes, decoded to `parsed` (`None` when it is not a
/// well-formed envelope), delivered to the capsule: the state after it and the answer.
pub open spec fn spec_receive(
    pre: AmazfitView,
    frame_len: nat,
    parsed: Option<Envelope<WatchEvent>>,
) -> (AmazfitView, Result<bool, ProxyError>) {
    if frame_len > MAX_FRAME_BYTES {
        (pre, Err(ProxyError::Oversized))
    } else {
        match spec_require_active(pre) {
            Err(e) => (pre, Err(e)),
            Ok(_) => match parsed {
                None => (pre, Err(ProxyError::Malformed)),
                Some(event) => if event.version != PROTOCOL_VERSION {
                    (pre, Err(ProxyError::WrongVersion))
                } else if event.session != pre.session {
                    (pre, Err(ProxyError::StaleSession))
                } else if !event_valid(event.payload) {
                    (pre, Err(ProxyError::Malformed))
                } else if pre.seen.contains(event.sequence) {
                    (pre, Ok(false))
                } else if pre.pending.len() == MAX_PENDING_EVENTS {
                    (pre, Err(ProxyError::QueueFull))
                } else {
                    (
                        AmazfitView {
                            seen: pre.seen.insert(event.sequence),
                            pending: pre.pending.push(event),
                            ..pre
                        },
                        Ok(true),
                    )
                },
            },
        }
    }
}

fn contains_u64(items: &Vec<u64>, value: u64) -> (r: bool)
    ensures
        r == items@.contains(value),
{
    for i in 0..items.len()
        invariant
            forall|j: int| 0 <= j < i ==> items@[j] != value,
    {
        if items[i] == value {
            return true;
        }
    }
    false
}

impl AmazfitCapsule {
    /// Records the host lifecycle; suspension and destruction tear the link down.
    pub fn lifecycle(&mut self, state: Lifecycle)
        ensures
            final(self)@ == (if state == Lifecycle::Suspended || state == Lifecycle::Destroyed {
                spec_disconnected(AmazfitView { lifecycle: state, ..old(self)@ })
            } else {
                AmazfitView { lifecycle: state, ..old(self)@ }
            }),
    {
        self.lifecycle = state;
        if state == Lifecycle::Suspended || state == Lifecycle::Destroyed {
            self.disconnect();
        }
    }

    /// Records consent; withdrawing it tears the link down.
    pub fn set_consent(&mut self, granted: bool)
        ensures
            final(self)@ == (if !granted {
                spec_disconnected(AmazfitView { consent: granted, ..old(self)@ })
            } else {
                AmazfitView { consent: granted, ..old(self)@ }
            }),
    {
        self.consent = granted;
        if !granted {
            self.disconnect();
        }
    }

    /// Activates a consented capsule for `session`.
    ///
    /// Refuses with `ConsentRequired` without consent, else with `Inactive`
    /// unless the lifecycle is active; a refusal changes nothing.
    pub fn connect(&mut self, session: u64) -> (r: Result<(), ProxyError>)
        ensures
            !old(self)@.consent ==> r == Err::<(), ProxyError>(ProxyError::ConsentRequired)
                && final(self)@ == old(self)@,
            old(self)@.consent && old(self)@.lifecycle != Lifecycle::Active ==> r == Err::<
                (),
                ProxyError,
            >(ProxyError::Inactive) && final(self)@ == old(self)@,
            old(self)@.consent && old(self)@.lifecycle == Lifecycle::Active ==> r is Ok
                && final(self)@ == (AmazfitView {
                connected: true,
                session,
                seen: Set::empty(),
                pending: Seq::empty(),
                ..old(self)@
            }),
    {
        if !self.consent {
            return Err(ProxyError::ConsentRequired);
        }
        if self.lifecycle != Lifecycle::Active {
            return Err(ProxyError::Inactive);
        }
        self.connected = true;
        self.session = session;
        self.seen.clear();
        self.pending.clear();
        assert(self@.seen =~= Set::empty());
        Ok(())
    }

    /// Tears down the link: disconnected, nothing seen, nothing pending.
    pub fn disconnect(&mut self)
        ensures
            final(self)@ == spec_disconnected(old(self)@),
    {
        self.connected = false;
        self.seen.clear();
        self.pending.clear();
        assert(self@.seen =~= Set::empty());
        assert(self@.pending =~= Seq::empty());
    }

    /// Accepts one bounded event frame of `frame_len` bytes from the companion
    /// transport, given what decoding it produced (`None` for a frame that is
    /// not a well-formed envelope). `Ok(true)` queues the event, `Ok(false)`
    /// ignores a sequence already accepted in this session; see [`spec_receive`].
    pub fn receive_parsed(&mut self, frame_len: usize, parsed: Option<Envelope<WatchEvent>>) -> (r:
        Result<bool, ProxyError>)
        ensures
            (final(self)@, r) == spec_receive(old(self)@, frame_len as nat, parsed),
    {
        if frame_len > MAX_FRAME_BYTES {
            return Err(ProxyError::Oversized);
        }
        if !self.consent {
            return Err(ProxyError::ConsentRequired);
        }
        if !self.connected || self.lifecycle != Lifecycle::Active {
            return Err(ProxyError::Inactive);
        }
        let event = match parsed {
            Some(event) => event,
            None => return Err(ProxyError::Malformed),
        };
        if event.version != PROTOCOL_VERSION {
            return Err(ProxyError::WrongVersion);
        }
        if event.session != self.session {
            return Err(ProxyError::StaleSession);
        }
        validate_event(&event.payload)?;
        proof {
            assert(self.seen@.to_set().contains(event.sequence) == self.seen@.contains(
                event.sequence,
            ));
        }
        if contains_u64(&self.seen, event.sequence) {
            return Ok(false);
        }
        if self.pending.len() == MAX_PENDING_EVENTS {
            return Err(ProxyError::QueueFull);
        }
        proof {
            self.seen@.lemma_push_to_set_commute(event.sequence);
        }
        self.seen.push(event.sequence);
        self.pending.push(event);
        Ok(true)
    }

    /// Takes the oldest pending event, if any.
    pub fn next_event(&mut self) -> (r: Option<Envelope<WatchEvent>>)
        ensures
            old(self)@.pending.len() == 0 ==> r is None && final(self)@ == old(self)@,
            old(self)@.pending.len() > 0 ==> (r == Some(old(self)@.pending[0]) && final(self)@ == (
            AmazfitView { pending: old(self)@.pending.drop_first(), ..old(self)@ })),
    {
        if self.pending.len() == 0 {
            return None;
        }
        let ghost pre = self@;
        let event = self.pending.remove(0);
        assert(self@.pending =~= pre.pending.drop_first());
        Some(event)
    }

    /// Checks authority and the command, and returns the envelope that carries
    /// it under the capsule's session; encoding it is the caller's part, and
    /// [`bounded_frame`] then checks the encoded size.
    pub fn prepare_command(&self, sequence: u64, command: HostCommand) -> (r: Result<
        Envelope<HostCommand>,
        ProxyError,
    >)
        ensures
            match spec_require_active(self@) {
                Err(e) => r == Err::<Envelope<HostCommand>, ProxyError>(e),
                Ok(_) => if command_valid(command) {
                    r == Ok::<Envelope<HostCommand>, ProxyError>(
                        Envelope {
                            version: PROTOCOL_VERSION,
                            session: self@.session,
                            sequence,
                            payload: command,
                        },
                    )
                } else {
                    r == Err::<Envelope<HostCommand>, ProxyError>(ProxyError::Malformed)
                },
            },
    {
        if !self.consent {
            return Err(ProxyError::ConsentRequired);
        }
        if !self.connected || self.lifecycle != Lifecycle::Active {
            return Err(ProxyError::Inactive);
        }
        validate_command(&command)?;
        Ok(Envelope { version: PROTOCOL_VERSION, session: self.session, sequence, payload: command })
    }
}

impl Default for AmazfitCapsule {
    /// A created capsule without consent, link, or state.
    fn default() -> (r: Self)
        ensures
            r@ == (AmazfitView {
                lifecycle: Lifecycle::Created,
                consent: false,
                connected: false,
                session: 0,
                seen: Set::empty(),
                pending: Seq::empty(),
            }),
    {
        let r = AmazfitCapsule {
            lifecycle: Lifecycle::Created,
            consent: false,
            connected: false,
            session: 0,
            seen: Vec::new(),
            pending: Vec::new(),
        };
        assert(r@.seen =~= Set::empty());
        r
    }
}

/// An encoded command frame is sent only within `MAX_FRAME_BYTES`.
pub fn bounded_frame(bytes: Vec<u8>) -> (r: Result<Vec<u8>, ProxyError>)
    ensures
        bytes@.len() > MAX_FRAME_BYTES ==> r == Err::<Vec<u8>, ProxyError>(ProxyError::Oversized),
        bytes@.len() <= MAX_FRAME_BYTES ==> r == Ok::<Vec<u8>, ProxyError>(bytes),
{
    if bytes.len() > MAX_FRAME_BYTES {
        Err(ProxyError::Oversized)
    } else {
        Ok(bytes)
    }
}

/// A sequence accepted once in a session is never queued again: delivering
/// the same decoded frame a second time is answered `Ok(false)` and changes
/// nothing.
pub proof fn law_duplicate_sequence_is_ignored(
    pre: AmazfitView,
    frame_len: nat,
    event: Envelope<WatchEvent>,
)
    requires
        spec_receive(pre, frame_len, Some(event)).1 == Ok::<bool, ProxyError>(true),
    ensures
        ({
            let mid = spec_receive(pre, frame_len, Some(event)).0;
            spec_receive(mid, frame_len, Some(event)) == (mid, Ok::<bool, ProxyError>(false))
        }),
{
}

} // verus!
