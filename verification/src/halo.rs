//! Host-owned Halo proxy: the canonical fragment codec shared by every host
//! SDK route, and the consented, session-bound reassembly state machine.
use vstd::prelude::*;
use vstd::utf8::*;
use crate::text::{control, has_control};

verus! {

/// Application protocol version carried through the official Halo SDK link.
pub const PROTOCOL_VERSION: u8 = 1;
/// Header bytes before a fragment payload.
pub const HEADER_BYTES: usize = 18;
/// Largest application message accepted after reassembly.
pub const MAX_MESSAGE_BYTES: usize = 2048;
/// Largest official-link payload used by the capsule.
pub const MAX_FRAGMENT_BYTES: usize = 180;
/// Maximum accepted fragments in one message.
pub const MAX_FRAGMENTS: usize = 16;
/// Maximum queued normalized input events.
pub const MAX_PENDING_EVENTS: usize = 32;
/// `GLASSES_8` profile consumed by the host adapter.
pub const DEVICE_PROFILE: &'static str = "GLASSES_8";
/// Existing output protocol consumed by the host adapter.
pub const OUTPUT_PROTOCOL: &'static str = "Surface";

/// First magic byte (`S`).
pub const MAGIC_0: u8 = 83;
/// Second magic byte (`H`).
pub const MAGIC_1: u8 = 72;

/// Officially documented host-library route. These differ only at the SDK edge.
#[derive(Clone, Copy, Debug, PartialEq, Eq, Structural)]
pub enum HostTransport {
    Android,
    Ios,
    WebBluetooth,
}

/// Lifecycle observed by the host capsule.
#[derive(Clone, Copy, Debug, PartialEq, Eq, Structural)]
pub enum Lifecycle {
    Created,
    Active,
    Suspended,
    Destroyed,
}

/// Canonical proxy message class; its wire code is given by [`MessageKind::code`].
#[derive(Clone, Copy, Debug, PartialEq, Eq, Structural)]
pub enum MessageKind {
    Button,
    Sensor,
    LinkState,
    Display,
    Clear,
}

/// Typed refusal at the capsule boundary.
#[derive(Clone, Copy, Debug, PartialEq, Eq, Structural)]
pub enum ProxyError {
    Malformed,
    Oversized,
    WrongVersion,
    StaleSession,
    Replay,
    Inactive,
    ConsentRequired,
    QueueFull,
    FragmentOrder,
}

/// Wire code of a message kind.
pub open spec fn kind_code(kind: MessageKind) -> u8 {
    match kind {
        MessageKind::Button => 1,
        MessageKind::Sensor => 2,
        MessageKind::LinkState => 3,
        MessageKind::Display => 16,
        MessageKind::Clear => 17,
    }
}

/// Message kind carried by a wire code, if any.
pub open spec fn kind_of_code(code: u8) -> Option<MessageKind> {
    if code == 1 {
        Some(MessageKind::Button)
    } else if code == 2 {
        Some(MessageKind::Sensor)
    } else if code == 3 {
        Some(MessageKind::LinkState)
    } else if code == 16 {
        Some(MessageKind::Display)
    } else if code == 17 {
        Some(MessageKind::Clear)
    } else {
        None
    }
}

impl MessageKind {
    /// The wire code of this kind.
    pub fn code(self) -> (r: u8)
        ensures
            r == kind_code(self),
    {
        match self {
            MessageKind::Button => 1,
            MessageKind::Sensor => 2,
            MessageKind::LinkState => 3,
            MessageKind::Display => 16,
            MessageKind::Clear => 17,
        }
    }

    /// Decodes a wire code; unknown codes are malformed.
    pub fn from_code(value: u8) -> (r: Result<MessageKind, ProxyError>)
        ensures
            match kind_of_code(value) {
                Some(k) => r == Ok::<MessageKind, ProxyError>(k),
                None => r == Err::<MessageKind, ProxyError>(ProxyError::Malformed),
            },
    {
        match value {
            1 => Ok(MessageKind::Button),
            2 => Ok(MessageKind::Sensor),
            3 => Ok(MessageKind::LinkState),
            16 => Ok(MessageKind::Display),
            17 => Ok(MessageKind::Clear),
            _ => Err(ProxyError::Malformed),
        }
    }
}

/// Every kind's code decodes back to it.
pub proof fn law_kind_code_round_trip(kind: MessageKind)
    ensures
        kind_of_code(kind_code(kind)) == Some(kind),
{
}

/// Big-endian bytes of a `u16`.
pub open spec fn be16(x: u16) -> Seq<u8> {
    seq![(x >> 8u16) as u8, (x & 0xffu16) as u8]
}

/// Big-endian bytes of a `u32`.
pub open spec fn be32(x: u32) -> Seq<u8> {
    seq![
        (x >> 24u32) as u8,
        ((x >> 16u32) & 0xffu32) as u8,
        ((x >> 8u32) & 0xffu32) as u8,
        (x & 0xffu32) as u8,
    ]
}

/// The `u16` whose big-endian bytes are `b0 b1`.
pub open spec fn u16_of(b0: u8, b1: u8) -> u16 {
    ((b0 as u16) << 8u16) | (b1 as u16)
}

/// The `u32` whose big-endian bytes are `b0 b1 b2 b3`.
pub open spec fn u32_of(b0: u8, b1: u8, b2: u8, b3: u8) -> u32 {
    ((b0 as u32) << 24u32) | ((b1 as u32) << 16u32) | ((b2 as u32) << 8u32) | (b3 as u32)
}

proof fn lemma_u16_round_trip(x: u16)
    ensures
        u16_of((x >> 8u16) as u8, (x & 0xffu16) as u8) == x,
{
    assert(((((x >> 8u16) as u8) as u16) << 8u16) | (((x & 0xffu16) as u8) as u16) == x)
        by (bit_vector);
}

proof fn lemma_u32_round_trip(x: u32)
    ensures
        u32_of(
            (x >> 24u32) as u8,
            ((x >> 16u32) & 0xffu32) as u8,
            ((x >> 8u32) & 0xffu32) as u8,
            (x & 0xffu32) as u8,
        ) == x,
{
    assert(((((x >> 24u32) as u8) as u32) << 24u32) | (((((x >> 16u32) & 0xffu32) as u8)
        as u32) << 16u32) | (((((x >> 8u32) & 0xffu32) as u8) as u32) << 8u32) | (((x
        & 0xffu32) as u8) as u32) == x) by (bit_vector);
}

fn read_u16(b0: u8, b1: u8) -> (r: u16)
    ensures
        r == u16_of(b0, b1),
{
    ((b0 as u16) << 8u16) | (b1 as u16)
}

fn read_u32(b0: u8, b1: u8, b2: u8, b3: u8) -> (r: u32)
    ensures
        r == u32_of(b0, b1, b2, b3),
{
    ((b0 as u32) << 24u32) | ((b1 as u32) << 16u32) | ((b2 as u32) << 8u32) | (b3 as u32)
}

/// One decoded fragment header with its payload bytes.
pub struct FragmentView {
    pub kind: MessageKind,
    pub session: u32,
    pub sequence: u32,
    pub index: u8,
    pub count: u8,
    pub total: nat,
    pub payload: Seq<u8>,
}

/// What a fragment's bytes mean on the wire: `SH`, version, kind code,
/// big-endian session and sequence, message total, index, count and payload
/// length, then the payload.
pub open spec fn spec_decode_fragment(b: Seq<u8>) -> Result<FragmentView, ProxyError> {
    if b.len() < HEADER_BYTES || b.len() > HEADER_BYTES + MAX_FRAGMENT_BYTES || b[0] != MAGIC_0
        || b[1] != MAGIC_1 {
        Err(ProxyError::Malformed)
    } else if b[2] != PROTOCOL_VERSION {
        Err(ProxyError::WrongVersion)
    } else {
        match kind_of_code(b[3]) {
            None => Err(ProxyError::Malformed),
            Some(kind) => {
                let total = u16_of(b[12], b[13]) as nat;
                let index = b[14];
                let count = b[15];
                let length = u16_of(b[16], b[17]) as int;
                if count == 0 || count > MAX_FRAGMENTS || index >= count || total
                    > MAX_MESSAGE_BYTES || length != b.len() - HEADER_BYTES {
                    Err(ProxyError::Malformed)
                } else {
                    Ok(
                        FragmentView {
                            kind,
                            session: u32_of(b[4], b[5], b[6], b[7]),
                            sequence: u32_of(b[8], b[9], b[10], b[11]),
                            index,
                            count,
                            total,
                            payload: b.subrange(HEADER_BYTES as int, b.len() as int),
                        },
                    )
                }
            },
        }
    }
}

/// Number of fragments a payload of `len` bytes travels in (at least one).
pub open spec fn fragment_count(len: nat) -> nat {
    if len == 0 {
        1
    } else {
        ((len + MAX_FRAGMENT_BYTES - 1) / MAX_FRAGMENT_BYTES as int) as nat
    }
}

/// The `i`-th slice of a payload.
pub open spec fn chunk(payload: Seq<u8>, i: int) -> Seq<u8> {
    let start = i * MAX_FRAGMENT_BYTES;
    let end = if start + MAX_FRAGMENT_BYTES < payload.len() {
        start + MAX_FRAGMENT_BYTES
    } else {
        payload.len() as int
    };
    payload.subrange(start, end)
}

/// The wire bytes of fragment `i` of a message.
pub open spec fn spec_frame(
    kind: MessageKind,
    session: u32,
    sequence: u32,
    payload: Seq<u8>,
    i: int,
) -> Seq<u8> {
    let c = chunk(payload, i);
    seq![MAGIC_0, MAGIC_1, PROTOCOL_VERSION, kind_code(kind)] + be32(session) + be32(sequence)
        + be16(payload.len() as u16) + seq![i as u8, fragment_count(payload.len()) as u8]
        + be16(c.len() as u16) + c
}

/// One complete canonical application message.
#[derive(Clone, Debug, PartialEq, Eq)]
pub struct Message {
    pub kind: MessageKind,
    pub session: u32,
    pub sequence: u32,
    pub payload: Vec<u8>,
}

proof fn lemma_fragment_count_bounds(len: nat)
    requires
        len <= MAX_MESSAGE_BYTES,
    ensures
        1 <= fragment_count(len) <= 12,
        fragment_count(len) * MAX_FRAGMENT_BYTES >= len,
        len > 0 ==> (fragment_count(len) - 1) * MAX_FRAGMENT_BYTES < len,
{
}

/// Decoding fragment `i` of an encodable message gives back the message's
/// kind, session, sequence, total, the index and count, and the `i`-th slice
/// of the payload.
pub proof fn lemma_frame_decodes(
    kind: MessageKind,
    session: u32,
    sequence: u32,
    payload: Seq<u8>,
    i: int,
)
    requires
        payload.len() <= MAX_MESSAGE_BYTES,
        0 <= i < fragment_count(payload.len()),
    ensures
        spec_decode_fragment(spec_frame(kind, session, sequence, payload, i)) == Ok::<
            FragmentView,
            ProxyError,
        >(
            FragmentView {
                kind,
                session,
                sequence,
                index: i as u8,
                count: fragment_count(payload.len()) as u8,
                total: payload.len(),
                payload: chunk(payload, i),
            },
        ),
{
    lemma_fragment_count_bounds(payload.len());
    let c = chunk(payload, i);
    assert(i * MAX_FRAGMENT_BYTES < payload.len() || payload.len() == 0) by (nonlinear_arith)
        requires
            payload.len() > 0 ==> (fragment_count(payload.len()) - 1) * MAX_FRAGMENT_BYTES
                < payload.len(),
            0 <= i < fragment_count(payload.len()),
    ;
    assert(c.len() <= MAX_FRAGMENT_BYTES);
    let b = spec_frame(kind, session, sequence, payload, i);
    lemma_u32_round_trip(session);
    lemma_u32_round_trip(sequence);
    lemma_u16_round_trip(payload.len() as u16);
    lemma_u16_round_trip(c.len() as u16);
    assert(b.len() == HEADER_BYTES + c.len());
    assert(b[12] == ((payload.len() as u16) >> 8u16) as u8);
    assert(b[16] == ((c.len() as u16) >> 8u16) as u8);
    assert(b.subrange(HEADER_BYTES as int, b.len() as int) =~= c);
}

/// Concatenating the slices of a payload gives the payload back.
pub open spec fn chunks_upto(payload: Seq<u8>, n: int) -> Seq<u8>
    decreases n,
{
    if n <= 0 {
        Seq::empty()
    } else {
        chunks_upto(payload, n - 1) + chunk(payload, n - 1)
    }
}

proof fn lemma_chunks_upto(payload: Seq<u8>, n: int)
    requires
        0 <= n,
        (n - 1) * MAX_FRAGMENT_BYTES <= payload.len() || n == 0,
    ensures
        chunks_upto(payload, n) =~= payload.subrange(
            0,
            if n * MAX_FRAGMENT_BYTES < payload.len() {
                n * MAX_FRAGMENT_BYTES
            } else {
                payload.len() as int
            },
        ),
    decreases n,
{
    if n > 0 {
        lemma_chunks_upto(payload, n - 1);
    }
}

/// All fragments of a payload together hold exactly the payload.
pub proof fn lemma_chunks_cover(payload: Seq<u8>)
    requires
        payload.len() <= MAX_MESSAGE_BYTES,
    ensures
        chunks_upto(payload, fragment_count(payload.len()) as int) =~= payload,
{
    lemma_fragment_count_bounds(payload.len());
    lemma_chunks_upto(payload, fragment_count(payload.len()) as int);
}

/// Canonical BLE application codec shared by Android, iOS, and Web Bluetooth.
///
/// Refuses with `Oversized` exactly when the payload exceeds
/// `MAX_MESSAGE_BYTES`; otherwise returns one frame per fragment.
pub fn encode_message(message: &Message) -> (r: Result<Vec<Vec<u8>>, ProxyError>)
    ensures
        r is Ok <==> message.payload@.len() <= MAX_MESSAGE_BYTES,
        r matches Err(e) ==> e == ProxyError::Oversized,
        r matches Ok(frames) ==> {
            &&& frames@.len() == fragment_count(message.payload@.len())
            &&& forall|i: int|
                0 <= i < frames@.len() ==> #[trigger] frames@[i]@ == spec_frame(
                    message.kind,
                    message.session,
                    message.sequence,
                    message.payload@,
                    i,
                )
        },
{
    let len = message.payload.len();
    if len > MAX_MESSAGE_BYTES {
        return Err(ProxyError::Oversized);
    }
    proof {
        lemma_fragment_count_bounds(len as nat);
    }
    let count: usize = if len == 0 {
        1
    } else {
        (len + MAX_FRAGMENT_BYTES - 1) / MAX_FRAGMENT_BYTES
    };
    if count > MAX_FRAGMENTS {
        return Err(ProxyError::Oversized);
    }
    let total = len as u16;
    let code = message.kind.code();
    let mut frames: Vec<Vec<u8>> = Vec::new();
    for index in 0..count
        invariant
            count == fragment_count(len as nat),
            count <= 12,
            len == message.payload@.len(),
            len <= MAX_MESSAGE_BYTES,
            total == len as u16,
            code == kind_code(message.kind),
            frames@.len() == index,
            forall|i: int|
                0 <= i < index ==> #[trigger] frames@[i]@ == spec_frame(
                    message.kind,
                    message.session,
                    message.sequence,
                    message.payload@,
                    i,
                ),
    {
        let start = index * MAX_FRAGMENT_BYTES;
        let end = if start + MAX_FRAGMENT_BYTES < len {
            start + MAX_FRAGMENT_BYTES
        } else {
            len
        };
        proof {
            assert(index * MAX_FRAGMENT_BYTES < len || len == 0) by (nonlinear_arith)
                requires
                    len > 0 ==> (count - 1) * MAX_FRAGMENT_BYTES < len,
                    index < count,
            ;
        }
        let chunk_len = (end - start) as u16;
        let session = message.session;
        let sequence = message.sequence;
        let mut frame: Vec<u8> = Vec::new();
        frame.push(MAGIC_0);
        frame.push(MAGIC_1);
        frame.push(PROTOCOL_VERSION);
        frame.push(code);
        frame.push((session >> 24u32) as u8);
        frame.push(((session >> 16u32) & 0xffu32) as u8);
        frame.push(((session >> 8u32) & 0xffu32) as u8);
        frame.push((session & 0xffu32) as u8);
        frame.push((sequence >> 24u32) as u8);
        frame.push(((sequence >> 16u32) & 0xffu32) as u8);
        frame.push(((sequence >> 8u32) & 0xffu32) as u8);
        frame.push((sequence & 0xffu32) as u8);
        frame.push((total >> 8u16) as u8);
        frame.push((total & 0xffu16) as u8);
        frame.push(index as u8);
        frame.push(count as u8);
        frame.push((chunk_len >> 8u16) as u8);
        frame.push((chunk_len & 0xffu16) as u8);
        let ghost header = frame@;
        for j in start..end
            invariant
                start <= end <= len,
                len == message.payload@.len(),
                frame@ == header + message.payload@.subrange(start as int, j as int),
        {
            frame.push(message.payload[j]);
            assert(message.payload@.subrange(start as int, j + 1) =~= message.payload@.subrange(
                start as int,
                j as int,
            ).push(message.payload@[j as int]));
        }
        assert(frame@ =~= spec_frame(
            message.kind,
            message.session,
            message.sequence,
            message.payload@,
            index as int,
        ));
        frames.push(frame);
    }
    Ok(frames)
}

/// One decoded fragment (owned copy of its payload).
struct Fragment {
    kind: MessageKind,
    session: u32,
    sequence: u32,
    index: u8,
    count: u8,
    total: usize,
    payload: Vec<u8>,
}

impl Fragment {
    spec fn view(&self) -> FragmentView {
        FragmentView {
            kind: self.kind,
            session: self.session,
            sequence: self.sequence,
            index: self.index,
            count: self.count,
            total: self.total as nat,
            payload: self.payload@,
        }
    }
}

fn decode_fragment(bytes: &[u8]) -> (r: Result<Fragment, ProxyError>)
    ensures
        match spec_decode_fragment(bytes@) {
            Ok(f) => r matches Ok(g) && g.view() == f,
            Err(e) => r == Err::<Fragment, ProxyError>(e),
        },
{
    let n = bytes.len();
    if n < HEADER_BYTES || n > HEADER_BYTES + MAX_FRAGMENT_BYTES || bytes[0] != MAGIC_0
        || bytes[1] != MAGIC_1 {
        return Err(ProxyError::Malformed);
    }
    if bytes[2] != PROTOCOL_VERSION {
        return Err(ProxyError::WrongVersion);
    }
    let kind = MessageKind::from_code(bytes[3])?;
    let session = read_u32(bytes[4], bytes[5], bytes[6], bytes[7]);
    let sequence = read_u32(bytes[8], bytes[9], bytes[10], bytes[11]);
    let total = read_u16(bytes[12], bytes[13]) as usize;
    let index = bytes[14];
    let count = bytes[15];
    let length = read_u16(bytes[16], bytes[17]) as usize;
    if count == 0 || count as usize > MAX_FRAGMENTS || index >= count || total > MAX_MESSAGE_BYTES
        || length != n - HEADER_BYTES {
        return Err(ProxyError::Malformed);
    }
    let mut payload: Vec<u8> = Vec::new();
    for j in HEADER_BYTES..n
        invariant
            n == bytes@.len(),
            payload@ == bytes@.subrange(HEADER_BYTES as int, j as int),
    {
        payload.push(bytes[j]);
        assert(bytes@.subrange(HEADER_BYTES as int, j + 1) =~= bytes@.subrange(
            HEADER_BYTES as int,
            j as int,
        ).push(bytes@[j as int]));
    }
    Ok(Fragment { kind, session, sequence, index, count, total, payload })
}


/// `std::str::from_utf8`: succeeds exactly on valid UTF-8 and then yields the
/// decoded characters.
#[verifier::external_body]
fn utf8_text(bytes: &[u8]) -> (r: Option<String>)
    ensures
        r is Some <==> valid_utf8(bytes@),
        r matches Some(s) ==> s@ == decode_utf8(bytes@),
{
    std::str::from_utf8(bytes).ok().map(|text| text.to_owned())
}

/// Input normalized for the delivered `GLASSES_8` Device/Stream adapter.
#[derive(Clone, Debug, PartialEq, Eq)]
pub enum GlassesInput {
    Button { name: String, pressed: bool },
    Sensor { name: String, value_milli: i32 },
    LinkState { connected: bool },
}

/// Mathematical form of a [`GlassesInput`].
pub enum GlassesEvent {
    Button { name: Seq<char>, pressed: bool },
    Sensor { name: Seq<char>, value_milli: i32 },
    LinkState { connected: bool },
}

impl View for GlassesInput {
    type V = GlassesEvent;

    open spec fn view(&self) -> GlassesEvent {
        match self {
            GlassesInput::Button { name, pressed } => GlassesEvent::Button {
                name: name@,
                pressed: *pressed,
            },
            GlassesInput::Sensor { name, value_milli } => GlassesEvent::Sensor {
                name: name@,
                value_milli: *value_milli,
            },
            GlassesInput::LinkState { connected } => GlassesEvent::LinkState {
                connected: *connected,
            },
        }
    }
}

/// Output accepted from the delivered Surface adapter.
#[derive(Clone, Debug, PartialEq, Eq)]
pub enum SurfaceCommand {
    Display { cells: Vec<u8> },
    Clear,
}

/// A bounded printable name: 1..=`max` bytes of valid UTF-8 without control codes.
pub open spec fn spec_short(bytes: Seq<u8>, max: int) -> Result<Seq<char>, ProxyError> {
    if bytes.len() == 0 || bytes.len() > max {
        Err(ProxyError::Malformed)
    } else if !valid_utf8(bytes) {
        Err(ProxyError::Malformed)
    } else if has_control(decode_utf8(bytes)) {
        Err(ProxyError::Malformed)
    } else {
        Ok(decode_utf8(bytes))
    }
}

/// The normalized input a complete message payload of `kind` stands for.
pub open spec fn spec_decode_input(kind: MessageKind, p: Seq<u8>) -> Result<
    GlassesEvent,
    ProxyError,
> {
    if kind == MessageKind::Button && p.len() >= 2 {
        match spec_short(p.subrange(1, p.len() as int), 32) {
            Ok(name) => Ok(GlassesEvent::Button { name, pressed: p[0] != 0 }),
            Err(e) => Err(e),
        }
    } else if kind == MessageKind::Sensor && p.len() >= 5 {
        match spec_short(p.subrange(4, p.len() as int), 48) {
            Ok(name) => Ok(
                GlassesEvent::Sensor { name, value_milli: u32_of(p[0], p[1], p[2], p[3]) as i32 },
            ),
            Err(e) => Err(e),
        }
    } else if kind == MessageKind::LinkState && p.len() == 1 {
        Ok(GlassesEvent::LinkState { connected: p[0] != 0 })
    } else {
        Err(ProxyError::Malformed)
    }
}

fn short(bytes: &[u8], max: usize) -> (r: Result<String, ProxyError>)
    ensures
        match spec_short(bytes@, max as int) {
            Ok(s) => r matches Ok(t) && t@ == s,
            Err(e) => r == Err::<String, ProxyError>(e),
        },
{
    if bytes.len() == 0 || bytes.len() > max {
        return Err(ProxyError::Malformed);
    }
    let value = match utf8_text(bytes) {
        Some(value) => value,
        None => return Err(ProxyError::Malformed),
    };
    if crate::text::contains_control(value.as_str()) {
        return Err(ProxyError::Malformed);
    }
    Ok(value)
}

fn tail(payload: &[u8], from: usize) -> (r: Vec<u8>)
    requires
        from <= payload@.len(),
    ensures
        r@ == payload@.subrange(from as int, payload@.len() as int),
{
    let mut out: Vec<u8> = Vec::new();
    for j in from..payload.len()
        invariant
            out@ == payload@.subrange(from as int, j as int),
    {
        out.push(payload[j]);
        assert(payload@.subrange(from as int, j + 1) =~= payload@.subrange(from as int, j as int).push(
            payload@[j as int],
        ));
    }
    out
}

fn decode_input(kind: MessageKind, payload: &[u8]) -> (r: Result<GlassesInput, ProxyError>)
    ensures
        match spec_decode_input(kind, payload@) {
            Ok(event) => r matches Ok(input) && input@ == event,
            Err(e) => r == Err::<GlassesInput, ProxyError>(e),
        },
{
    let n = payload.len();
    if kind == MessageKind::Button && n >= 2 {
        let rest = tail(payload, 1);
        let name = short(rest.as_slice(), 32)?;
        Ok(GlassesInput::Button { name, pressed: payload[0] != 0 })
    } else if kind == MessageKind::Sensor && n >= 5 {
        let rest = tail(payload, 4);
        let name = short(rest.as_slice(), 48)?;
        let value = read_u32(payload[0], payload[1], payload[2], payload[3]);
        Ok(GlassesInput::Sensor { name, value_milli: value as i32 })
    } else if kind == MessageKind::LinkState && n == 1 {
        Ok(GlassesInput::LinkState { connected: payload[0] != 0 })
    } else {
        Err(ProxyError::Malformed)
    }
}

/// The message kind and payload a Surface command is sent as; displays over
/// 1024 cells are oversized.
pub open spec fn spec_surface_payload(command: SurfaceCommand) -> Result<
    (MessageKind, Seq<u8>),
    ProxyError,
> {
    match command {
        SurfaceCommand::Display { cells } => if cells@.len() <= 1024 {
            Ok((MessageKind::Display, cells@))
        } else {
            Err(ProxyError::Oversized)
        },
        SurfaceCommand::Clear => Ok((MessageKind::Clear, Seq::empty())),
    }
}

fn encode_surface_payload(command: &SurfaceCommand) -> (r: Result<(MessageKind, Vec<u8>), ProxyError>)
    ensures
        match spec_surface_payload(*command) {
            Ok((k, p)) => r matches Ok((k2, p2)) && k2 == k && p2@ == p,
            Err(e) => r == Err::<(MessageKind, Vec<u8>), ProxyError>(e),
        },
{
    match command {
        SurfaceCommand::Display { cells } => {
            if cells.len() <= 1024 {
                let mut copy: Vec<u8> = Vec::new();
                for j in 0..cells.len()
                    invariant
                        copy@ == cells@.subrange(0, j as int),
                {
                    copy.push(cells[j]);
                    assert(cells@.subrange(0, j + 1) =~= cells@.subrange(0, j as int).push(
                        cells@[j as int],
                    ));
                }
                assert(cells@.subrange(0, cells@.len() as int) =~= cells@);
                Ok((MessageKind::Display, copy))
            } else {
                Err(ProxyError::Oversized)
            }
        },
        SurfaceCommand::Clear => Ok((MessageKind::Clear, Vec::new())),
    }
}


/// A message under reassembly.
struct Assembly {
    kind: MessageKind,
    session: u32,
    sequence: u32,
    count: u8,
    next: u8,
    total: usize,
    payload: Vec<u8>,
}

/// Mathematical form of a message under reassembly: `next` fragments of
/// `count` have arrived and their payloads are concatenated in `payload`.
pub struct AssemblyView {
    pub kind: MessageKind,
    pub session: u32,
    pub sequence: u32,
    pub count: u8,
    pub next: u8,
    pub total: nat,
    pub payload: Seq<u8>,
}

impl Assembly {
    spec fn view(&self) -> AssemblyView {
        AssemblyView {
            kind: self.kind,
            session: self.session,
            sequence: self.sequence,
            count: self.count,
            next: self.next,
            total: self.total as nat,
            payload: self.payload@,
        }
    }
}

/// Companion-owned proxy state. No host probing or fallback occurs here.
pub struct HaloCapsule {
    transport: HostTransport,
    lifecycle: Lifecycle,
    consent: bool,
    connected: bool,
    session: u32,
    seen: Vec<u32>,
    assembly: Option<Assembly>,
    pending: Vec<GlassesInput>,
}

/// Mathematical state of a [`HaloCapsule`]: the selected route, lifecycle,
/// consent and link flags, the session, the sequences already delivered in it,
/// the message under reassembly and the queue of delivered inputs.
pub struct HaloView {
    pub transport: HostTransport,
    pub lifecycle: Lifecycle,
    pub consent: bool,
    pub connected: bool,
    pub session: u32,
    pub seen: Set<u32>,
    pub assembly: Option<AssemblyView>,
    pub pending: Seq<GlassesEvent>,
}

impl View for HaloCapsule {
    type V = HaloView;

    closed spec fn view(&self) -> HaloView {
        HaloView {
            transport: self.transport,
            lifecycle: self.lifecycle,
            consent: self.consent,
            connected: self.connected,
            session: self.session,
            seen: self.seen@.to_set(),
            assembly: match self.assembly {
                Some(a) => Some(a.view()),
                None => None,
            },
            pending: self.pending@.map_values(|g: GlassesInput| g@),
        }
    }
}

/// The refusal, if any, of a capsule that is asked to carry traffic.
pub open spec fn spec_require_active(v: HaloView) -> Result<(), ProxyError> {
    if !v.consent {
        Err(ProxyError::ConsentRequired)
    } else if !v.connected || v.lifecycle != Lifecycle::Active {
        Err(ProxyError::Inactive)
    } else {
        Ok(())
    }
}

/// The capsule with its link torn down: disconnected, nothing seen, nothing
/// under reassembly, nothing pending.
pub open spec fn spec_disconnected(v: HaloView) -> HaloView {
    HaloView { connected: false, seen: Set::empty(), assembly: None, pending: Seq::empty(), ..v }
}

/// One fragment delivered to the capsule: the state after it and the answer.
pub open spec fn spec_receive(pre: HaloView, bytes: Seq<u8>) -> (HaloView, Result<bool, ProxyError>) {
    match spec_require_active(pre) {
        Err(e) => (pre, Err(e)),
        Ok(_) => match spec_decode_fragment(bytes) {
            Err(e) => (pre, Err(e)),
            Ok(f) => if f.session != pre.session {
                (pre, Err(ProxyError::StaleSession))
            } else if pre.seen.contains(f.sequence) {
                (pre, Err(ProxyError::Replay))
            } else {
                let under_way = if f.index == 0 {
                    Some(
                        AssemblyView {
                            kind: f.kind,
                            session: f.session,
                            sequence: f.sequence,
                            count: f.count,
                            next: 0,
                            total: f.total,
                            payload: Seq::empty(),
                        },
                    )
                } else {
                    pre.assembly
                };
                match under_way {
                    None => (pre, Err(ProxyError::FragmentOrder)),
                    Some(a) => if a.kind != f.kind || a.session != f.session || a.sequence
                        != f.sequence || a.count != f.count || a.total != f.total || a.next
                        != f.index {
                        (HaloView { assembly: under_way, ..pre }, Err(ProxyError::FragmentOrder))
                    } else if a.payload.len() + f.payload.len() > MAX_MESSAGE_BYTES {
                        (HaloView { assembly: None, ..pre }, Err(ProxyError::Oversized))
                    } else {
                        let a2 = AssemblyView {
                            payload: a.payload + f.payload,
                            next: (a.next + 1) as u8,
                            ..a
                        };
                        if a2.next != a2.count {
                            (HaloView { assembly: Some(a2), ..pre }, Ok(false))
                        } else {
                            let done = HaloView { assembly: None, ..pre };
                            if a2.payload.len() != a2.total {
                                (done, Err(ProxyError::Malformed))
                            } else if pre.pending.len() == MAX_PENDING_EVENTS {
                                (done, Err(ProxyError::QueueFull))
                            } else {
                                match spec_decode_input(a2.kind, a2.payload) {
                                    Err(e) => (done, Err(e)),
                                    Ok(input) => (
                                        HaloView {
                                            seen: pre.seen.insert(a2.sequence),
                                            pending: pre.pending.push(input),
                                            ..done
                                        },
                                        Ok(true),
                                    ),
                                }
                            }
                        }
                    },
                }
            },
        },
    }
}

fn seq_contains_u32(items: &Vec<u32>, value: u32) -> (r: bool)
    ensures
        r == items@.contains(value),
{
    for i in 0..items.len()
        invariant
            forall|j: int| 0 <= j < i ==> items@[j] != value,
    {
        if items[i] == value {
            return true;
        }
    }
    false
}

impl HaloCapsule {
    /// Creates a capsule for one explicitly selected official host route:
    /// created, without consent, disconnected, session 0, empty state.
    pub fn new(transport: HostTransport) -> (r: Self)
        ensures
            r@ == (HaloView {
                transport,
                lifecycle: Lifecycle::Created,
                consent: false,
                connected: false,
                session: 0,
                seen: Set::empty(),
                assembly: None,
                pending: Seq::empty(),
            }),
    {
        let r = HaloCapsule {
            transport,
            lifecycle: Lifecycle::Created,
            consent: false,
            connected: false,
            session: 0,
            seen: Vec::new(),
            assembly: None,
            pending: Vec::new(),
        };
        assert(r@.seen =~= Set::empty());
        assert(r@.pending =~= Seq::empty());
        r
    }

    /// Returns the explicitly selected official host route.
    pub fn transport(&self) -> (r: HostTransport)
        ensures
            r == self@.transport,
    {
        self.transport
    }

    /// Tears down the link: disconnected, nothing seen, pending or under reassembly.
    pub fn disconnect(&mut self)
        ensures
            final(self)@ == spec_disconnected(old(self)@),
    {
        self.connected = false;
        self.seen.clear();
        self.assembly = None;
        self.pending.clear();
        assert(self@.seen =~= Set::empty());
        assert(self@.pending =~= Seq::empty());
    }

    /// Records the host lifecycle; suspension and destruction tear the link down.
    pub fn lifecycle(&mut self, state: Lifecycle)
        ensures
            final(self)@ == (if state == Lifecycle::Suspended || state == Lifecycle::Destroyed {
                spec_disconnected(HaloView { lifecycle: state, ..old(self)@ })
            } else {
                HaloView { lifecycle: state, ..old(self)@ }
            }),
    {
        self.lifecycle = state;
        if state == Lifecycle::Suspended || state == Lifecycle::Destroyed {
            self.disconnect();
        }
    }

    /// Records consent; withdrawing it tears the link down.
    pub fn set_consent(&mut self, granted: bool)
        ensures
            final(self)@ == (if !granted {
                spec_disconnected(HaloView { consent: granted, ..old(self)@ })
            } else {
                HaloView { consent: granted, ..old(self)@ }
            }),
    {
        self.consent = granted;
        if !granted {
            self.disconnect();
        }
    }

    /// Activates a consented, active capsule for `session` with fresh state.
    ///
    /// Refuses with `ConsentRequired` without consent, else with `Inactive`
    /// unless the lifecycle is active; a refusal changes nothing.
    pub fn connect(&mut self, session: u32) -> (r: Result<(), ProxyError>)
        ensures
            !old(self)@.consent ==> r == Err::<(), ProxyError>(ProxyError::ConsentRequired)
                && final(self)@ == old(self)@,
            old(self)@.consent && old(self)@.lifecycle != Lifecycle::Active ==> r == Err::<
                (),
                ProxyError,
            >(ProxyError::Inactive) && final(self)@ == old(self)@,
            old(self)@.consent && old(self)@.lifecycle == Lifecycle::Active ==> r is Ok
                && final(self)@ == (HaloView {
                connected: true,
                session,
                seen: Set::empty(),
                assembly: None,
                pending: Seq::empty(),
                ..old(self)@
            }),
    {
        if !self.consent {
            return Err(ProxyError::ConsentRequired);
        }
        if self.lifecycle != Lifecycle::Active {
            return Err(ProxyError::Inactive);
        }
        self.connected = true;
        self.session = session;
        self.seen.clear();
        self.assembly = None;
        self.pending.clear();
        assert(self@.seen =~= Set::empty());
        assert(self@.pending =~= Seq::empty());
        Ok(())
    }

    fn require_active(&self) -> (r: Result<(), ProxyError>)
        ensures
            r == spec_require_active(self@),
    {
        if !self.consent {
            Err(ProxyError::ConsentRequired)
        } else if !self.connected || self.lifecycle != Lifecycle::Active {
            Err(ProxyError::Inactive)
        } else {
            Ok(())
        }
    }

    /// Accepts one ordered official-link notification fragment; see
    /// [`spec_receive`] for the state it leaves and the answer it gives.
    /// `Ok(true)` means a complete message was delivered to the input queue.
    #[verifier::loop_isolation(false)]
    pub fn receive_fragment(&mut self, bytes: &[u8]) -> (r: Result<bool, ProxyError>)
        ensures
            (final(self)@, r) == spec_receive(old(self)@, bytes@),
    {
        let ghost pre = self@;
        self.require_active()?;
        let fragment = decode_fragment(bytes)?;
        if fragment.session != self.session {
            return Err(ProxyError::StaleSession);
        }
        proof {
            assert(self.seen@.to_set().contains(fragment.sequence) == self.seen@.contains(
                fragment.sequence,
            ));
        }
        if seq_contains_u32(&self.seen, fragment.sequence) {
            return Err(ProxyError::Replay);
        }
        let previous = self.assembly.take();
        let current = if fragment.index == 0 {
            Some(
                Assembly {
                    kind: fragment.kind,
                    session: fragment.session,
                    sequence: fragment.sequence,
                    count: fragment.count,
                    next: 0,
                    total: fragment.total,
                    payload: Vec::new(),
                },
            )
        } else {
            previous
        };
        let mut assembly = match current {
            Some(assembly) => assembly,
            None => {
                return Err(ProxyError::FragmentOrder);
            },
        };
        if assembly.kind != fragment.kind || assembly.session != fragment.session
            || assembly.sequence != fragment.sequence || assembly.count != fragment.count
            || assembly.total != fragment.total || assembly.next != fragment.index {
            self.assembly = Some(assembly);
            return Err(ProxyError::FragmentOrder);
        }
        assert(fragment.payload@.len() <= MAX_FRAGMENT_BYTES);
        if assembly.payload.len() > MAX_MESSAGE_BYTES - fragment.payload.len() {
            return Err(ProxyError::Oversized);
        }
        assert(fragment.index < fragment.count);
        assert(assembly.next == fragment.index);
        let ghost before = assembly.payload@;
        for j in 0..fragment.payload.len()
            invariant
                assembly.payload@ == before + fragment.payload@.subrange(0, j as int),
                assembly.kind == fragment.kind,
                assembly.session == fragment.session,
                assembly.sequence == fragment.sequence,
                assembly.count == fragment.count,
                assembly.total == fragment.total,
                assembly.next == fragment.index,
        {
            assembly.payload.push(fragment.payload[j]);
            assert(fragment.payload@.subrange(0, j + 1) =~= fragment.payload@.subrange(
                0,
                j as int,
            ).push(fragment.payload@[j as int]));
        }
        assert(fragment.payload@.subrange(0, fragment.payload@.len() as int) =~= fragment.payload@);
        assert(assembly.next == fragment.index);
        assembly.next = assembly.next + 1;
        if assembly.next != assembly.count {
            self.assembly = Some(assembly);
            return Ok(false);
        }
        if assembly.payload.len() != assembly.total {
            return Err(ProxyError::Malformed);
        }
        if self.pending.len() == MAX_PENDING_EVENTS {
            return Err(ProxyError::QueueFull);
        }
        let input = decode_input(assembly.kind, assembly.payload.as_slice())?;
        self.seen.push(assembly.sequence);
        self.pending.push(input);
        proof {
            old(self).seen@.lemma_push_to_set_commute(assembly.sequence);
            assert(self@.seen =~= pre.seen.insert(assembly.sequence));
            assert(self@.pending =~= pre.pending.push(input@));
        }
        Ok(true)
    }

    /// Takes the oldest delivered input, if any.
    pub fn next_input(&mut self) -> (r: Option<GlassesInput>)
        ensures
            old(self)@.pending.len() == 0 ==> r is None && final(self)@ == old(self)@,
            old(self)@.pending.len() > 0 ==> (r matches Some(input) && input@
                == old(self)@.pending[0] && final(self)@ == (HaloView {
                pending: old(self)@.pending.drop_first(),
                ..old(self)@
            })),
    {
        if self.pending.len() == 0 {
            return None;
        }
        let ghost pre = self@;
        let input = self.pending.remove(0);
        assert(self@.pending =~= pre.pending.drop_first());
        Some(input)
    }

    /// Encodes one Surface command into canonical fragments for any host SDK,
    /// under the capsule's session.
    pub fn encode_surface(&self, sequence: u32, command: &SurfaceCommand) -> (r: Result<
        Vec<Vec<u8>>,
        ProxyError,
    >)
        ensures
            match spec_require_active(self@) {
                Err(e) => r == Err::<Vec<Vec<u8>>, ProxyError>(e),
                Ok(_) => match spec_surface_payload(*command) {
                    Err(e) => r == Err::<Vec<Vec<u8>>, ProxyError>(e),
                    Ok((kind, payload)) => r matches Ok(frames) && frames@.len()
                        == fragment_count(payload.len()) && forall|i: int|
                        0 <= i < frames@.len() ==> #[trigger] frames@[i]@ == spec_frame(
                            kind,
                            self@.session,
                            sequence,
                            payload,
                            i,
                        ),
                },
            },
    {
        self.require_active()?;
        let (kind, payload) = encode_surface_payload(command)?;
        let message = Message { kind, session: self.session, sequence, payload };
        encode_message(&message)
    }
}


/// Fragments delivered one after another: the final state and every answer, in order.
pub open spec fn spec_feed(v: HaloView, frames: Seq<Seq<u8>>) -> (HaloView, Seq<Result<bool, ProxyError>>)
    decreases frames.len(),
{
    if frames.len() == 0 {
        (v, Seq::empty())
    } else {
        let prev = spec_feed(v, frames.drop_last());
        let step = spec_receive(prev.0, frames.last());
        (step.0, prev.1.push(step.1))
    }
}

/// The frames `encode_message` produces for a message.
pub open spec fn spec_frames(kind: MessageKind, session: u32, sequence: u32, payload: Seq<u8>) -> Seq<
    Seq<u8>,
> {
    Seq::new(
        fragment_count(payload.len()),
        |i: int| spec_frame(kind, session, sequence, payload, i),
    )
}

/// The capsule with the first `k` fragments of a message reassembled.
pub open spec fn spec_partial(
    pre: HaloView,
    kind: MessageKind,
    sequence: u32,
    payload: Seq<u8>,
    k: int,
) -> HaloView {
    HaloView {
        assembly: Some(
            AssemblyView {
                kind,
                session: pre.session,
                sequence,
                count: fragment_count(payload.len()) as u8,
                next: k as u8,
                total: payload.len(),
                payload: chunks_upto(payload, k),
            },
        ),
        ..pre
    }
}

proof fn lemma_chunks_len(payload: Seq<u8>, k: int)
    requires
        payload.len() <= MAX_MESSAGE_BYTES,
        0 <= k <= fragment_count(payload.len()),
    ensures
        chunks_upto(payload, k).len() <= payload.len(),
        chunks_upto(payload, k).len() == (if k * MAX_FRAGMENT_BYTES < payload.len() {
            k * MAX_FRAGMENT_BYTES
        } else {
            payload.len() as int
        }),
{
    lemma_fragment_count_bounds(payload.len());
    assert((k - 1) * MAX_FRAGMENT_BYTES <= payload.len() || k == 0) by (nonlinear_arith)
        requires
            payload.len() > 0 ==> (fragment_count(payload.len()) - 1) * MAX_FRAGMENT_BYTES
                < payload.len(),
            payload.len() == 0 ==> fragment_count(payload.len()) == 1,
            0 <= k <= fragment_count(payload.len()),
    ;
    lemma_chunks_upto(payload, k);
}

proof fn lemma_feed_prefix(pre: HaloView, kind: MessageKind, sequence: u32, payload: Seq<u8>, k: int)
    requires
        spec_require_active(pre) is Ok,
        !pre.seen.contains(sequence),
        payload.len() <= MAX_MESSAGE_BYTES,
        1 <= k < fragment_count(payload.len()),
    ensures
        spec_feed(pre, spec_frames(kind, pre.session, sequence, payload).take(k)) == (
            spec_partial(pre, kind, sequence, payload, k),
            Seq::new(k as nat, |i: int| Ok::<bool, ProxyError>(false)),
        ),
    decreases k,
{
    let frames = spec_frames(kind, pre.session, sequence, payload);
    lemma_fragment_count_bounds(payload.len());
    let prefix = frames.take(k);
    lemma_frame_decodes(kind, pre.session, sequence, payload, k - 1);
    lemma_chunks_len(payload, k);
    lemma_chunks_len(payload, k - 1);
    let last = prefix.last();
    assert(last == spec_frame(kind, pre.session, sequence, payload, k - 1));
    let prev = spec_feed(pre, prefix.drop_last());
    if k == 1 {
        assert(prefix.drop_last() =~= Seq::<Seq<u8>>::empty());
        assert(prev == (pre, Seq::<Result<bool, ProxyError>>::empty()));
    } else {
        lemma_feed_prefix(pre, kind, sequence, payload, k - 1);
        assert(prefix.drop_last() =~= frames.take(k - 1));
        assert(prev == (
            spec_partial(pre, kind, sequence, payload, k - 1),
            Seq::new((k - 1) as nat, |i: int| Ok::<bool, ProxyError>(false)),
        ));
    }
    assert(chunks_upto(payload, k) == chunks_upto(payload, k - 1) + chunk(payload, k - 1));
    let step = spec_receive(prev.0, last);
    assert(step.0 == spec_partial(pre, kind, sequence, payload, k));
    assert(step.1 == Ok::<bool, ProxyError>(false));
    assert(spec_feed(pre, prefix) == (step.0, prev.1.push(step.1)));
    assert(prev.1.push(step.1) =~= Seq::new(k as nat, |i: int| Ok::<bool, ProxyError>(false)));
}

/// Feeding the frames of an encoded message, in order, to an active capsule
/// of the same session that has not yet seen the message's sequence and has
/// room in its queue delivers the message: every fragment but the last is
/// answered `Ok(false)`, and the last one queues the decoded input and marks
/// the sequence seen (`Ok(true)`), or gives decoding's refusal and leaves the
/// queue as it was.
pub proof fn law_encoded_message_reassembles(
    pre: HaloView,
    kind: MessageKind,
    sequence: u32,
    payload: Seq<u8>,
)
    requires
        spec_require_active(pre) is Ok,
        !pre.seen.contains(sequence),
        pre.pending.len() < MAX_PENDING_EVENTS,
        payload.len() <= MAX_MESSAGE_BYTES,
    ensures
        ({
            let n = fragment_count(payload.len());
            let (post, answers) = spec_feed(pre, spec_frames(kind, pre.session, sequence, payload));
            &&& answers.len() == n
            &&& forall|i: int| 0 <= i < n - 1 ==> answers[i] == Ok::<bool, ProxyError>(false)
            &&& match spec_decode_input(kind, payload) {
                Ok(input) => answers[n - 1] == Ok::<bool, ProxyError>(true) && post == (HaloView {
                    seen: pre.seen.insert(sequence),
                    pending: pre.pending.push(input),
                    assembly: None,
                    ..pre
                }),
                Err(e) => answers[n - 1] == Err::<bool, ProxyError>(e) && post == (HaloView {
                    assembly: None,
                    ..pre
                }),
            }
        }),
{
    let frames = spec_frames(kind, pre.session, sequence, payload);
    let n = fragment_count(payload.len()) as int;
    lemma_fragment_count_bounds(payload.len());
    lemma_frame_decodes(kind, pre.session, sequence, payload, n - 1);
    lemma_chunks_cover(payload);
    lemma_chunks_len(payload, n - 1);
    lemma_chunks_len(payload, n);
    let last = frames.last();
    let prev = spec_feed(pre, frames.drop_last());
    if n == 1 {
        assert(frames.drop_last() =~= Seq::<Seq<u8>>::empty());
        assert(prev == (pre, Seq::<Result<bool, ProxyError>>::empty()));
        assert(chunks_upto(payload, 1) == chunks_upto(payload, 0) + chunk(payload, 0));
        assert(chunks_upto(payload, 0) =~= Seq::<u8>::empty());
        assert(chunk(payload, 0) =~= payload);
    } else {
        lemma_feed_prefix(pre, kind, sequence, payload, n - 1);
        assert(frames.drop_last() =~= frames.take(n - 1));
        assert(prev == (
            spec_partial(pre, kind, sequence, payload, n - 1),
            Seq::new((n - 1) as nat, |i: int| Ok::<bool, ProxyError>(false)),
        ));
        assert(chunks_upto(payload, n) == chunks_upto(payload, n - 1) + chunk(payload, n - 1));
    }
    let step = spec_receive(prev.0, last);
    assert(spec_feed(pre, frames) == (step.0, prev.1.push(step.1)));
}

/// A link-state message reports the link as up exactly when its one payload
/// byte is non-zero: decoding it gives `connected == (b != 0)`.
pub proof fn law_link_state_is_the_payload_flag(b: u8)
    ensures
        spec_decode_input(MessageKind::LinkState, seq![b]) == Ok::<GlassesEvent, ProxyError>(
            GlassesEvent::LinkState { connected: b != 0 },
        ),
        b == 0 ==> spec_decode_input(MessageKind::LinkState, seq![b]) == Ok::<
            GlassesEvent,
            ProxyError,
        >(GlassesEvent::LinkState { connected: false }),
        b != 0 ==> spec_decode_input(MessageKind::LinkState, seq![b]) == Ok::<
            GlassesEvent,
            ProxyError,
        >(GlassesEvent::LinkState { connected: true }),
{
}

/// Feeding the single frame of an encoded one-byte link-state message to an
/// active capsule of the same session, which has not seen its sequence and
/// has room in its queue, answers `Ok(true)` and queues, last, a link-state
/// input that is connected exactly when the byte is non-zero.
pub proof fn law_received_link_state_follows_its_byte(pre: HaloView, sequence: u32, b: u8)
    requires
        spec_require_active(pre) is Ok,
        !pre.seen.contains(sequence),
        pre.pending.len() < MAX_PENDING_EVENTS,
    ensures
        ({
            let frames = spec_frames(MessageKind::LinkState, pre.session, sequence, seq![b]);
            let (post, answers) = spec_feed(pre, frames);
            &&& frames.len() == 1
            &&& answers == seq![Ok::<bool, ProxyError>(true)]
            &&& post.pending == pre.pending.push(GlassesEvent::LinkState { connected: b != 0 })
        }),
{
    law_link_state_is_the_payload_flag(b);
    law_encoded_message_reassembles(pre, MessageKind::LinkState, sequence, seq![b]);
    let (post, answers) = spec_feed(
        pre,
        spec_frames(MessageKind::LinkState, pre.session, sequence, seq![b]),
    );
    assert(fragment_count(1) == 1);
    assert(answers =~= seq![Ok::<bool, ProxyError>(true)]);
}

} // verus!
