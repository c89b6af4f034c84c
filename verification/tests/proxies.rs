use sim_platform::amazfit::{
    self, bounded_frame, AmazfitCapsule, Envelope, HostCommand, WatchEvent, MAX_FRAME_BYTES,
};
use sim_platform::halo::{
    encode_message, GlassesInput, HaloCapsule, HostTransport, Lifecycle, Message, MessageKind,
    ProxyError, SurfaceCommand,
};

fn active_halo(session: u32) -> HaloCapsule {
    let mut capsule = HaloCapsule::new(HostTransport::Android);
    capsule.set_consent(true);
    capsule.lifecycle(Lifecycle::Active);
    capsule.connect(session).unwrap();
    capsule
}

#[test]
fn halo_messages_round_trip_through_fragments() {
    let mut payload = vec![1];
    payload.extend_from_slice(b"select");
    let frames = encode_message(&Message {
        kind: MessageKind::Button,
        session: 9,
        sequence: 1,
        payload,
    })
    .unwrap();
    assert_eq!(frames.len(), 1);
    assert_eq!(&frames[0][..4], &[83, 72, 1, 1]);
    let mut capsule = active_halo(9);
    assert_eq!(capsule.receive_fragment(&frames[0]), Ok(true));
    assert_eq!(
        capsule.next_input(),
        Some(GlassesInput::Button { name: "select".into(), pressed: true })
    );
    assert_eq!(capsule.receive_fragment(&frames[0]), Err(ProxyError::Replay));
}

#[test]
fn halo_long_sensor_message_spans_fragments() {
    let mut payload = 1500i32.to_be_bytes().to_vec();
    payload.extend_from_slice("t".repeat(48).as_bytes());
    let frames = encode_message(&Message {
        kind: MessageKind::Sensor,
        session: 3,
        sequence: 2,
        payload: payload.clone(),
    })
    .unwrap();
    assert_eq!(frames.len(), 1);
    let big = encode_message(&Message {
        kind: MessageKind::Display,
        session: 3,
        sequence: 4,
        payload: vec![0; 400],
    })
    .unwrap();
    assert_eq!(big.len(), 3);
    assert_eq!(big[2].len(), 18 + 40);
    let mut capsule = active_halo(3);
    assert_eq!(capsule.receive_fragment(&frames[0]), Ok(true));
    assert_eq!(
        capsule.next_input(),
        Some(GlassesInput::Sensor { name: "t".repeat(48), value_milli: 1500 })
    );
    assert_eq!(
        encode_message(&Message { kind: MessageKind::Display, session: 3, sequence: 5, payload: vec![0; 2049] }),
        Err(ProxyError::Oversized)
    );
}

#[test]
fn halo_refuses_without_consent_or_activity() {
    let mut capsule = HaloCapsule::new(HostTransport::WebBluetooth);
    assert_eq!(capsule.transport(), HostTransport::WebBluetooth);
    assert_eq!(capsule.connect(1), Err(ProxyError::ConsentRequired));
    capsule.set_consent(true);
    assert_eq!(capsule.connect(1), Err(ProxyError::Inactive));
    let mut active = active_halo(1);
    let frames = encode_message(&Message {
        kind: MessageKind::LinkState,
        session: 2,
        sequence: 1,
        payload: vec![1],
    })
    .unwrap();
    assert_eq!(active.receive_fragment(&frames[0]), Err(ProxyError::StaleSession));
    assert_eq!(active.receive_fragment(&[0; 3]), Err(ProxyError::Malformed));
    let surface = active.encode_surface(7, &SurfaceCommand::Clear).unwrap();
    assert_eq!(surface.len(), 1);
    assert_eq!(surface[0][3], 17);
    assert_eq!(
        active.encode_surface(8, &SurfaceCommand::Display { cells: vec![0; 1025] }),
        Err(ProxyError::Oversized)
    );
    active.lifecycle(Lifecycle::Suspended);
    assert_eq!(active.encode_surface(9, &SurfaceCommand::Clear), Err(ProxyError::Inactive));
    assert_eq!(MessageKind::from_code(16), Ok(MessageKind::Display));
    assert_eq!(MessageKind::from_code(4), Err(ProxyError::Malformed));
    assert_eq!(MessageKind::Clear.code(), 17);
}

fn envelope(session: u64, sequence: u64, payload: WatchEvent) -> Envelope<WatchEvent> {
    Envelope { version: 1, session, sequence, payload }
}

#[test]
fn amazfit_accepts_each_sequence_once() {
    let mut capsule = AmazfitCapsule::default();
    assert_eq!(
        capsule.receive_parsed(10, None),
        Err(amazfit::ProxyError::ConsentRequired)
    );
    capsule.set_consent(true);
    capsule.lifecycle(amazfit::Lifecycle::Active);
    capsule.connect(5).unwrap();
    let event = envelope(5, 1, WatchEvent::Button { key: "up".into() });
    assert_eq!(capsule.receive_parsed(40, Some(event.clone())), Ok(true));
    assert_eq!(capsule.receive_parsed(40, Some(event.clone())), Ok(false));
    assert_eq!(capsule.next_event(), Some(event));
    assert_eq!(capsule.next_event(), None);
    assert_eq!(
        capsule.receive_parsed(MAX_FRAME_BYTES + 1, None),
        Err(amazfit::ProxyError::Oversized)
    );
    assert_eq!(capsule.receive_parsed(40, None), Err(amazfit::ProxyError::Malformed));
    assert_eq!(
        capsule.receive_parsed(40, Some(envelope(6, 2, WatchEvent::Button { key: "up".into() }))),
        Err(amazfit::ProxyError::StaleSession)
    );
    assert_eq!(
        capsule.receive_parsed(40, Some(envelope(5, 3, WatchEvent::Button { key: " ".into() }))),
        Err(amazfit::ProxyError::Malformed)
    );
    let mut wrong = envelope(5, 4, WatchEvent::Acknowledgement { action: "ok".into() });
    wrong.version = 2;
    assert_eq!(capsule.receive_parsed(40, Some(wrong)), Err(amazfit::ProxyError::WrongVersion));
}

#[test]
fn amazfit_commands_are_checked_and_bounded() {
    let mut capsule = AmazfitCapsule::default();
    assert_eq!(
        capsule.prepare_command(1, HostCommand::Clear),
        Err(amazfit::ProxyError::ConsentRequired)
    );
    capsule.set_consent(true);
    capsule.lifecycle(amazfit::Lifecycle::Active);
    capsule.connect(8).unwrap();
    assert_eq!(
        capsule.prepare_command(2, HostCommand::Haptic { pattern: "short".into() }),
        Ok(Envelope { version: 1, session: 8, sequence: 2, payload: HostCommand::Haptic { pattern: "short".into() } })
    );
    assert_eq!(
        capsule.prepare_command(3, HostCommand::Glance { title: "t".into(), body: "x".repeat(513) }),
        Err(amazfit::ProxyError::Malformed)
    );
    assert_eq!(bounded_frame(vec![0; MAX_FRAME_BYTES]).map(|b| b.len()), Ok(MAX_FRAME_BYTES));
    assert_eq!(bounded_frame(vec![0; MAX_FRAME_BYTES + 1]), Err(amazfit::ProxyError::Oversized));
    capsule.set_consent(false);
    assert_eq!(capsule.prepare_command(4, HostCommand::Clear), Err(amazfit::ProxyError::ConsentRequired));
}
