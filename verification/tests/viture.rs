use sim_platform::viture::{ModeledViturePort, PhysicalDeviceCommand, PhysicalTransportStats, VitureError};

#[derive(Clone, Debug, PartialEq)]
enum PhysicalDeviceSample {
    Pose { pose: [f64; 7], tracking: bool },
}

#[test]
fn modeled_transport_connects_reconnects_and_cleans_up() {
    let sample = PhysicalDeviceSample::Pose {
        pose: [0.0; 7],
        tracking: true,
    };
    let mut session = ModeledViturePort::new(vec![sample.clone()])
        .connect()
        .unwrap();
    assert!(session.poll().is_err());
    session.start().unwrap();
    assert_eq!(session.poll().unwrap(), Some(sample.clone()));
    assert_eq!(session.poll().unwrap(), None);
    session.reconnect().unwrap();
    assert_eq!(session.poll().unwrap(), Some(sample));
    session.close().unwrap();
    assert!(session.poll().is_err());
}

#[test]
fn modeled_transport_applies_backpressure_and_counts_drops() {
    let sample = PhysicalDeviceSample::Pose {
        pose: [0.0; 7],
        tracking: true,
    };
    let mut session =
        ModeledViturePort::with_capacity(vec![sample.clone(), sample.clone(), sample], 2)
            .connect()
            .unwrap();
    assert_eq!(
        session.stats(),
        PhysicalTransportStats {
            queued: 2,
            dropped: 1
        }
    );
    session.start().unwrap();
    session.poll().unwrap();
    assert_eq!(
        session.stats(),
        PhysicalTransportStats {
            queued: 1,
            dropped: 1
        }
    );
}

#[test]
fn backpressure_keeps_the_newest_samples_in_order() {
    let mut session = ModeledViturePort::with_capacity(vec![1u8, 2, 3, 4, 5], 2).connect().unwrap();
    session.start().unwrap();
    assert_eq!(session.poll(), Ok(Some(4)));
    assert_eq!(session.poll(), Ok(Some(5)));
    assert_eq!(session.poll(), Ok(None));
    assert_eq!(session.stats(), PhysicalTransportStats { queued: 0, dropped: 3 });
    let roomy = ModeledViturePort::with_capacity(vec![1u8, 2], 5).connect().unwrap();
    assert_eq!(roomy.stats(), PhysicalTransportStats { queued: 2, dropped: 0 });
}

#[test]
fn commands_need_a_started_session() {
    let mut session = ModeledViturePort::new(vec![7u8]).connect().unwrap();
    assert_eq!(session.send(PhysicalDeviceCommand::<u8>::Display3d(true)), Err(VitureError::Unsupported));
    session.start().unwrap();
    assert_eq!(session.send(PhysicalDeviceCommand::<u8>::Display3d(true)), Ok(()));
    session.close().unwrap();
    assert_eq!(session.stats(), PhysicalTransportStats { queued: 0, dropped: 0 });
    assert_eq!(session.send(PhysicalDeviceCommand::<u8>::ImuReports(false)), Err(VitureError::Unsupported));
    session.reconnect().unwrap();
    assert_eq!(session.stats(), PhysicalTransportStats { queued: 1, dropped: 0 });
    assert_eq!(session.poll(), Ok(Some(7)));
}
