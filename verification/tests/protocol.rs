use nexxus::protocol::{
    check_payload_size, classify_existing, frame_length, frame_payload, validate_private_parent, ConnectOutcome,
    protocol_version, ExistingSocket, ProtocolError, ProtocolVersion, MAX_FRAME_SIZE,
};

#[test]
fn negotiates_minor_version() {
    assert_eq!(
        ProtocolVersion::new(1, 3)
            .negotiate(ProtocolVersion::new(1, 1))
            .unwrap(),
        ProtocolVersion::new(1, 1)
    );
    assert!(ProtocolVersion::new(1, 0)
        .negotiate(ProtocolVersion::new(2, 0))
        .is_err());
}

#[test]
fn negotiation_is_symmetric_on_concrete_versions() {
    let a = ProtocolVersion::new(1, 4);
    let b = ProtocolVersion::new(1, 2);
    assert_eq!(a.negotiate(b).unwrap(), b.negotiate(a).unwrap());
    let c = ProtocolVersion::new(3, 0);
    assert!(a.negotiate(c).is_err() && c.negotiate(a).is_err());
}

#[test]
fn incompatible_major_reports_both_versions() {
    match ProtocolVersion::new(1, 0).negotiate(ProtocolVersion::new(2, 5)) {
        Err(ProtocolError::IncompatibleVersion { local, peer }) => {
            assert_eq!(local, ProtocolVersion::new(1, 0));
            assert_eq!(peer, ProtocolVersion::new(2, 5));
        }
        other => panic!("unexpected {other:?}"),
    }
}

#[test]
fn current_protocol_version_is_one_zero() {
    assert_eq!(protocol_version(), ProtocolVersion::new(1, 0));
}

#[test]
fn frames_carry_a_big_endian_length_prefix() {
    let frame = frame_payload(&[7, 8, 9]).unwrap();
    assert_eq!(frame, vec![0, 0, 0, 3, 7, 8, 9]);
    let payload = vec![1u8; 300];
    let frame = frame_payload(&payload).unwrap();
    assert_eq!(&frame[..4], &[0, 0, 1, 44]);
    assert_eq!(frame.len(), 304);
    assert_eq!(frame_length([0, 0, 1, 44]).unwrap(), 300);
}

#[test]
fn framing_round_trips_the_length() {
    let payload = vec![5u8; 70000];
    let frame = frame_payload(&payload).unwrap();
    let prefix = [frame[0], frame[1], frame[2], frame[3]];
    assert_eq!(frame_length(prefix).unwrap(), 70000);
    assert_eq!(&frame[4..], payload.as_slice());
}

#[test]
fn oversized_frames_are_refused_both_ways() {
    let payload = vec![0u8; MAX_FRAME_SIZE + 1];
    assert!(matches!(
        frame_payload(&payload),
        Err(ProtocolError::OversizedFrame { actual, max }) if actual == MAX_FRAME_SIZE + 1 && max == MAX_FRAME_SIZE
    ));
    assert!(matches!(
        frame_length([0xff, 0xff, 0xff, 0xff]),
        Err(ProtocolError::OversizedFrame { actual: 4294967295, max: MAX_FRAME_SIZE })
    ));
    assert!(frame_length([0, 0x10, 0, 0]).is_ok());
    assert!(frame_length([0, 0x10, 0, 1]).is_err());
    assert!(check_payload_size(MAX_FRAME_SIZE).is_ok());
    assert!(check_payload_size(MAX_FRAME_SIZE + 1).is_err());
}

#[test]
fn private_directory_rule() {
    assert!(validate_private_parent("/run/user/1000", false, true, 1000, 0o40700, 1000).is_ok());
    assert!(validate_private_parent("/run/user/1000", false, true, 1000, 0o40750, 1000).is_err());
    assert!(validate_private_parent("/run/user/1000", false, true, 1001, 0o40700, 1000).is_err());
    assert!(validate_private_parent("/run/user/1000", true, true, 1000, 0o40700, 1000).is_err());
    assert!(validate_private_parent("/run/user/1000", false, false, 1000, 0o700, 1000).is_err());
    assert!(matches!(
        validate_private_parent("/run/user/1000", false, true, 1000, 0o40750, 1000),
        Err(nexxus::protocol::ProtocolError::InsecureEndpointDirectory(path)) if path == "/run/user/1000"
    ));
}

#[test]
fn existing_endpoint_classification() {
    assert_eq!(classify_existing(true, true, 1, 1, ConnectOutcome::Refused), ExistingSocket::Unsafe);
    assert_eq!(classify_existing(false, false, 1, 1, ConnectOutcome::Refused), ExistingSocket::Unsafe);
    assert_eq!(classify_existing(false, true, 2, 1, ConnectOutcome::Refused), ExistingSocket::Unsafe);
    assert_eq!(classify_existing(false, true, 1, 1, ConnectOutcome::Connected), ExistingSocket::InUse);
    assert_eq!(classify_existing(false, true, 1, 1, ConnectOutcome::Refused), ExistingSocket::Stale);
    assert_eq!(classify_existing(false, true, 1, 1, ConnectOutcome::NotFound), ExistingSocket::Vanished);
    assert_eq!(classify_existing(false, true, 1, 1, ConnectOutcome::Failed), ExistingSocket::ProbeFailed);
}
