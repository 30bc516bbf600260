use webrtc::dtls::conn::{
    fragment_handshake, handshake_records, MAX_SEQUENCE_NUMBER, compact_raw_packets, split_bytes, admit_record, effective_timing, read_record, RecordAdmission, RecordContent, RecordError,
    RecordOutcome,
};
use webrtc::dtls::flight::{
    flight3_server_flight, flight6_generate, Flight, FlightContent, FlightPacket, ServerFlightState,
};
use webrtc::dtls::handshake::{ContentType, HandshakeType, KeyAgreement};
use webrtc::dtls::{protocol_version1_2, Alert, AlertDescription, AlertLevel, DtlsError};

fn quiet(remote_epoch: u16) -> RecordOutcome {
    RecordOutcome {
        remote_epoch,
        accept: false,
        queue: false,
        handshake: false,
        deliver: false,
        alert: None,
        error: None,
    }
}

#[test]
fn test_effective_timing() {
    assert_eq!(effective_timing(0, 0), (1000, 64));
    assert_eq!(effective_timing(250, 128), (250, 128));
}

#[test]
fn test_admit_record() {
    // Beyond the next epoch: dropped.
    assert_eq!(admit_record(1, 3, true, true, true), RecordAdmission::Discard);
    // The next epoch: kept back when allowed.
    assert_eq!(admit_record(1, 2, true, true, true), RecordAdmission::Queue);
    assert_eq!(admit_record(1, 2, false, true, true), RecordAdmission::Discard);
    // Replayed: dropped.
    assert_eq!(admit_record(1, 1, true, false, true), RecordAdmission::Discard);
    // Encrypted before the keys are there: kept back when allowed.
    assert_eq!(admit_record(1, 1, true, true, false), RecordAdmission::Queue);
    assert_eq!(admit_record(1, 1, false, true, false), RecordAdmission::Discard);
    assert_eq!(admit_record(1, 1, true, true, true), RecordAdmission::Decrypt);
    assert_eq!(admit_record(1, 0, true, true, false), RecordAdmission::Read);
    assert_eq!(admit_record(65535, 65535, false, true, true), RecordAdmission::Decrypt);
}

#[test]
fn test_read_record_alerts() {
    let close = Alert { alert_level: AlertLevel::Fatal, alert_description: AlertDescription::CloseNotify };
    let out = read_record(1, 1, RecordContent::Alert(close), true, true);
    assert_eq!(
        out,
        RecordOutcome {
            accept: true,
            alert: Some(Alert { alert_level: AlertLevel::Warning, alert_description: AlertDescription::CloseNotify }),
            error: Some(RecordError::PeerAlert),
            ..quiet(1)
        }
    );
    let other = Alert { alert_level: AlertLevel::Fatal, alert_description: AlertDescription::HandshakeFailure };
    assert_eq!(read_record(0, 0, RecordContent::Alert(other), true, true).alert, Some(other));
    assert_eq!(
        read_record(0, 0, RecordContent::Malformed, true, true),
        RecordOutcome {
            alert: Some(Alert { alert_level: AlertLevel::Fatal, alert_description: AlertDescription::DecodeError }),
            error: Some(RecordError::Decode),
            ..quiet(0)
        }
    );
    assert_eq!(
        read_record(0, 0, RecordContent::Other, true, true).error,
        Some(RecordError::UnhandledContentType)
    );
}

#[test]
fn test_read_record_epochs() {
    // ChangeCipherSpec of the current epoch moves it on once the keys are there.
    let ccs = read_record(0, 0, RecordContent::ChangeCipherSpec, true, true);
    assert_eq!(ccs, RecordOutcome { remote_epoch: 1, accept: true, ..quiet(0) });
    // One of an earlier epoch does nothing.
    assert_eq!(read_record(1, 0, RecordContent::ChangeCipherSpec, true, true), quiet(1));
    // Without keys it is kept back.
    assert_eq!(
        read_record(0, 0, RecordContent::ChangeCipherSpec, true, false),
        RecordOutcome { queue: true, ..quiet(0) }
    );
    assert_eq!(read_record(0, 0, RecordContent::ChangeCipherSpec, false, false), quiet(0));
    assert_eq!(
        read_record(0, 0, RecordContent::Handshake, true, true),
        RecordOutcome { accept: true, handshake: true, ..quiet(0) }
    );
}

#[test]
fn test_read_record_application_data() {
    assert_eq!(
        read_record(1, 0, RecordContent::ApplicationData, true, true),
        RecordOutcome {
            alert: Some(Alert {
                alert_level: AlertLevel::Fatal,
                alert_description: AlertDescription::UnexpectedMessage
            }),
            error: Some(RecordError::ApplicationDataEpochZero),
            ..quiet(1)
        }
    );
    assert_eq!(
        read_record(1, 1, RecordContent::ApplicationData, true, true),
        RecordOutcome { accept: true, deliver: true, ..quiet(1) }
    );
}

fn change_cipher_spec() -> FlightPacket {
    FlightPacket {
        protocol_version: protocol_version1_2(),
        epoch: 0,
        content: FlightContent::ChangeCipherSpec,
        should_encrypt: false,
        reset_local_sequence_number: false,
    }
}

fn finished(data: Vec<u8>) -> FlightPacket {
    FlightPacket {
        protocol_version: protocol_version1_2(),
        epoch: 1,
        content: FlightContent::Finished(data),
        should_encrypt: true,
        reset_local_sequence_number: true,
    }
}

#[test]
fn test_flight6_generate() {
    let mut verify_data = Vec::new();
    let pkts = flight6_generate(&mut verify_data, Some(Ok(vec![1, 2, 3]))).unwrap();
    assert_eq!(pkts, vec![change_cipher_spec(), finished(vec![1, 2, 3])]);
    assert_eq!(verify_data, vec![1, 2, 3]);
    // A retransmission sends the kept verify data again.
    let again = flight6_generate(&mut verify_data, Some(Err(DtlsError::ErrBufferTooSmall))).unwrap();
    assert_eq!(again, vec![change_cipher_spec(), finished(vec![1, 2, 3])]);
    assert_eq!(verify_data, vec![1, 2, 3]);
}

#[test]
fn test_flight6_generate_failures() {
    let mut verify_data = Vec::new();
    assert_eq!(
        flight6_generate(&mut verify_data, Some(Err(DtlsError::ErrBufferTooSmall))),
        Err((
            Some(Alert { alert_level: AlertLevel::Fatal, alert_description: AlertDescription::InternalError }),
            Some(DtlsError::ErrBufferTooSmall)
        ))
    );
    assert!(verify_data.is_empty());
    let pkts = flight6_generate(&mut verify_data, None).unwrap();
    assert_eq!(pkts, vec![change_cipher_spec(), finished(vec![])]);
}

fn server_flight_state() -> ServerFlightState {
    ServerFlightState { peer_certificates: vec![], pre_master_secret: vec![9], remote_requested_certificate: false }
}

#[test]
fn test_flight3_server_flight() {
    let mut state = server_flight_state();
    let r = flight3_server_flight(
        Some(vec![vec![0x30, 0x82]]),
        Some(KeyAgreement::Psk(Ok(vec![1, 2]))),
        true,
        &mut state,
    );
    assert_eq!(r, Ok(Flight::Flight5));
    assert_eq!(state.peer_certificates, vec![vec![0x30, 0x82]]);
    assert_eq!(state.pre_master_secret, vec![0, 2, 0, 0, 0, 2, 1, 2]);
    assert!(state.remote_requested_certificate);

    let mut plain = server_flight_state();
    assert_eq!(flight3_server_flight(None, Some(KeyAgreement::Ecdh(Ok(vec![5, 6]))), false, &mut plain), Ok(Flight::Flight5));
    assert_eq!(plain.pre_master_secret, vec![5, 6]);
    assert!(!plain.remote_requested_certificate);
    assert!(plain.peer_certificates.is_empty());

    let mut nothing = server_flight_state();
    assert_eq!(flight3_server_flight(None, None, false, &mut nothing), Ok(Flight::Flight5));
    assert_eq!(nothing.pre_master_secret, vec![9]);
}

#[test]
fn test_flight3_server_flight_key_exchange_failure() {
    let mut state = server_flight_state();
    let r = flight3_server_flight(
        Some(vec![vec![1]]),
        Some(KeyAgreement::Ecdh(Err(DtlsError::ErrInvalidCertificate))),
        true,
        &mut state,
    );
    assert_eq!(
        r,
        Err((
            Some(Alert { alert_level: AlertLevel::Fatal, alert_description: AlertDescription::InternalError }),
            Some(DtlsError::ErrInvalidCertificate)
        ))
    );
    assert_eq!(state.peer_certificates, vec![vec![1]]);
    assert_eq!(state.pre_master_secret, vec![9]);
    assert!(!state.remote_requested_certificate);
}

#[test]
fn test_compact_raw_packets() {
    let raw = vec![vec![1u8; 4], vec![2u8; 4], vec![3u8; 4]];
    assert_eq!(
        compact_raw_packets(&raw, 10),
        vec![vec![1, 1, 1, 1, 2, 2, 2, 2], vec![3, 3, 3, 3]]
    );
    assert_eq!(compact_raw_packets(&raw, 100), vec![[vec![1u8; 4], vec![2u8; 4], vec![3u8; 4]].concat()]);
    assert_eq!(compact_raw_packets(&[], 10), vec![Vec::<u8>::new()]);
    // A record longer than the MTU still gets a datagram.
    assert_eq!(compact_raw_packets(&[vec![7u8; 12], vec![8u8; 1]], 10), vec![vec![7u8; 12], vec![8u8]]);
}

#[test]
fn test_split_bytes() {
    assert_eq!(split_bytes(&[1, 2, 3, 4, 5], 2), vec![vec![1, 2], vec![3, 4], vec![5]]);
    assert_eq!(split_bytes(&[1, 2], 2), vec![vec![1, 2]]);
    assert_eq!(split_bytes(&[], 3), Vec::<Vec<u8>>::new());
}

#[test]
fn test_fragment_handshake() {
    let frags = fragment_handshake(4, HandshakeType::ClientHello, 6, 2, &[1, 2, 3, 4, 5, 6]);
    assert_eq!(
        frags,
        vec![
            vec![1, 0, 0, 6, 0, 2, 0, 0, 0, 0, 0, 4, 1, 2, 3, 4],
            vec![1, 0, 0, 6, 0, 2, 0, 0, 4, 0, 0, 2, 5, 6],
        ]
    );
    assert_eq!(
        fragment_handshake(100, HandshakeType::ServerHelloDone, 0, 3, &[]),
        vec![vec![14, 0, 0, 0, 0, 3, 0, 0, 0, 0, 0, 0]]
    );
}

#[test]
fn test_handshake_records() {
    let mut seqs = vec![];
    let recs = handshake_records(&mut seqs, ContentType::Handshake, protocol_version1_2(), 1, &[vec![9, 9], vec![8]]);
    assert_eq!(
        recs,
        Ok(vec![
            vec![22, 0xfe, 0xfd, 0, 1, 0, 0, 0, 0, 0, 0, 0, 2, 9, 9],
            vec![22, 0xfe, 0xfd, 0, 1, 0, 0, 0, 0, 0, 1, 0, 1, 8],
        ])
    );
    assert_eq!(seqs, vec![0, 2]);
    let mut seqs = vec![5, 7];
    let recs = handshake_records(&mut seqs, ContentType::Handshake, protocol_version1_2(), 0, &[vec![1]]);
    assert_eq!(recs, Ok(vec![vec![22, 0xfe, 0xfd, 0, 0, 0, 0, 0, 0, 0, 5, 0, 1, 1]]));
    assert_eq!(seqs, vec![6, 7]);
}

#[test]
fn test_handshake_records_overflow() {
    let mut seqs = vec![MAX_SEQUENCE_NUMBER];
    let recs = handshake_records(&mut seqs, ContentType::Handshake, protocol_version1_2(), 0, &[vec![1], vec![2]]);
    assert_eq!(recs, Err(DtlsError::ErrSequenceNumberOverflow));
    assert_eq!(seqs, vec![MAX_SEQUENCE_NUMBER + 2]);
}
