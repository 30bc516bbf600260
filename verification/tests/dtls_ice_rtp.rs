use webrtc::abs_send_time::ntp2unix_checked;
use webrtc::dtls::handshake::{
        handle_server_key_exchange, prf_psk_pre_master_secret, HandshakeMessageServerHello,
        HandshakeType, KeyAgreement,
    };
use webrtc::api::ApiBuilder;
use webrtc::rtp_transceiver_direction::RTPTransceiverDirection;
use webrtc::abs_send_time::{ntp2unix, unix2ntp, AbsSendTimeExtension, ExtensionError};
use webrtc::candidate_pair::{CandidatePair, CandidatePairState};
use webrtc::dtls::flight::{
    flight3_client_hello_extensions, OfferedExtension, flight0_client_hello, flight3_hello_verify_request, flight3_server_hello, Flight,
    HandshakeConfig, HelloExtension, HelloOutcome,
};
use webrtc::dtls::handshake::{
    generate_aead_additional_data, value_key_message, ContentType,
    HandshakeMessageClientKeyExchange, RecordLayerHeader,
};
use webrtc::dtls::{
    find_matching_cipher_suite, find_matching_srtp_profile, protocol_version1_0,
    protocol_version1_2, AlertDescription, DtlsError, ExtendedMasterSecretType, NamedCurve,
    ProtocolVersion, SRTPProtectionProfile,
};

#[test]
fn test_client_key_exchange_roundtrip() {
    let psk = HandshakeMessageClientKeyExchange { identity_hint: vec![1, 2, 3], public_key: vec![] };
    let raw = psk.marshal().unwrap();
    assert_eq!(raw, vec![0, 3, 1, 2, 3]);
    assert_eq!(HandshakeMessageClientKeyExchange::unmarshal(&raw).unwrap(), psk);

    let ecdh = HandshakeMessageClientKeyExchange { identity_hint: vec![], public_key: vec![9, 8] };
    let raw = ecdh.marshal().unwrap();
    assert_eq!(raw, vec![2, 9, 8]);
    assert_eq!(HandshakeMessageClientKeyExchange::unmarshal(&raw).unwrap(), ecdh);
}

#[test]
fn test_client_key_exchange_errors() {
    let both = HandshakeMessageClientKeyExchange { identity_hint: vec![1], public_key: vec![2] };
    assert_eq!(both.marshal(), Err(DtlsError::ErrInvalidClientKeyExchange));
    let none = HandshakeMessageClientKeyExchange { identity_hint: vec![], public_key: vec![] };
    assert_eq!(none.marshal(), Err(DtlsError::ErrInvalidClientKeyExchange));
    assert_eq!(
        HandshakeMessageClientKeyExchange::unmarshal(&[5, 1, 2]),
        Err(DtlsError::ErrBufferTooSmall)
    );
}

#[test]
fn test_value_key_message() {
    let m = value_key_message(&[1], &[2], &[7, 7], NamedCurve::X25519);
    assert_eq!(m, vec![1, 2, 3, 0x00, 0x1d, 2, 7, 7]);
}

#[test]
fn test_aead_additional_data() {
    let h = RecordLayerHeader {
        content_type: ContentType::ApplicationData,
        protocol_version: protocol_version1_2(),
        epoch: 1,
        sequence_number: 0x0000_0102_0304_0506,
        content_len: 0,
    };
    let ad = generate_aead_additional_data(&h, 0x0123);
    assert_eq!(ad, vec![0, 1, 1, 2, 3, 4, 5, 6, 23, 254, 253, 0x01, 0x23]);
}

#[test]
fn test_find_matching() {
    assert_eq!(find_matching_cipher_suite(&[1, 2, 3], &[3, 2]), Some(2));
    assert_eq!(find_matching_cipher_suite(&[1], &[2]), None);
    assert_eq!(
        find_matching_srtp_profile(
            &[SRTPProtectionProfile::Srtp_Aead_Aes_128_Gcm, SRTPProtectionProfile::Srtp_Aes128_Cm_Hmac_Sha1_80],
            &[SRTPProtectionProfile::Srtp_Aes128_Cm_Hmac_Sha1_80],
        ),
        Some(SRTPProtectionProfile::Srtp_Aes128_Cm_Hmac_Sha1_80)
    );
}

fn config() -> HandshakeConfig {
    HandshakeConfig {
        local_cipher_suites: vec![0xc02b, 0xc0ac],
        local_srtp_protection_profiles: vec![SRTPProtectionProfile::Srtp_Aes128_Cm_Hmac_Sha1_80],
        extended_master_secret: ExtendedMasterSecretType::Request,
    }
}

fn start() -> HelloOutcome {
    HelloOutcome {
        cipher_suite: 0,
        named_curve: NamedCurve::Unsupported,
        srtp_protection_profile: SRTPProtectionProfile::Unsupported,
        extended_master_secret: false,
        server_name: vec![],
        remote_random: vec![],
    }
}

#[test]
fn test_flight0_client_hello() {
    let exts = vec![
        HelloExtension::SupportedEllipticCurves(vec![NamedCurve::X25519, NamedCurve::P256]),
        HelloExtension::UseSrtp(vec![SRTPProtectionProfile::Srtp_Aes128_Cm_Hmac_Sha1_80]),
        HelloExtension::UseExtendedMasterSecret,
        HelloExtension::ServerName(b"example.org".to_vec()),
    ];
    let (f, o) =
        flight0_client_hello(protocol_version1_2(), &[7u8; 32], &[0xc0ac, 0xc02b], &exts, &config(), start())
            .unwrap();
    assert_eq!(f, Flight::Flight2);
    assert_eq!(o.cipher_suite, 0xc0ac);
    assert_eq!(o.named_curve, NamedCurve::X25519);
    assert_eq!(o.srtp_protection_profile, SRTPProtectionProfile::Srtp_Aes128_Cm_Hmac_Sha1_80);
    assert!(o.extended_master_secret);
    assert_eq!(o.server_name, b"example.org".to_vec());
    assert_eq!(o.remote_random, vec![7u8; 32]);

    let bad = flight0_client_hello(protocol_version1_2(), &[7u8; 32], &[0x0001], &exts, &config(), start());
    let (alert, err) = bad.unwrap_err();
    assert_eq!(err, Some(DtlsError::ErrCipherSuiteNoIntersection));
    assert_eq!(alert.unwrap().alert_description, AlertDescription::InsufficientSecurity);

    let no_curves = vec![HelloExtension::SupportedEllipticCurves(vec![])];
    let (_, err) =
        flight0_client_hello(protocol_version1_2(), &[7u8; 32], &[0xc02b], &no_curves, &config(), start())
            .unwrap_err();
    assert_eq!(err, Some(DtlsError::ErrNoSupportedEllipticCurves));
}

#[test]
fn test_flight3() {
    let mut cookie = vec![];
    assert_eq!(flight3_hello_verify_request(protocol_version1_0(), &[1, 2, 3], &mut cookie), Ok(Flight::Flight3));
    assert_eq!(cookie, vec![1, 2, 3]);
    assert_eq!(flight3_hello_verify_request(protocol_version1_2(), &[9, 9], &mut cookie), Ok(Flight::Flight3));
    assert_eq!(cookie, vec![9, 9]);
    let (alert, err) =
        flight3_hello_verify_request(ProtocolVersion { major: 1, minor: 1 }, &[5], &mut cookie).unwrap_err();
    assert_eq!(cookie, vec![9, 9]);
    assert_eq!(err, Some(DtlsError::ErrUnsupportedProtocolVersion));
    assert_eq!(alert.unwrap().alert_description, AlertDescription::ProtocolVersion);

    let exts = vec![HelloExtension::UseSrtp(vec![
        SRTPProtectionProfile::Srtp_Aes128_Cm_Hmac_Sha1_80,
    ])];
    let (f, o) =
        flight3_server_hello(protocol_version1_2(), &[3u8; 32], 0xc02b, &exts, &config(), start()).unwrap();
    assert_eq!(f, Flight::Flight5);
    assert_eq!(o.cipher_suite, 0xc02b);
    assert_eq!(o.srtp_protection_profile, SRTPProtectionProfile::Srtp_Aes128_Cm_Hmac_Sha1_80);
    assert_eq!(o.remote_random, vec![3u8; 32]);
    assert!(flight3_server_hello(protocol_version1_0(), &[3u8; 32], 0xc02b, &exts, &config(), start()).is_err());
}

#[test]
fn test_candidate_pair_priority() {
    let p = CandidatePair::new(100, 200, true);
    assert_eq!(p.state, CandidatePairState::Waiting);
    assert_eq!(p.priority(), 4294967296 * 100 + 2 * 200);
    let q = CandidatePair::new(200, 100, false);
    assert_eq!(q.priority(), p.priority());
    let r = CandidatePair::new(300, 100, true);
    assert_eq!(r.priority(), 4294967296 * 100 + 2 * 300 + 1);
    assert_eq!(CandidatePair::new(1, 1, true).priority(), 4294967298);
    let top = CandidatePair::new(u32::MAX, u32::MAX, false).priority();
    assert_eq!(top, (4294967296u64 * 4294967295).wrapping_add(2 * 4294967295));
    assert_eq!(CandidatePairState::default(), CandidatePairState::Waiting);
    assert_eq!(CandidatePairState::InProgress.to_string(), "in-progress");
    assert_eq!(CandidatePairState::Succeeded.to_string(), "succeeded");
}

#[test]
fn test_abs_send_time() {
    let send: u64 = 1_600_000_000_123_456_789;
    assert_eq!(unix2ntp(send), 0xe3088e801f9add37);
    assert_eq!(ntp2unix(unix2ntp(send)), 1_600_000_000_123_456_788);
    let ext = AbsSendTimeExtension::new(send);
    assert_eq!(ext.timestamp, 998503560019563);
    let raw = ext.marshal().unwrap();
    let mut back = AbsSendTimeExtension { timestamp: 0 };
    back.unmarshal(&raw).unwrap();
    assert_eq!(back.timestamp, ext.timestamp % (1 << 24));
    assert_eq!(back.estimate(send + 10_000_000), 1_600_000_000_123_455_047);
    assert_eq!(back.unmarshal(&[1, 2]), Err(ExtensionError::TooSmall));
}

#[test]
fn test_abs_send_time_checked() {
    let send: u64 = 1_600_000_000_123_456_789;
    let ext = AbsSendTimeExtension { timestamp: AbsSendTimeExtension::new(send).timestamp % (1 << 24) };
    assert_eq!(ext.estimate_checked(send + 10_000_000), Some(1_600_000_000_123_455_047));
    assert_eq!(ntp2unix_checked(0), None);
    assert_eq!(ntp2unix_checked(unix2ntp(send)), Some(1_600_000_000_123_456_788));
    // Before the Unix epoch in NTP terms the estimate has no time.
    let early = AbsSendTimeExtension { timestamp: 0xFFFFFF };
    assert_eq!(early.estimate_checked(0), None);
}

#[test]
fn test_handshake_types_and_psk() {
    assert_eq!(HandshakeMessageClientKeyExchange::handshake_type().to_byte(), 16);
    assert_eq!(HandshakeMessageServerHello::handshake_type(), HandshakeType::ServerHello);
    assert_eq!(HandshakeType::Finished.to_byte(), 20);
    assert_eq!(prf_psk_pre_master_secret(&[7, 8]), vec![0, 2, 0, 0, 0, 2, 7, 8]);
    assert_eq!(
        handle_server_key_exchange(KeyAgreement::Psk(Ok(vec![1]))).unwrap(),
        vec![0, 1, 0, 0, 1, 1]
    );
    assert_eq!(handle_server_key_exchange(KeyAgreement::Ecdh(Ok(vec![5, 6]))).unwrap(), vec![5, 6]);
    let (alert, err) =
        handle_server_key_exchange(KeyAgreement::Ecdh(Err(DtlsError::ErrBufferTooSmall))).unwrap_err();
    assert_eq!(alert.unwrap().alert_description, AlertDescription::InternalError);
    assert_eq!(err, Some(DtlsError::ErrBufferTooSmall));
}

#[test]
fn test_api_builder() {
    let api = ApiBuilder::<u32, String, u8>::new().build();
    assert_eq!(api.setting_engine, 0);
    assert_eq!(api.media_engine, "");
    assert!(api.interceptor.is_none());
    let api = ApiBuilder::<u32, String, u8>::new()
        .with_setting_engine(7)
        .with_media_engine("m".to_string())
        .with_interceptor(3)
        .build();
    assert_eq!(api.setting_engine, 7);
    assert_eq!(api.media_engine, "m");
    assert_eq!(api.interceptor, Some(3));
}

#[test]
fn test_direction_name_roundtrip() {
    for d in [
        RTPTransceiverDirection::Sendrecv,
        RTPTransceiverDirection::Sendonly,
        RTPTransceiverDirection::Recvonly,
        RTPTransceiverDirection::Inactive,
        RTPTransceiverDirection::Unspecified,
    ] {
        assert_eq!(RTPTransceiverDirection::from(&d.to_string()), d);
    }
}

#[test]
fn test_flight3_client_hello_extensions() {
    let mut cfg = config();
    let exts = flight3_client_hello_extensions(&[0x0403], false, &cfg, b"host");
    assert_eq!(
        exts,
        vec![
            OfferedExtension::SupportedSignatureAlgorithms(vec![0x0403]),
            OfferedExtension::SupportedEllipticCurves(vec![NamedCurve::X25519, NamedCurve::P256, NamedCurve::P384]),
            OfferedExtension::SupportedPointFormats(vec![0]),
            OfferedExtension::UseSrtp(vec![SRTPProtectionProfile::Srtp_Aes128_Cm_Hmac_Sha1_80]),
            OfferedExtension::UseExtendedMasterSecret,
            OfferedExtension::ServerName(b"host".to_vec()),
        ]
    );
    cfg.extended_master_secret = ExtendedMasterSecretType::Disable;
    cfg.local_srtp_protection_profiles = vec![];
    let exts = flight3_client_hello_extensions(&[], true, &cfg, b"");
    assert_eq!(exts, vec![OfferedExtension::SupportedSignatureAlgorithms(vec![])]);
}

#[test]
fn test_abs_send_time_estimate_accuracy() {
    let send: u64 = 1_600_000_000_123_456_789;
    let ext = AbsSendTimeExtension::new(send);
    for transit in [0u64, 1, 999_999_999, 10_000_000_000, 62_999_999_999] {
        let estimate = ext.estimate(send + transit);
        assert!(estimate <= send);
        assert!(send - estimate < 4000);
    }
}
