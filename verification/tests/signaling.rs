use webrtc::dtls::handshake::{HandshakeMessageServerHello, RawExtension};
use webrtc::dtls::{protocol_version1_2, DtlsError};
use webrtc::interceptor::{SenderBuilder, DEFAULT_INTERVAL_NANOS};
use webrtc::signaling::{
    check_next_signaling_state, SdpType, SessionDescription, Signaling, SignalingError,
    SignalingState, StateChangeOp,
};

fn desc(t: SdpType, s: &str) -> SessionDescription {
    SessionDescription { sdp_type: t, sdp: s.to_string() }
}

#[test]
fn test_check_next_signaling_state() {
    let (stable, have_local_offer, have_remote_pranswer) = (
        SignalingState::Stable,
        SignalingState::HaveLocalOffer,
        SignalingState::HaveRemotePranswer,
    );
    assert_eq!(
        check_next_signaling_state(stable, have_local_offer, StateChangeOp::SetLocal, SdpType::Offer),
        Ok(have_local_offer)
    );
    assert_eq!(
        check_next_signaling_state(have_local_offer, have_remote_pranswer, StateChangeOp::SetRemote, SdpType::Pranswer),
        Ok(have_remote_pranswer)
    );
    assert_eq!(
        check_next_signaling_state(stable, stable, StateChangeOp::SetLocal, SdpType::Rollback),
        Err(SignalingError::ErrSignalingStateCannotRollback)
    );
    assert_eq!(
        check_next_signaling_state(stable, stable, StateChangeOp::SetRemote, SdpType::Answer),
        Err(SignalingError::ErrSignalingStateProposedTransitionInvalid)
    );
}

#[test]
fn test_offer_answer_exchange() {
    let mut s = Signaling::new();
    let offer = desc(SdpType::Offer, "v=0 offer");
    assert_eq!(s.set_description(false, &offer, StateChangeOp::SetLocal, "v=0 offer", ""), Ok(false));
    assert_eq!(s.state, SignalingState::HaveLocalOffer);
    assert_eq!(s.pending_local_description.as_ref().unwrap().sdp, "v=0 offer");
    let answer = desc(SdpType::Answer, "v=0 answer");
    assert_eq!(s.set_description(false, &answer, StateChangeOp::SetRemote, "v=0 offer", ""), Ok(true));
    assert_eq!(s.state, SignalingState::Stable);
    assert!(s.pending_local_description.is_none());
    assert!(s.pending_remote_description.is_none());
    assert_eq!(s.current_local_description.as_ref().unwrap().sdp, "v=0 offer");
    assert_eq!(s.current_remote_description.as_ref().unwrap().sdp, "v=0 answer");
}

#[test]
fn test_answering_side() {
    let mut s = Signaling::new();
    let offer = desc(SdpType::Offer, "remote offer");
    assert_eq!(s.set_description(false, &offer, StateChangeOp::SetRemote, "", "mine"), Ok(false));
    assert_eq!(s.state, SignalingState::HaveRemoteOffer);
    let pr = desc(SdpType::Pranswer, "mine");
    assert_eq!(s.set_description(false, &pr, StateChangeOp::SetLocal, "", "mine"), Ok(false));
    assert_eq!(s.state, SignalingState::HaveLocalPranswer);
    let ans = desc(SdpType::Answer, "mine");
    assert_eq!(s.set_description(false, &ans, StateChangeOp::SetLocal, "", "mine"), Ok(true));
    assert_eq!(s.current_local_description.as_ref().unwrap().sdp, "mine");
    assert_eq!(s.current_remote_description.as_ref().unwrap().sdp, "remote offer");
}

#[test]
fn test_set_description_errors() {
    let mut s = Signaling::new();
    let offer = desc(SdpType::Offer, "x");
    assert_eq!(
        s.set_description(true, &offer, StateChangeOp::SetLocal, "x", ""),
        Err(SignalingError::ErrConnectionClosed)
    );
    assert_eq!(
        s.set_description(false, &desc(SdpType::Unspecified, "x"), StateChangeOp::SetLocal, "x", ""),
        Err(SignalingError::ErrPeerConnSDPTypeInvalidValue)
    );
    assert_eq!(
        s.set_description(false, &offer, StateChangeOp::SetLocal, "y", ""),
        Err(SignalingError::ErrSDPDoesNotMatchOffer)
    );
    assert_eq!(
        s.set_description(false, &desc(SdpType::Answer, "a"), StateChangeOp::SetLocal, "", "b"),
        Err(SignalingError::ErrSDPDoesNotMatchAnswer)
    );
    assert_eq!(
        s.set_description(false, &desc(SdpType::Rollback, ""), StateChangeOp::SetRemote, "", ""),
        Err(SignalingError::ErrSignalingStateCannotRollback)
    );
    assert_eq!(
        s.set_description(false, &desc(SdpType::Answer, "a"), StateChangeOp::SetRemote, "", ""),
        Err(SignalingError::ErrSignalingStateProposedTransitionInvalid)
    );
    assert_eq!(s.state, SignalingState::Stable);
    assert!(s.pending_local_description.is_none());
}

fn hello() -> HandshakeMessageServerHello {
    HandshakeMessageServerHello {
        version: protocol_version1_2(),
        random: (0u8..32).collect(),
        cipher_suite: 0xc02b,
        compression_method: 0,
        extensions: vec![
            RawExtension { typ: 23, data: vec![] },
            RawExtension { typ: 14, data: vec![0, 2, 0, 1, 0] },
        ],
    }
}

#[test]
fn test_server_hello_roundtrip() {
    let h = hello();
    let raw = h.marshal();
    assert_eq!(raw.len(), 40 + 4 + 9);
    assert_eq!(&raw[0..2], &[254, 253]);
    assert_eq!(raw[34], 0);
    assert_eq!(&raw[35..38], &[0xc0, 0x2b, 0]);
    assert_eq!(&raw[38..40], &[0, 13]);
    assert_eq!(&raw[40..44], &[0, 23, 0, 0]);
    assert_eq!(HandshakeMessageServerHello::unmarshal(&raw).unwrap(), h);
}

#[test]
fn test_server_hello_errors() {
    let raw = hello().marshal();
    assert_eq!(HandshakeMessageServerHello::unmarshal(&raw[..39]), Err(DtlsError::ErrBufferTooSmall));
    assert_eq!(HandshakeMessageServerHello::unmarshal(&raw[..50]), Err(DtlsError::ErrBufferTooSmall));
    let mut bad = raw.clone();
    bad[41] = 99;
    assert_eq!(HandshakeMessageServerHello::unmarshal(&bad), Err(DtlsError::ErrInvalidExtensionType));
    let mut short = raw.clone();
    short[47] = 9;
    assert_eq!(HandshakeMessageServerHello::unmarshal(&short), Err(DtlsError::ErrBufferTooSmall));
}

#[test]
fn test_sender_builder() {
    let b: SenderBuilder<fn() -> u64> = SenderBuilder::new();
    assert_eq!(b.interval(), DEFAULT_INTERVAL_NANOS);
    let b = b.with_interval(5_000);
    assert_eq!(b.interval(), 5_000);
    fn clock() -> u64 {
        42
    }
    let mut b = b.with_now_fn(clock as fn() -> u64);
    assert_eq!(b.interval(), 5_000);
    let now = b.take_now().unwrap();
    assert_eq!(now(), 42);
    assert!(b.take_now().is_none());
}
