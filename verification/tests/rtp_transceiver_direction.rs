use webrtc::rtp_transceiver_direction::{
    have_rtp_transceiver_direction_intersection, RTPTransceiverDirection,
};

#[test]
fn test_new_rtp_transceiver_direction() {
    let tests = vec![
        ("Unspecified", RTPTransceiverDirection::Unspecified),
        ("Sendrecv", RTPTransceiverDirection::Sendrecv),
        ("Sendonly", RTPTransceiverDirection::Sendonly),
        ("Recvonly", RTPTransceiverDirection::Recvonly),
        ("Inactive", RTPTransceiverDirection::Inactive),
    ];

    for (ct_str, expected_type) in tests {
        assert_eq!(expected_type, RTPTransceiverDirection::from(ct_str));
    }
}

#[test]
fn test_rtp_transceiver_direction_string() {
    let tests = vec![
        (RTPTransceiverDirection::Unspecified, "Unspecified"),
        (RTPTransceiverDirection::Sendrecv, "Sendrecv"),
        (RTPTransceiverDirection::Sendonly, "Sendonly"),
        (RTPTransceiverDirection::Recvonly, "Recvonly"),
        (RTPTransceiverDirection::Inactive, "Inactive"),
    ];

    for (d, expected_string) in tests {
        assert_eq!(expected_string, d.to_string());
    }
}

#[test]
fn test_rtp_transceiver_direction_reverse() {
    assert_eq!(
        RTPTransceiverDirection::Sendonly.reverse(),
        RTPTransceiverDirection::Recvonly
    );
    assert_eq!(
        RTPTransceiverDirection::Recvonly.reverse(),
        RTPTransceiverDirection::Sendonly
    );
    assert_eq!(
        RTPTransceiverDirection::Sendrecv.reverse(),
        RTPTransceiverDirection::Sendrecv
    );
    assert_eq!(
        RTPTransceiverDirection::Inactive.reverse(),
        RTPTransceiverDirection::Inactive
    );
    for d in [
        RTPTransceiverDirection::Unspecified,
        RTPTransceiverDirection::Sendrecv,
        RTPTransceiverDirection::Sendonly,
        RTPTransceiverDirection::Recvonly,
        RTPTransceiverDirection::Inactive,
    ] {
        assert_eq!(d.reverse().reverse(), d);
    }
}

#[test]
fn test_rtp_transceiver_direction_unknown_name() {
    assert_eq!(
        RTPTransceiverDirection::from("sendrecv"),
        RTPTransceiverDirection::Unspecified
    );
    assert_eq!(
        RTPTransceiverDirection::from(""),
        RTPTransceiverDirection::Unspecified
    );
}

#[test]
fn test_have_rtp_transceiver_direction_intersection() {
    assert!(have_rtp_transceiver_direction_intersection(
        &[RTPTransceiverDirection::Sendrecv, RTPTransceiverDirection::Recvonly],
        &[RTPTransceiverDirection::Inactive, RTPTransceiverDirection::Recvonly]
    ));
    assert!(!have_rtp_transceiver_direction_intersection(
        &[RTPTransceiverDirection::Sendrecv, RTPTransceiverDirection::Recvonly],
        &[RTPTransceiverDirection::Inactive, RTPTransceiverDirection::Sendonly]
    ));
    assert!(!have_rtp_transceiver_direction_intersection(&[], &[RTPTransceiverDirection::Sendrecv]));
}
