use webrtc::peer::{
    assign_mids, data_section_id, greater_mid_from_remote, ice_role, matched_transceiver_direction,
    new_transceiver_direction, remote_is_ice_lite, section_matching, simulcast_probe_step,
    undeclared_ssrc_plan, ICERole, RTPCodecType, SDPSemantics, SectionMatching, SemanticsError,
    UndeclaredSsrcError, UndeclaredSsrcPlan,
};
use webrtc::peer::{
    generate_data_channel_id, max_channels, remote_description_steps, DataChannelIdError,
    RemoteDescriptionSteps,
};
use webrtc::rtp_transceiver_direction::RTPTransceiverDirection;
use webrtc::signaling::SdpType;
use webrtc::sdp::description::{Attribute, MediaName, RangedPort};
use webrtc::sdp::session::MediaDescription;

fn section(media: &str, attributes: Vec<Attribute>) -> MediaDescription {
    MediaDescription {
        media_name: MediaName {
            media: media.to_string(),
            port: RangedPort { value: 9, range: None },
            protos: vec!["UDP".to_string()],
            formats: vec!["111".to_string()],
        },
        media_title: None,
        connection_information: None,
        bandwidth: vec![],
        encryption_key: None,
        attributes,
    }
}

#[test]
fn test_ice_role() {
    // Neither agent is lite: the offerer controls.
    assert_eq!(ice_role(true, false, false), ICERole::Controlling);
    assert_eq!(ice_role(false, false, false), ICERole::Controlled);
    // Both are lite: the offerer controls.
    assert_eq!(ice_role(true, true, true), ICERole::Controlling);
    assert_eq!(ice_role(false, true, true), ICERole::Controlled);
    // Exactly one is lite: the full agent controls.
    assert_eq!(ice_role(false, true, false), ICERole::Controlling);
    assert_eq!(ice_role(true, false, true), ICERole::Controlled);
}

#[test]
fn test_ice_roles_opposite() {
    for offerer_lite in [false, true] {
        for answerer_lite in [false, true] {
            assert_ne!(
                ice_role(true, answerer_lite, offerer_lite),
                ice_role(false, offerer_lite, answerer_lite)
            );
        }
    }
}

#[test]
fn test_remote_is_ice_lite() {
    assert!(remote_is_ice_lite(&[
        Attribute::new("group".to_string(), Some("BUNDLE 0".to_string())),
        Attribute::new(" ice-lite ".to_string(), None),
    ]));
    assert!(!remote_is_ice_lite(&[Attribute::new("group".to_string(), None)]));
    assert!(!remote_is_ice_lite(&[Attribute::new("ice-lite2".to_string(), None)]));
    assert!(!remote_is_ice_lite(&[]));
}

#[test]
fn test_transceiver_directions() {
    assert_eq!(matched_transceiver_direction(RTPTransceiverDirection::Recvonly, RTPTransceiverDirection::Sendrecv), RTPTransceiverDirection::Sendonly);
    assert_eq!(matched_transceiver_direction(RTPTransceiverDirection::Sendrecv, RTPTransceiverDirection::Sendonly), RTPTransceiverDirection::Sendrecv);
    assert_eq!(matched_transceiver_direction(RTPTransceiverDirection::Sendonly, RTPTransceiverDirection::Sendrecv), RTPTransceiverDirection::Sendrecv);
    assert_eq!(matched_transceiver_direction(RTPTransceiverDirection::Recvonly, RTPTransceiverDirection::Recvonly), RTPTransceiverDirection::Recvonly);
    assert_eq!(matched_transceiver_direction(RTPTransceiverDirection::Inactive, RTPTransceiverDirection::Sendonly), RTPTransceiverDirection::Sendonly);
    assert_eq!(new_transceiver_direction(RTPTransceiverDirection::Recvonly), RTPTransceiverDirection::Sendonly);
    assert_eq!(new_transceiver_direction(RTPTransceiverDirection::Sendrecv), RTPTransceiverDirection::Recvonly);
    assert_eq!(new_transceiver_direction(RTPTransceiverDirection::Sendonly), RTPTransceiverDirection::Recvonly);
}

#[test]
fn test_greater_mid_from_remote() {
    let mids: Vec<String> = ["0", "2", "audio", "", "-5", "+7"].iter().map(|s| s.to_string()).collect();
    assert_eq!(greater_mid_from_remote(&mids, 1), 7);
    assert_eq!(greater_mid_from_remote(&["a".to_string()], 3), 3);
    assert_eq!(greater_mid_from_remote(&["2".to_string()], 5), 5);
    assert_eq!(greater_mid_from_remote(&[], -1), -1);
}

#[test]
fn test_assign_mids() {
    let mut mids: Vec<String> = ["0", "", "audio", ""].iter().map(|s| s.to_string()).collect();
    assert_eq!(assign_mids(&mut mids, 2), 4);
    assert_eq!(mids, vec!["0", "3", "audio", "4"]);
    let mut fresh = vec![String::new()];
    assert_eq!(assign_mids(&mut fresh, -1), 0);
    assert_eq!(fresh, vec!["0"]);
    let mut none = vec!["a".to_string()];
    assert_eq!(assign_mids(&mut none, 9), 9);
    assert_eq!(none, vec!["a"]);
}

#[test]
fn test_undeclared_ssrc_plan() {
    assert_eq!(
        undeclared_ssrc_plan(&[section("audio", vec![])], false, false, false, false),
        Ok(UndeclaredSsrcPlan::SingleSection(RTPCodecType::Audio))
    );
    assert_eq!(
        undeclared_ssrc_plan(&[section("application", vec![])], false, false, false, false),
        Ok(UndeclaredSsrcPlan::SingleSection(RTPCodecType::Video))
    );
    assert_eq!(
        undeclared_ssrc_plan(
            &[section("video", vec![Attribute::new("ssrc".to_string(), Some("1 cname:x".to_string()))])],
            true,
            true,
            true,
            true
        ),
        Err(UndeclaredSsrcError::SingleMediaSectionHasExplicitSsrc)
    );
    let two = [section("audio", vec![]), section("video", vec![])];
    assert_eq!(
        undeclared_ssrc_plan(&two, false, false, true, true),
        Err(UndeclaredSsrcError::SimulcastMidRtpExtensionRequired)
    );
    assert_eq!(
        undeclared_ssrc_plan(&two, false, true, false, false),
        Err(UndeclaredSsrcError::SimulcastStreamIdRtpExtensionRequired)
    );
    assert_eq!(undeclared_ssrc_plan(&two, true, false, false, true), Ok(UndeclaredSsrcPlan::Simulcast));
}

#[test]
fn test_simulcast_probe_step() {
    let mut mid = String::new();
    let mut rid = String::new();
    assert!(!simulcast_probe_step(&mut mid, &mut rid, "1".to_string(), String::new()));
    assert_eq!(mid, "1");
    assert!(simulcast_probe_step(&mut mid, &mut rid, String::new(), "hi".to_string()));
    assert_eq!((mid.as_str(), rid.as_str()), ("1", "hi"));
    assert!(simulcast_probe_step(&mut mid, &mut rid, "2".to_string(), String::new()));
    assert_eq!((mid.as_str(), rid.as_str()), ("2", "hi"));
}

#[test]
fn test_section_matching() {
    assert_eq!(section_matching(SDPSemantics::PlanB, true), Ok(SectionMatching::PlanB));
    assert_eq!(section_matching(SDPSemantics::PlanB, false), Err(SemanticsError::IncorrectSDPSemantics));
    assert_eq!(section_matching(SDPSemantics::UnifiedPlan, true), Err(SemanticsError::IncorrectSDPSemantics));
    assert_eq!(section_matching(SDPSemantics::UnifiedPlan, false), Ok(SectionMatching::UnifiedPlan));
    assert_eq!(section_matching(SDPSemantics::UnifiedPlanWithFallback, true), Ok(SectionMatching::PlanB));
    assert_eq!(section_matching(SDPSemantics::UnifiedPlanWithFallback, false), Ok(SectionMatching::UnifiedPlan));
}

#[test]
fn test_data_section_id() {
    assert_eq!(data_section_id(true, 3), "data");
    assert_eq!(data_section_id(false, 3), "3");
    assert_eq!(data_section_id(false, 12), "12");
}

#[test]
fn test_remote_description_steps() {
    // First negotiation, answering a remote offer.
    assert_eq!(
        remote_description_steps(SdpType::Offer, false, true),
        RemoteDescriptionSteps {
            we_offer: false,
            restart_ice: false,
            set_remote_credentials: false,
            start_rtp_senders: false,
            start_transports: true,
        }
    );
    // Renegotiation offered by the remote side with new credentials.
    assert_eq!(
        remote_description_steps(SdpType::Offer, true, true),
        RemoteDescriptionSteps {
            we_offer: false,
            restart_ice: true,
            set_remote_credentials: true,
            start_rtp_senders: false,
            start_transports: false,
        }
    );
    // The answer to our own offer in a renegotiation with new credentials.
    assert_eq!(
        remote_description_steps(SdpType::Answer, true, true),
        RemoteDescriptionSteps {
            we_offer: true,
            restart_ice: false,
            set_remote_credentials: true,
            start_rtp_senders: true,
            start_transports: false,
        }
    );
    assert_eq!(
        remote_description_steps(SdpType::Answer, true, false),
        RemoteDescriptionSteps {
            we_offer: true,
            restart_ice: false,
            set_remote_credentials: false,
            start_rtp_senders: true,
            start_transports: false,
        }
    );
}

#[test]
fn test_generate_data_channel_id() {
    assert_eq!(max_channels(0), 65535);
    assert_eq!(max_channels(16), 16);
    // The DTLS client takes even ids, the server odd ones.
    assert_eq!(generate_data_channel_id(true, 0, &[0, 2]), Ok(4));
    assert_eq!(generate_data_channel_id(false, 0, &[]), Ok(1));
    assert_eq!(generate_data_channel_id(false, 0, &[1, 2, 3]), Ok(5));
    assert_eq!(generate_data_channel_id(true, 4, &[0, 2]), Err(DataChannelIdError::ErrMaxDataChannelID));
    assert_eq!(generate_data_channel_id(false, 2, &[]), Err(DataChannelIdError::ErrMaxDataChannelID));
}
