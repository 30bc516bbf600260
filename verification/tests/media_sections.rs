use webrtc::media_sections::{
    plan_matched_sections, plan_remote_offer_transceivers, TransceiverUpdate, LocalTransceiver, MatchError, PlannedSection, RemoteSection,
};
use webrtc::peer::{RTPCodecType, SDPSemantics};
use webrtc::rtp_transceiver_direction::RTPTransceiverDirection;

fn remote(mid: Option<&str>, media: &str, direction: RTPTransceiverDirection, rids: &[&str]) -> RemoteSection {
    RemoteSection {
        mid: mid.map(|m| m.to_string()),
        media: media.to_string(),
        direction,
        rids: rids.iter().map(|r| r.to_string()).collect(),
    }
}

fn local(mid: &str, kind: RTPCodecType, direction: RTPTransceiverDirection) -> LocalTransceiver {
    LocalTransceiver { mid: mid.to_string(), kind, direction }
}

fn section(id: &str, transceivers: Vec<usize>, rids: &[&str]) -> PlannedSection {
    PlannedSection {
        id: id.to_string(),
        transceivers,
        new_inactive: None,
        data: false,
        rids: rids.iter().map(|r| r.to_string()).collect(),
    }
}

fn data(id: &str) -> PlannedSection {
    PlannedSection { id: id.to_string(), transceivers: vec![], new_inactive: None, data: true, rids: vec![] }
}

#[test]
fn test_plan_unified_answer() {
    let remote_sections = [
        remote(Some("0"), "audio", RTPTransceiverDirection::Sendrecv, &[]),
        remote(Some("1"), "video", RTPTransceiverDirection::Sendonly, &["hi", "lo"]),
    ];
    let locals = [
        local("1", RTPCodecType::Video, RTPTransceiverDirection::Recvonly),
        local("0", RTPCodecType::Audio, RTPTransceiverDirection::Sendrecv),
    ];
    let plan = plan_matched_sections(&remote_sections, &locals, SDPSemantics::UnifiedPlan, false, false, true);
    assert_eq!(plan, Ok(vec![section("0", vec![1], &[]), section("1", vec![0], &["hi", "lo"])]));
}

#[test]
fn test_plan_errors() {
    let locals = [local("0", RTPCodecType::Audio, RTPTransceiverDirection::Sendrecv)];
    let no_mid = [remote(None, "audio", RTPTransceiverDirection::Sendrecv, &[])];
    assert_eq!(
        plan_matched_sections(&no_mid, &locals, SDPSemantics::UnifiedPlan, false, true, false),
        Err(MatchError::RemoteDescriptionWithoutMidValue)
    );
    let empty_mid = [remote(Some(""), "application", RTPTransceiverDirection::Sendrecv, &[])];
    assert_eq!(
        plan_matched_sections(&empty_mid, &locals, SDPSemantics::UnifiedPlan, false, true, false),
        Err(MatchError::RemoteDescriptionWithoutMidValue)
    );
    let unknown_mid = [remote(Some("5"), "audio", RTPTransceiverDirection::Sendrecv, &[])];
    assert_eq!(
        plan_matched_sections(&unknown_mid, &locals, SDPSemantics::UnifiedPlan, false, true, false),
        Err(MatchError::TransceiverMidNil)
    );
    let audio = [remote(Some("0"), "audio", RTPTransceiverDirection::Sendrecv, &[])];
    assert_eq!(
        plan_matched_sections(&audio, &locals, SDPSemantics::PlanB, false, false, false),
        Err(MatchError::IncorrectSDPSemantics)
    );
    assert_eq!(
        plan_matched_sections(&audio, &locals, SDPSemantics::UnifiedPlan, true, false, false),
        Err(MatchError::IncorrectSDPSemantics)
    );
}

#[test]
fn test_plan_b_answer() {
    let remote_sections = [
        remote(Some("audio"), "audio", RTPTransceiverDirection::Sendrecv, &[]),
        remote(Some("video"), "video", RTPTransceiverDirection::Sendonly, &[]),
        remote(Some("video2"), "video", RTPTransceiverDirection::Recvonly, &[]),
    ];
    let locals = [
        local("", RTPCodecType::Audio, RTPTransceiverDirection::Sendrecv),
        local("", RTPCodecType::Audio, RTPTransceiverDirection::Recvonly),
        local("", RTPCodecType::Video, RTPTransceiverDirection::Recvonly),
        local("", RTPCodecType::Audio, RTPTransceiverDirection::Sendonly),
        local("x", RTPCodecType::Audio, RTPTransceiverDirection::Recvonly),
    ];
    let plan = plan_matched_sections(
        &remote_sections,
        &locals,
        SDPSemantics::UnifiedPlanWithFallback,
        true,
        true,
        true,
    );
    // Recvonly transceivers come before sendrecv ones for a sendrecv section;
    // a section that nothing suits gets a new inactive transceiver; in plan b
    // no unmatched transceiver is added and the data section is `data`.
    assert_eq!(
        plan,
        Ok(vec![
            section("audio", vec![1, 0], &[]),
            section("video", vec![2], &[]),
            PlannedSection {
                id: "video2".to_string(),
                transceivers: vec![],
                new_inactive: Some(RTPCodecType::Video),
                data: false,
                rids: vec![],
            },
            data("data"),
        ])
    );
}

#[test]
fn test_plan_offer_with_unmatched_and_data() {
    let remote_sections = [
        remote(Some("0"), "audio", RTPTransceiverDirection::Sendrecv, &[]),
        remote(Some("9"), "text", RTPTransceiverDirection::Sendrecv, &[]),
        remote(Some("8"), "video", RTPTransceiverDirection::Unspecified, &[]),
    ];
    let locals = [
        local("0", RTPCodecType::Audio, RTPTransceiverDirection::Sendrecv),
        local("1", RTPCodecType::Video, RTPTransceiverDirection::Sendrecv),
    ];
    let plan = plan_matched_sections(&remote_sections, &locals, SDPSemantics::UnifiedPlan, false, true, true);
    assert_eq!(plan, Ok(vec![section("0", vec![0], &[]), section("1", vec![1], &[]), data("2")]));
    // Each local transceiver is in exactly one section.
    let mut used: Vec<usize> = plan.unwrap().iter().flat_map(|s| s.transceivers.clone()).collect();
    used.sort();
    assert_eq!(used, vec![0, 1]);
    // Without data channels, or answering, no data section is added.
    let plan = plan_matched_sections(&remote_sections, &locals, SDPSemantics::UnifiedPlan, false, true, false);
    assert_eq!(plan, Ok(vec![section("0", vec![0], &[]), section("1", vec![1], &[])]));
    let plan = plan_matched_sections(&remote_sections, &locals, SDPSemantics::UnifiedPlan, false, false, true);
    assert_eq!(plan, Ok(vec![section("0", vec![0], &[])]));
}

#[test]
fn test_plan_remote_application_section() {
    let remote_sections = [
        remote(Some("0"), "audio", RTPTransceiverDirection::Sendrecv, &[]),
        remote(Some("1"), "application", RTPTransceiverDirection::Unspecified, &[]),
    ];
    let locals = [local("0", RTPCodecType::Audio, RTPTransceiverDirection::Sendrecv)];
    let plan = plan_matched_sections(&remote_sections, &locals, SDPSemantics::UnifiedPlan, false, true, true);
    assert_eq!(plan, Ok(vec![section("0", vec![0], &[]), data("1")]));
}

#[test]
fn test_remote_offer_transceivers() {
    let remote_sections = [
        remote(Some("0"), "audio", RTPTransceiverDirection::Sendrecv, &[]),
        remote(Some("1"), "video", RTPTransceiverDirection::Recvonly, &[]),
        remote(None, "audio", RTPTransceiverDirection::Sendrecv, &[]),
        remote(Some("2"), "application", RTPTransceiverDirection::Sendrecv, &[]),
        remote(Some("3"), "video", RTPTransceiverDirection::Sendonly, &[]),
    ];
    let locals = [
        local("1", RTPCodecType::Video, RTPTransceiverDirection::Sendrecv),
        local("", RTPCodecType::Audio, RTPTransceiverDirection::Recvonly),
        local("", RTPCodecType::Video, RTPTransceiverDirection::Sendrecv),
    ];
    let updates = plan_remote_offer_transceivers(&remote_sections, &locals);
    assert_eq!(
        updates,
        Ok(vec![
            TransceiverUpdate {
                mid: "0".to_string(),
                transceiver: Some(1),
                stop: false,
                direction: RTPTransceiverDirection::Recvonly,
                kind: RTPCodecType::Audio,
                set_mid: true,
            },
            TransceiverUpdate {
                mid: "1".to_string(),
                transceiver: Some(0),
                stop: true,
                direction: RTPTransceiverDirection::Sendonly,
                kind: RTPCodecType::Video,
                set_mid: false,
            },
            TransceiverUpdate {
                mid: "3".to_string(),
                transceiver: None,
                stop: false,
                direction: RTPTransceiverDirection::Recvonly,
                kind: RTPCodecType::Video,
                set_mid: true,
            },
        ])
    );
    let empty_mid = [remote(Some(""), "audio", RTPTransceiverDirection::Sendrecv, &[])];
    assert_eq!(
        plan_remote_offer_transceivers(&empty_mid, &locals),
        Err(MatchError::RemoteDescriptionWithoutMidValue)
    );
}
