use webrtc::compound_packet::{
    CompoundMember, CompoundPacket, SourceDescriptionChunk, SourceDescriptionItem, SDES_CNAME,
};
use webrtc::rtcp::RtcpError;

fn rr(ssrcs: Vec<u32>) -> CompoundMember {
    CompoundMember::ReceiverReport { destination_ssrc: ssrcs }
}

fn sr() -> CompoundMember {
    CompoundMember::SenderReport { destination_ssrc: vec![] }
}

fn sdes(items: Vec<(u8, &str)>) -> CompoundMember {
    CompoundMember::SourceDescription {
        chunks: vec![SourceDescriptionChunk {
            source: 1234,
            items: items
                .into_iter()
                .map(|(t, s)| SourceDescriptionItem { sdes_type: t, text: s.to_string() })
                .collect(),
        }],
    }
}

#[test]
fn test_compound_packet_validate() {
    assert_eq!(CompoundPacket(vec![]).validate(), Err(RtcpError::ErrEmptyCompound));
    assert_eq!(
        CompoundPacket(vec![sdes(vec![(SDES_CNAME, "c")])]).validate(),
        Err(RtcpError::ErrBadFirstPacket)
    );
    assert_eq!(CompoundPacket(vec![rr(vec![])]).validate(), Err(RtcpError::ErrMissingCname));
    assert_eq!(
        CompoundPacket(vec![rr(vec![]), sdes(vec![(SDES_CNAME, "cname")])]).validate(),
        Ok(())
    );
    assert_eq!(
        CompoundPacket(vec![
            sr(),
            rr(vec![]),
            CompoundMember::SourceDescription { chunks: vec![] },
            sdes(vec![(2, "name"), (SDES_CNAME, "x")]),
            CompoundMember::Other { destination_ssrc: vec![] },
        ])
        .validate(),
        Ok(())
    );
    assert_eq!(
        CompoundPacket(vec![rr(vec![]), CompoundMember::Other { destination_ssrc: vec![] }])
            .validate(),
        Err(RtcpError::ErrPacketBeforeCname)
    );
    assert_eq!(
        CompoundPacket(vec![rr(vec![]), sdes(vec![(2, "name")])]).validate(),
        Err(RtcpError::ErrMissingCname)
    );
    assert_eq!(CompoundPacket(vec![sr(), sr()]).validate(), Err(RtcpError::ErrPacketBeforeCname));
}

#[test]
fn test_compound_packet_cname() {
    assert_eq!(CompoundPacket(vec![]).cname(), Err(RtcpError::ErrEmptyCompound));
    assert_eq!(
        CompoundPacket(vec![rr(vec![]), sdes(vec![(2, "n"), (SDES_CNAME, "cname")])]).cname(),
        Ok("cname".to_string())
    );
    assert_eq!(
        CompoundPacket(vec![rr(vec![]), sdes(vec![(2, "n")]), sdes(vec![(SDES_CNAME, "late")])])
            .cname(),
        Ok("late".to_string())
    );
    assert_eq!(
        CompoundPacket(vec![rr(vec![]), sdes(vec![(2, "n")])]).cname(),
        Err(RtcpError::ErrMissingCname)
    );
    assert_eq!(
        CompoundPacket(vec![rr(vec![]), sr()]).cname(),
        Err(RtcpError::ErrPacketBeforeCname)
    );
}

#[test]
fn test_compound_packet_destination_ssrc() {
    assert_eq!(CompoundPacket(vec![]).destination_ssrc(), Vec::<u32>::new());
    assert_eq!(CompoundPacket(vec![rr(vec![1, 2])]).destination_ssrc(), vec![1, 2]);
    assert_eq!(CompoundPacket(vec![sdes(vec![])]).destination_ssrc(), vec![1234]);
}
