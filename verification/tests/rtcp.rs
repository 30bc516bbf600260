use webrtc::rtcp::{
    datagram_packets, packet_kind, unmarshal, Packet, PacketKind, Header, NackPair, PacketType, RawPacket, RtcpError, TransportLayerNack,
};

#[test]
fn test_raw_packet_roundtrip() {
    let tests = vec![
        (
            "valid",
            RawPacket(vec![
                // v=2, p=0, count=1, BYE, len=12
                0x81, 0xcb, 0x00, 0x0c, // ssrc=0x902f9e2e
                0x90, 0x2f, 0x9e, 0x2e, // len=3, text=FOO
                0x03, 0x46, 0x4f, 0x4f,
            ]),
            None,
            None,
        ),
        (
            "short header",
            RawPacket(vec![0x00]),
            None,
            Some(RtcpError::ErrPacketTooShort),
        ),
        (
            "invalid header",
            RawPacket(vec![
                // v=0, p=0, count=0, RR, len=4
                0x00, 0xc9, 0x00, 0x04,
            ]),
            None,
            Some(RtcpError::ErrBadVersion),
        ),
    ];

    for (name, pkt, marshal_error, unmarshal_error) in tests {
        let result = pkt.marshal();
        let data = if let Some(err) = marshal_error {
            if let Err(got) = result {
                assert_eq!(got, err, "marshal {} header: err = {:?}, want {:?}", name, got, err);
            } else {
                assert!(false, "want error in test {}", name);
            }
            continue;
        } else {
            assert!(result.is_ok(), "must no error in test {}", name);
            result.unwrap()
        };

        let result = RawPacket::unmarshal(&data);
        if let Some(err) = unmarshal_error {
            if let Err(got) = result {
                assert_eq!(got, err, "Unmarshal {} header: err = {:?}, want {:?}", name, got, err);
            } else {
                assert!(false, "want error in test {}", name);
            }
            continue;
        } else {
            assert!(result.is_ok(), "must no error in test {}", name);
            let decoded = result.unwrap();
            assert_eq!(
                decoded, pkt,
                "{} header round trip: got {:?}, want {:?}",
                name, decoded, pkt
            )
        }
    }
}

#[test]
fn test_transport_layer_nack_unmarshal() {
    let tests = vec![
        (
            "valid",
            vec![
                // TransportLayerNack
                0x81, 0xcd, 0x0, 0x3, // sender=0x902f9e2e
                0x90, 0x2f, 0x9e, 0x2e, // media=0x902f9e2e
                0x90, 0x2f, 0x9e, 0x2e, // nack 0xAAAA, 0x5555
                0xaa, 0xaa, 0x55, 0x55,
            ],
            TransportLayerNack {
                sender_ssrc: 0x902f9e2e,
                media_ssrc: 0x902f9e2e,
                nacks: vec![NackPair {
                    packet_id: 0xaaaa,
                    lost_packets: 0x5555,
                }],
            },
            None,
        ),
        (
            "short report",
            vec![
                0x81, 0xcd, 0x0, 0x2, // ssrc=0x902f9e2e
                0x90, 0x2f, 0x9e, 0x2e,
                // report ends early
            ],
            TransportLayerNack::default(),
            Some(RtcpError::ErrFailedToFillWholeBuffer),
        ),
        (
            "wrong type",
            vec![
                // v=2, p=0, count=1, SR, len=7
                0x81, 0xc8, 0x0, 0x7, // ssrc=0x902f9e2e
                0x90, 0x2f, 0x9e, 0x2e, // ssrc=0xbc5e9a40
                0xbc, 0x5e, 0x9a, 0x40, // fracLost=0, totalLost=0
                0x0, 0x0, 0x0, 0x0, // lastSeq=0x46e1
                0x0, 0x0, 0x46, 0xe1, // jitter=273
                0x0, 0x0, 0x1, 0x11, // lsr=0x9f36432
                0x9, 0xf3, 0x64, 0x32, // delay=150137
                0x0, 0x2, 0x4a, 0x79,
            ],
            TransportLayerNack::default(),
            Some(RtcpError::ErrWrongType),
        ),
        (
            "nil",
            vec![],
            TransportLayerNack::default(),
            Some(RtcpError::ErrFailedToFillWholeBuffer),
        ),
    ];

    for (name, data, want, want_error) in tests {
        let result = TransportLayerNack::unmarshal(&data);
        if let Some(err) = want_error {
            if let Err(got) = result {
                assert_eq!(got, err, "Unmarshal {} header: err = {:?}, want {:?}", name, got, err);
            } else {
                assert!(false, "want error in test {}", name);
            }
        } else {
            if let Ok(got) = result {
                assert_eq!(
                    got, want,
                    "Unmarshal {} header: got {:?}, want {:?}",
                    name, got, want,
                )
            } else {
                assert!(false, "must no error in test {}", name);
            }
        }
    }
}

#[test]
fn test_transport_layer_nack_roundtrip() {
    let tests = vec![(
        "valid",
        TransportLayerNack {
            sender_ssrc: 0x902f9e2e,
            media_ssrc: 0x902f9e2e,
            nacks: vec![
                NackPair {
                    packet_id: 1,
                    lost_packets: 0xAA,
                },
                NackPair {
                    packet_id: 1034,
                    lost_packets: 0x05,
                },
            ],
        },
        None::<RtcpError>,
    )];

    for (name, report, marshal_error) in tests {
        let result = report.marshal();
        let data = if let Some(err) = marshal_error {
            if let Err(got) = result {
                assert_eq!(got, err, "marshal {} header: err = {:?}, want {:?}", name, got, err);
            } else {
                assert!(false, "want error in test {}", name);
            }
            continue;
        } else {
            assert!(result.is_ok(), "must no error in test {}", name);
            result.unwrap()
        };

        let decoded = TransportLayerNack::unmarshal(&data).unwrap();
        assert_eq!(
            decoded, report,
            "{} header round trip: got {:?}, want {:?}",
            name, decoded, report
        )
    }
}

#[test]
fn test_transport_layer_nack_marshal_bytes() {
    let report = TransportLayerNack {
        sender_ssrc: 0x902f9e2e,
        media_ssrc: 0x902f9e2e,
        nacks: vec![NackPair {
            packet_id: 0xaaaa,
            lost_packets: 0x5555,
        }],
    };
    assert_eq!(
        report.marshal().unwrap(),
        vec![
            0x81, 0xcd, 0x0, 0x3, 0x90, 0x2f, 0x9e, 0x2e, 0x90, 0x2f, 0x9e, 0x2e, 0xaa, 0xaa, 0x55,
            0x55
        ]
    );
    let too_many = TransportLayerNack {
        sender_ssrc: 1,
        media_ssrc: 2,
        nacks: vec![
            NackPair {
                packet_id: 0,
                lost_packets: 0
            };
            254
        ],
    };
    assert_eq!(too_many.marshal(), Err(RtcpError::ErrTooManyReports));
}

#[test]
fn test_header_roundtrip_and_errors() {
    let h = Header {
        padding: true,
        count: 31,
        packet_type: PacketType::Goodbye,
        length: 0x1234,
    };
    let b = h.marshal().unwrap();
    assert_eq!(b, vec![0xbf, 0xcb, 0x12, 0x34]);
    assert_eq!(Header::unmarshal(&b), Ok(h));
    let bad = Header {
        padding: false,
        count: 32,
        packet_type: PacketType::Goodbye,
        length: 0,
    };
    assert_eq!(bad.marshal(), Err(RtcpError::ErrInvalidHeader));
    assert_eq!(
        Header::unmarshal(&[0x80, 0x01]),
        Err(RtcpError::ErrFailedToFillWholeBuffer)
    );
    assert_eq!(
        Header::unmarshal(&[0x80, 0x63, 0, 0]).unwrap().packet_type,
        PacketType::Unsupported
    );
}

#[test]
fn test_datagram_packets() {
    // A receiver report of two words and a feedback message of three.
    let first = vec![0x80, 0xc9, 0x00, 0x01, 0x90, 0x2f, 0x9e, 0x2e];
    let second = vec![0x81, 0xcd, 0x00, 0x02, 0, 0, 0, 1, 0, 0, 0, 2];
    let mut datagram = first.clone();
    datagram.extend_from_slice(&second);
    assert_eq!(datagram_packets(&datagram), Ok(vec![first.clone(), second]));
    assert_eq!(datagram_packets(&first), Ok(vec![first.clone()]));
}

#[test]
fn test_datagram_packets_errors() {
    assert_eq!(datagram_packets(&[]), Err(RtcpError::ErrInvalidHeader));
    assert_eq!(datagram_packets(&[0x80, 0xc9, 0x00]), Err(RtcpError::ErrPacketTooShort));
    // The length field asks for six words where two are left.
    assert_eq!(
        datagram_packets(&[0x80, 0xc9, 0x00, 0x05, 1, 2, 3, 4]),
        Err(RtcpError::ErrPacketTooShort)
    );
    assert_eq!(datagram_packets(&[0x40, 0xc9, 0x00, 0x00]), Err(RtcpError::ErrBadVersion));
    // A sound first packet followed by a short tail.
    assert_eq!(
        datagram_packets(&[0x80, 0xc9, 0x00, 0x00, 0x80]),
        Err(RtcpError::ErrPacketTooShort)
    );
}

#[test]
fn test_unmarshal_typed_packets() {
    let rr = vec![0x80, 0xc9, 0x00, 0x01, 0x90, 0x2f, 0x9e, 0x2e];
    let tln = vec![0x81, 0xcd, 0x00, 0x03, 0, 0, 0, 1, 0, 0, 0, 2, 0x00, 0x0a, 0x00, 0x05];
    let pli = vec![0x81, 0xce, 0x00, 0x02, 0, 0, 0, 1, 0, 0, 0, 2];
    let app = vec![0x80, 0xcc, 0x00, 0x00];
    let datagram = [rr.clone(), tln, pli.clone(), app.clone()].concat();
    let packets = unmarshal(&datagram).unwrap();
    assert_eq!(packets.len(), 4);
    assert_eq!(packets[0], Packet::Unparsed(PacketKind::ReceiverReport, rr));
    assert_eq!(
        packets[1],
        Packet::TransportLayerNack(TransportLayerNack {
            sender_ssrc: 1,
            media_ssrc: 2,
            nacks: vec![NackPair { packet_id: 10, lost_packets: 5 }],
        })
    );
    assert_eq!(packets[2], Packet::Unparsed(PacketKind::PictureLossIndication, pli));
    assert_eq!(packets[3], Packet::RawPacket(RawPacket(app)));
}

#[test]
fn test_unmarshal_errors() {
    assert_eq!(unmarshal(&[]), Err(RtcpError::ErrInvalidHeader));
    assert_eq!(unmarshal(&[0x80, 0xc9]), Err(RtcpError::ErrPacketTooShort));
    // A NACK too short for its own fields fails before the short tail is seen.
    assert_eq!(
        unmarshal(&[0x81, 0xcd, 0x00, 0x01, 0, 0, 0, 1, 0x80]),
        Err(RtcpError::ErrFailedToFillWholeBuffer)
    );
}

#[test]
fn test_packet_kind() {
    let h = |packet_type, count| Header { padding: false, count, packet_type, length: 0 };
    assert_eq!(packet_kind(&h(PacketType::SenderReport, 0)), PacketKind::SenderReport);
    assert_eq!(packet_kind(&h(PacketType::Goodbye, 1)), PacketKind::Goodbye);
    assert_eq!(packet_kind(&h(PacketType::SourceDescription, 1)), PacketKind::SourceDescription);
    assert_eq!(packet_kind(&h(PacketType::TransportSpecificFeedback, 1)), PacketKind::TransportLayerNack);
    assert_eq!(packet_kind(&h(PacketType::TransportSpecificFeedback, 5)), PacketKind::RapidResynchronizationRequest);
    assert_eq!(packet_kind(&h(PacketType::TransportSpecificFeedback, 3)), PacketKind::Raw);
    assert_eq!(packet_kind(&h(PacketType::PayloadSpecificFeedback, 2)), PacketKind::SliceLossIndication);
    assert_eq!(packet_kind(&h(PacketType::PayloadSpecificFeedback, 15)), PacketKind::ReceiverEstimatedMaximumBitrate);
    assert_eq!(packet_kind(&h(PacketType::PayloadSpecificFeedback, 4)), PacketKind::Raw);
    assert_eq!(packet_kind(&h(PacketType::ApplicationDefined, 0)), PacketKind::Raw);
}
