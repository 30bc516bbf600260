use webrtc::sctp::{get_padding_size, Packet, RawChunk, SctpError};

#[test]
fn test_packet_unmarshal() {
    let result = Packet::unmarshal(&[]);
    assert!(result.is_err(), "Unmarshal should fail when a packet is too small to be SCTP");

    let header_only: [u8; 12] = [0x13, 0x88, 0x13, 0x88, 0x00, 0x00, 0x00, 0x00, 0x06, 0xa9, 0x00, 0xe1];
    let pkt = Packet::unmarshal(&header_only).unwrap();
    assert_eq!(
        pkt.source_port, 5000,
        "Unmarshal passed for SCTP packet, but got incorrect source port exp: {} act: {}",
        5000, pkt.source_port
    );
    assert_eq!(
        pkt.destination_port, 5000,
        "Unmarshal passed for SCTP packet, but got incorrect destination port exp: {} act: {}",
        5000, pkt.destination_port
    );
    assert_eq!(
        pkt.verification_tag, 0,
        "Unmarshal passed for SCTP packet, but got incorrect verification tag exp: {} act: {}",
        0, pkt.verification_tag
    );

    let raw_chunk: [u8; 100] = [
        0x13, 0x88, 0x13, 0x88, 0x00, 0x00, 0x00, 0x00, 0x81, 0x46, 0x9d, 0xfc, 0x01, 0x00, 0x00,
        0x56, 0x55, 0xb9, 0x64, 0xa5, 0x00, 0x02, 0x00, 0x00, 0x04, 0x00, 0x08, 0x00, 0xe8, 0x6d,
        0x10, 0x30, 0xc0, 0x00, 0x00, 0x04, 0x80, 0x08, 0x00, 0x09, 0xc0, 0x0f, 0xc1, 0x80, 0x82,
        0x00, 0x00, 0x00, 0x80, 0x02, 0x00, 0x24, 0x9f, 0xeb, 0xbb, 0x5c, 0x50, 0xc9, 0xbf, 0x75,
        0x9c, 0xb1, 0x2c, 0x57, 0x4f, 0xa4, 0x5a, 0x51, 0xba, 0x60, 0x17, 0x78, 0x27, 0x94, 0x5c,
        0x31, 0xe6, 0x5d, 0x5b, 0x09, 0x47, 0xe2, 0x22, 0x06, 0x80, 0x04, 0x00, 0x06, 0x00, 0x01,
        0x00, 0x00, 0x80, 0x03, 0x00, 0x06, 0x80, 0xc1, 0x00, 0x00,
    ];

    let pkt = Packet::unmarshal(&raw_chunk).unwrap();
    assert_eq!(pkt.chunks.len(), 1);
    assert_eq!(pkt.chunks[0].typ, 1);
    assert_eq!(pkt.chunks[0].value.len(), 82);
}

#[test]
fn test_packet_marshal() {
    let header_only: [u8; 12] = [0x13, 0x88, 0x13, 0x88, 0x00, 0x00, 0x00, 0x00, 0x06, 0xa9, 0x00, 0xe1];
    let pkt = Packet::unmarshal(&header_only).unwrap();
    let header_only_marshaled = pkt.marshal();
    assert_eq!(
        header_only.to_vec(),
        header_only_marshaled,
        "Unmarshal/Marshaled header only packet did not match \nheaderOnly: {:?} \nheader_only_marshaled {:?}",
        header_only,
        header_only_marshaled
    );
}

#[test]
fn test_packet_roundtrip_and_errors() {
    let pkt = Packet {
        source_port: 1,
        destination_port: 2,
        verification_tag: 0xdeadbeef,
        chunks: vec![
            RawChunk { typ: 0, flags: 3, value: vec![1, 2, 3, 4, 5] },
            RawChunk { typ: 11, flags: 0, value: vec![] },
        ],
    };
    let raw = pkt.marshal();
    assert_eq!(raw.len(), 12 + 12 + 4);
    assert_eq!(&raw[12..16], &[0, 3, 0, 9]);
    assert_eq!(&raw[21..24], &[0, 0, 0]);
    assert_eq!(Packet::unmarshal(&raw).unwrap(), pkt);

    let mut bad = raw.clone();
    bad[8] ^= 1;
    assert_eq!(Packet::unmarshal(&bad), Err(SctpError::ErrChecksumMismatch));
    let mut unknown = raw.clone();
    unknown[12] = 5;
    assert_eq!(Packet::unmarshal(&unknown), Err(SctpError::ErrUnmarshalUnknownChunkType));
    assert_eq!(Packet::unmarshal(&raw[..14]), Err(SctpError::ErrParseSctpChunkNotEnoughData));
    let mut short_len = raw.clone();
    short_len[15] = 2;
    assert_eq!(Packet::unmarshal(&short_len), Err(SctpError::ErrChunkHeaderInvalidLength));
    let mut long_len = raw.clone();
    long_len[15] = 200;
    assert_eq!(Packet::unmarshal(&long_len), Err(SctpError::ErrChunkHeaderNotEnoughSpace));
    let mut pad = raw[..24].to_vec();
    pad[23] = 1;
    assert_eq!(Packet::unmarshal(&pad), Err(SctpError::ErrChunkHeaderPaddingNonZero));
    assert_eq!(get_padding_size(5), 3);
    assert_eq!(get_padding_size(8), 0);
}

/// The CRC32c written out bit by bit, as the library's contract states it.
fn crc32c_bitwise(data: &[u8]) -> u32 {
    let mut c: u32 = 0xFFFF_FFFF;
    for &b in data {
        c ^= b as u32;
        for _ in 0..8 {
            c = if c & 1 == 1 { (c >> 1) ^ 0x82F6_3B78 } else { c >> 1 };
        }
    }
    c ^ 0xFFFF_FFFF
}

#[test]
fn test_packet_checksum_is_crc32c() {
    assert_eq!(crc32c_bitwise(b"123456789"), 0xe306_9283);
    let pkt = Packet {
        source_port: 5000,
        destination_port: 5001,
        verification_tag: 0x0102_0304,
        chunks: vec![RawChunk { typ: 0, flags: 3, value: vec![1, 2, 3, 4, 5] }],
    };
    let raw = pkt.marshal();
    let mut zeroed = raw.clone();
    zeroed[8..12].copy_from_slice(&[0, 0, 0, 0]);
    let sum = u32::from_le_bytes([raw[8], raw[9], raw[10], raw[11]]);
    assert_eq!(sum, crc32c_bitwise(&zeroed));
}
