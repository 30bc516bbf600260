use webrtc::sdp::codec::Codec;
use webrtc::sdp::description::{
    Address, Attribute, Bandwidth, ConnectionInformation, MediaName, RangedPort,
};
use webrtc::sdp::lexer::LineKind;
use webrtc::sdp::session::{MediaDescription, SessionDescription};
use webrtc::sdp::SdpError;

const CANONICAL: &str = "v=0\r\n\
o=jdoe 2890844526 2890842807 IN IP4 10.47.16.5\r\n\
s=SDP Seminar\r\n\
i=A Seminar on the session description protocol\r\n\
u=http://www.example.com/seminars/sdp.pdf\r\n\
e=j.doe@example.com (Jane Doe)\r\n\
p=+1 617 555-6011\r\n\
c=IN IP4 224.2.17.12/127\r\n\
b=X-YZ:128\r\n\
b=AS:12345\r\n\
t=2873397496 2873404696\r\n\
t=3034423619 3042462419\r\n\
r=604800 3600 0 90000\r\n\
z=2882844526 -3600 2898848070 0\r\n\
k=prompt\r\n\
a=candidate:0 1 UDP 2113667327 203.0.113.1 54400 typ host\r\n\
a=recvonly\r\n\
m=audio 49170 RTP/AVP 0\r\n\
i=Vivamus a posuere nisl\r\n\
c=IN IP4 203.0.113.1\r\n\
b=X-YZ:128\r\n\
k=prompt\r\n\
a=sendrecv\r\n\
m=video 51372 RTP/AVP 99\r\n\
a=rtpmap:99 h263-1998/90000\r\n";

const WITH_CODECS: &str = "v=0\r\n\
o=- 1 2 IN IP4 0.0.0.0\r\n\
s=-\r\n\
t=0 0\r\n\
m=audio 9 UDP/TLS/RTP/SAVPF 111 0\r\n\
a=rtpmap:111 opus/48000/2\r\n\
a=fmtp:111 minptime=10;useinbandfec=1\r\n\
a=rtpmap:0 PCMU/8000\r\n";

fn codec(name: &str, clock_rate: u32, encoding_parameters: &str, fmtp: &str) -> Codec {
    Codec {
        payload_type: 0,
        name: name.to_string(),
        clock_rate,
        encoding_parameters: encoding_parameters.to_string(),
        fmtp: fmtp.to_string(),
        rtcp_feedback: vec![],
    }
}

#[test]
fn test_jsep_description_text() {
    let d = SessionDescription::new_jsep(false, 123, 456);
    assert_eq!(d.marshal(), "v=0\r\no=- 123 456 IN IP4 0.0.0.0\r\ns=-\r\nt=0 0\r\n");
    let d = SessionDescription::new_jsep(true, 1, 2);
    assert_eq!(d.marshal(), "v=0\r\no=- 1 2 IN IP4 0.0.0.0\r\ns=-\r\nt=0 0\r\na=identity\r\n");
}

#[test]
fn test_new_description() {
    let d = SessionDescription::new(true);
    assert_eq!(d.version, 0);
    assert_eq!(d.origin.username, "-");
    assert!(d.origin.session_id < (1u64 << 63));
    assert!(d.origin.session_version < 1_000_000_000);
    assert_eq!(d.session_name, "-");
    assert_eq!(d.time_descriptions.len(), 1);
    assert_eq!(d.attributes.len(), 1);
    assert_eq!(d.attributes[0].key, "identity");
    assert!(d.attributes[0].value.is_none());
    let d = SessionDescription::new(false);
    assert!(d.attributes.is_empty());
}

#[test]
fn test_builders() {
    let d = SessionDescription::new_jsep(false, 1, 1)
        .with_property_attribute("ice-lite".to_string())
        .with_value_attribute("group".to_string(), "BUNDLE 0".to_string())
        .with_fingerprint("sha-256".to_string(), "AB:CD".to_string());
    let media = MediaDescription {
        media_name: MediaName {
            media: "audio".to_string(),
            port: RangedPort { value: 9, range: None },
            protos: vec!["UDP".to_string(), "TLS".to_string(), "RTP".to_string(), "SAVPF".to_string()],
            formats: vec!["111".to_string()],
        },
        media_title: None,
        connection_information: Some(ConnectionInformation {
            network_type: "IN".to_string(),
            address_type: "IP4".to_string(),
            address: Some(Address { address: "0.0.0.0".to_string(), ttl: Some(16), range: None }),
        }),
        bandwidth: vec![Bandwidth { experimental: false, bandwidth_type: "AS".to_string(), bandwidth: 64 }],
        encryption_key: None,
        attributes: vec![Attribute::new("rtpmap".to_string(), Some("111 opus/48000/2".to_string()))],
    };
    let d = d.with_media(media);
    assert_eq!(
        d.marshal(),
        "v=0\r\no=- 1 1 IN IP4 0.0.0.0\r\ns=-\r\nt=0 0\r\n\
a=ice-lite\r\na=group:BUNDLE 0\r\na=fingerprint:sha-256 AB:CD\r\n\
m=audio 9 UDP/TLS/RTP/SAVPF 111\r\nc=IN IP4 0.0.0.0/16\r\nb=AS:64\r\n\
a=rtpmap:111 opus/48000/2\r\n"
    );
}

#[test]
fn test_value_texts() {
    assert_eq!(Attribute::new("a".to_string(), None).to_string(), "a");
    assert_eq!(Attribute::new("a".to_string(), Some("b:c".to_string())).to_string(), "a:b:c");
    let a = Address { address: "224.2.1.1".to_string(), ttl: Some(127), range: Some(3) };
    assert_eq!(a.to_string(), "224.2.1.1/127/3");
    let b = Bandwidth { experimental: true, bandwidth_type: "YZ".to_string(), bandwidth: 7 };
    assert_eq!(b.to_string(), "X-YZ:7");
    assert_eq!(RangedPort { value: 49170, range: Some(2) }.to_string(), "49170/2");
    let c = ConnectionInformation {
        network_type: "IN".to_string(),
        address_type: "IP6".to_string(),
        address: None,
    };
    assert_eq!(c.to_string(), "IN IP6");
}

#[test]
fn test_unmarshal_canonical() {
    let d = SessionDescription::unmarshal(CANONICAL).unwrap();
    assert_eq!(d.origin.username, "jdoe");
    assert_eq!(d.origin.session_id, 2890844526);
    assert_eq!(d.session_name, "SDP Seminar");
    assert_eq!(d.uri.as_deref(), Some("http://www.example.com/seminars/sdp.pdf"));
    assert_eq!(d.phone_number.as_deref(), Some("+1 617 555-6011"));
    assert_eq!(d.bandwidth.len(), 2);
    assert!(d.bandwidth[0].experimental);
    assert_eq!(d.bandwidth[0].bandwidth_type, "YZ");
    assert_eq!(d.time_descriptions.len(), 2);
    assert_eq!(d.time_descriptions[1].repeat_times.len(), 1);
    assert_eq!(d.time_descriptions[1].repeat_times[0].offsets, vec![0, 90000]);
    assert_eq!(d.time_zones.len(), 2);
    assert_eq!(d.time_zones[0].offset, -3600);
    assert_eq!(d.attributes.len(), 2);
    assert_eq!(d.attributes[0].key, "candidate");
    assert_eq!(d.media_descriptions.len(), 2);
    assert_eq!(d.media_descriptions[0].media_title.as_deref(), Some("Vivamus a posuere nisl"));
    assert_eq!(d.media_descriptions[1].attributes[0].value.as_deref(), Some("99 h263-1998/90000"));
    assert_eq!(d.marshal(), CANONICAL);
}

#[test]
fn test_unmarshal_units_and_breaks() {
    let text = "\r\n\nv=0\no=- 1 2 IN IP6 ::1\ns= x \nt=0 0\nr=7d 1h 0 25m\nz=10 -1h\n";
    let d = SessionDescription::unmarshal(text).unwrap();
    assert_eq!(d.session_name, "x");
    let r = &d.time_descriptions[0].repeat_times[0];
    assert_eq!((r.interval, r.duration), (604800, 3600));
    assert_eq!(r.offsets, vec![0, 1500]);
    assert_eq!(d.time_zones[0].adjustment_time, 10);
    assert_eq!(d.time_zones[0].offset, -3600);
}

#[test]
fn test_unmarshal_refusals() {
    assert_eq!(SessionDescription::unmarshal("o=- 1 2 IN IP4 a\r\n").unwrap_err(), SdpError::InvalidSyntax);
    assert_eq!(SessionDescription::unmarshal("v=1\r\n").unwrap_err(), SdpError::InvalidValue);
    assert_eq!(SessionDescription::unmarshal("").unwrap_err(), SdpError::InvalidSyntax);
    assert_eq!(
        SessionDescription::unmarshal("v=0\r\no=- 1 2 IN IP4 a\r\ns=-\r\n").unwrap_err(),
        SdpError::InvalidSyntax
    );
    assert_eq!(
        SessionDescription::unmarshal("v=0\r\no=- 1 2 IN IP4 a\r\ns=-\r\nu=not a url\r\n").unwrap_err(),
        SdpError::InvalidUri
    );
    assert_eq!(
        SessionDescription::unmarshal("vv=0\r\n").unwrap_err(),
        SdpError::InvalidSyntax
    );
    assert_eq!(
        SessionDescription::unmarshal("v=0\r\no=- 1 2 IN IP4 a\r\ns=-\r\nt=0 0\r\nm=audio 9 RTP/XYZ 0\r\n")
            .unwrap_err(),
        SdpError::InvalidValue
    );
    let minimal = "v=0\r\no=- 1 2 IN IP4 a\r\ns=-\r\nt=0 0\r\n";
    assert!(SessionDescription::unmarshal(minimal).is_ok());
    assert!(SessionDescription::unmarshal_checked(minimal).unwrap().is_ok());
    let overflow = "v=0\r\no=- 1 2 IN IP4 a\r\ns=-\r\nt=0 0\r\nz=1 999999999999999999d\r\n";
    assert!(SessionDescription::unmarshal_checked(overflow).is_none());
}

#[test]
fn test_apply_line_without_owner() {
    let mut d = SessionDescription::default();
    assert_eq!(d.apply_line(LineKind::MediaTitle, "x"), Err(SdpError::EmptyMediaDescriptions));
    assert_eq!(d.apply_line(LineKind::RepeatTimes, "1 2 3"), Err(SdpError::EmptyTimeDescriptions));
    assert_eq!(d.apply_line(LineKind::RepeatTimes, "1 2"), Err(SdpError::InvalidSyntax));
    assert_eq!(d.apply_line(LineKind::SessionName, "n"), Ok(()));
    assert_eq!(d.session_name, "n");
}

#[test]
fn test_codecs_of_description() {
    let d = SessionDescription::unmarshal(WITH_CODECS).unwrap();
    let opus = d.get_codec_for_payload_type(111).unwrap();
    assert_eq!(opus.payload_type, 111);
    assert_eq!(opus.name, "opus");
    assert_eq!(opus.clock_rate, 48000);
    assert_eq!(opus.encoding_parameters, "2");
    assert_eq!(opus.fmtp, "minptime=10;useinbandfec=1");
    let pcmu = d.get_codec_for_payload_type(0).unwrap();
    assert_eq!(pcmu.name, "PCMU");
    assert_eq!(d.get_codec_for_payload_type(8).unwrap_err(), SdpError::PayloadTypeNotFound);

    assert_eq!(d.get_payload_type_for_codec(&codec("OPUS", 48000, "", "")), Ok(111));
    assert_eq!(
        d.get_payload_type_for_codec(&codec("opus", 0, "", "useinbandfec=1; minptime=10")),
        Ok(111)
    );
    assert_eq!(d.get_payload_type_for_codec(&codec("pcmu", 8000, "", "")), Ok(0));
    assert_eq!(
        d.get_payload_type_for_codec(&codec("opus", 8000, "", "")),
        Err(SdpError::CodecNotFound)
    );
}

#[test]
fn test_marshal_unmarshal_roundtrip() {
    let d = SessionDescription::new_jsep(true, 42, 7)
        .with_value_attribute("group".to_string(), "BUNDLE 0".to_string())
        .with_fingerprint("sha-256".to_string(), "AB:CD".to_string());
    let text = d.marshal();
    let back = SessionDescription::unmarshal(&text).unwrap();
    assert_eq!(back.origin.session_id, 42);
    assert_eq!(back.origin.session_version, 7);
    assert_eq!(back.attributes.len(), 3);
    assert_eq!(back.attributes[2].value.as_deref(), Some("sha-256 AB:CD"));
    assert_eq!(back.marshal(), text);
    let c = SessionDescription::unmarshal(WITH_CODECS).unwrap();
    assert_eq!(c.marshal(), WITH_CODECS);
}
