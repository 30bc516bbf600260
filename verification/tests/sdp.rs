use webrtc::sdp::lexer::{skip_before_type, type_key, TypeKey};
use std::collections::HashMap;
use webrtc::sdp::codec::{
    codecs_match, equivalent_fmtp, lex_le_exec, merge_codecs, parse_fmtp, parse_rtcp_fb,
    parse_rtpmap, sort_texts, Codec,
};
use webrtc::sdp::description::{
    index_of, key_value_build, unmarshal_attribute, unmarshal_bandwidth, unmarshal_connection_information,
    unmarshal_origin, unmarshal_repeat_times, parse_time_units, unmarshal_time_zones, unmarshal_timing,
    unmarshal_protocol_version, unmarshal_media_description, unmarshal_uri, new_session_id,
    session_id_from, read_value, ConnectionRole, Origin, TimeZone, Timing,
};
use webrtc::sdp::lexer::{next_line, state_after, LexState, LineKind};
use webrtc::sdp::text::{split_whitespace, str_chars};
use webrtc::sdp::SdpError;

#[test]
fn test_parse_rtpmap() {
    let c = parse_rtpmap("rtpmap:111 opus/48000/2").unwrap();
    assert_eq!(c.payload_type, 111);
    assert_eq!(c.name, "opus");
    assert_eq!(c.clock_rate, 48000);
    assert_eq!(c.encoding_parameters, "2");
    assert_eq!(c.fmtp, "");
    assert!(c.rtcp_feedback.is_empty());

    let c = parse_rtpmap("rtpmap:96 VP8/90000").unwrap();
    assert_eq!(c.payload_type, 96);
    assert_eq!(c.name, "VP8");
    assert_eq!(c.clock_rate, 90000);
    assert_eq!(c.encoding_parameters, "");

    let c = parse_rtpmap("rtpmap:0 PCMU").unwrap();
    assert_eq!(c.clock_rate, 0);
}

#[test]
fn test_parse_rtpmap_errors() {
    assert_eq!(parse_rtpmap("rtpmap:111").unwrap_err(), SdpError::RtpmapSyntax);
    assert_eq!(parse_rtpmap("rtpmap111 opus/48000").unwrap_err(), SdpError::RtpmapSyntax);
    assert_eq!(parse_rtpmap("rtpmap:256 opus/48000").unwrap_err(), SdpError::ParseInt);
    assert_eq!(parse_rtpmap("rtpmap:1 opus/x").unwrap_err(), SdpError::ParseInt);
}

#[test]
fn test_parse_fmtp() {
    let c = parse_fmtp("fmtp:111 minptime=10;useinbandfec=1").unwrap();
    assert_eq!(c.payload_type, 111);
    assert_eq!(c.fmtp, "minptime=10;useinbandfec=1");
    assert_eq!(c.name, "");
    assert_eq!(parse_fmtp("fmtp:111").unwrap_err(), SdpError::FmtpSyntax);
    assert_eq!(parse_fmtp("fmtp:a x").unwrap_err(), SdpError::ParseInt);
}

#[test]
fn test_parse_rtcp_fb() {
    let c = parse_rtcp_fb("rtcp-fb:96 nack").unwrap();
    assert_eq!(c.payload_type, 96);
    assert_eq!(c.rtcp_feedback, vec!["nack".to_string()]);
    assert_eq!(c.name, "");
    assert_eq!(c.clock_rate, 0);
    assert_eq!(c.fmtp, "");
    let c = parse_rtcp_fb("rtcp-fb:96 nack pli").unwrap();
    assert_eq!(c.payload_type, 96);
    assert_eq!(c.rtcp_feedback, vec!["nack pli".to_string()]);
    assert_eq!(parse_rtcp_fb("rtcp-fb:x nack").unwrap_err(), SdpError::ParseInt);
    assert_eq!(parse_rtcp_fb("rtcp-fb96 7").unwrap_err(), SdpError::RtcpFbSyntax);
    assert_eq!(parse_rtcp_fb("rtcp-fb:96").unwrap_err(), SdpError::RtcpFbSyntax);
    assert_eq!(parse_rtcp_fb("rtcp-fb:96 a b c").unwrap_err(), SdpError::RtcpFbSyntax);
}

#[test]
fn test_merge_codecs() {
    let mut codecs: HashMap<u8, Codec> = HashMap::new();
    merge_codecs(parse_rtpmap("rtpmap:111 opus/48000/2").unwrap(), &mut codecs);
    assert_eq!(codecs.len(), 1);
    merge_codecs(parse_fmtp("fmtp:111 minptime=10").unwrap(), &mut codecs);
    let mut fb = Codec::default();
    fb.payload_type = 111;
    fb.rtcp_feedback = vec!["nack".to_string()];
    merge_codecs(fb, &mut codecs);
    let c = &codecs[&111];
    assert_eq!(c.name, "opus");
    assert_eq!(c.clock_rate, 48000);
    assert_eq!(c.encoding_parameters, "2");
    assert_eq!(c.fmtp, "minptime=10");
    assert_eq!(c.rtcp_feedback, vec!["nack".to_string()]);

    // A set field is not overwritten.
    merge_codecs(parse_rtpmap("rtpmap:111 other/8000").unwrap(), &mut codecs);
    assert_eq!(codecs[&111].name, "opus");
    assert_eq!(codecs[&111].clock_rate, 48000);
    merge_codecs(parse_rtpmap("rtpmap:0 PCMU/8000").unwrap(), &mut codecs);
    assert_eq!(codecs.len(), 2);
}

#[test]
fn test_index_of() {
    assert_eq!(index_of("IP6", &["IP4", "IP6"]), 1);
    assert_eq!(index_of("IP4", &["IP4", "IP6", "IP4"]), 0);
    assert_eq!(index_of("IP5", &["IP4", "IP6"]), -1);
    assert_eq!(index_of("", &[]), -1);
}

#[test]
fn test_read_value() {
    let (v, n) = read_value("  session name \r\n");
    assert_eq!(v, "session name");
    assert_eq!(n, 17);
    let (v, n) = read_value("");
    assert_eq!(v, "");
    assert_eq!(n, 0);
}

#[test]
fn test_key_value_build() {
    let v = "0".to_string();
    assert_eq!(key_value_build("v=", Some(&v)), "v=0\r\n");
    assert_eq!(key_value_build("v=", None), "");
}

#[test]
fn test_connection_role_string() {
    assert_eq!(ConnectionRole::ConnectionRoleActive.to_string(), "active");
    assert_eq!(ConnectionRole::ConnectionRolePassive.to_string(), "passive");
    assert_eq!(ConnectionRole::ConnectionRoleActpass.to_string(), "actpass");
    assert_eq!(ConnectionRole::ConnectionRoleHoldconn.to_string(), "holdconn");
}

#[test]
fn test_origin() {
    let o = Origin::new();
    assert_eq!(o.username, "");
    assert_eq!(o.session_id, 0);
    let o = unmarshal_origin("jdoe 2890844526 2890842807 IN IP4 10.47.16.5").unwrap();
    assert_eq!(o.username, "jdoe");
    assert_eq!(o.session_id, 2890844526);
    assert_eq!(o.session_version, 2890842807);
    assert_eq!(o.network_type, "IN");
    assert_eq!(o.address_type, "IP4");
    assert_eq!(o.unicast_address, "10.47.16.5");
    assert_eq!(unmarshal_origin("jdoe 1 2 IN IP4").unwrap_err(), SdpError::InvalidSyntax);
    assert_eq!(unmarshal_origin("jdoe x 2 IN IP4 a").unwrap_err(), SdpError::ParseInt);
    assert_eq!(unmarshal_origin("jdoe 1 2 ON IP4 a").unwrap_err(), SdpError::InvalidValue);
    assert_eq!(unmarshal_origin("jdoe 1 2 IN IP5 a").unwrap_err(), SdpError::InvalidValue);
}

#[test]
fn test_timing_and_version() {
    assert_eq!(
        unmarshal_timing("2873397496 2873404696").unwrap(),
        Timing { start_time: 2873397496, stop_time: 2873404696 }
    );
    assert_eq!(unmarshal_timing("0").unwrap_err(), SdpError::InvalidSyntax);
    assert_eq!(unmarshal_timing("0 -1").unwrap_err(), SdpError::ParseInt);
    assert_eq!(unmarshal_protocol_version("0"), Ok(()));
    assert_eq!(unmarshal_protocol_version("1"), Err(SdpError::InvalidValue));
    assert_eq!(unmarshal_protocol_version("v"), Err(SdpError::ParseInt));
}

#[test]
fn test_parse_time_units() {
    assert_eq!(parse_time_units("7d"), Ok(604800));
    assert_eq!(parse_time_units("1h"), Ok(3600));
    assert_eq!(parse_time_units("25m"), Ok(1500));
    assert_eq!(parse_time_units("-2h"), Ok(-7200));
    assert_eq!(parse_time_units("90"), Ok(90));
    assert_eq!(parse_time_units("10s"), Ok(10));
    assert_eq!(parse_time_units("2dd"), Ok(172800));
    assert_eq!(parse_time_units("x"), Err(SdpError::ParseInt));
    assert_eq!(parse_time_units("d"), Err(SdpError::ParseInt));
}

#[test]
fn test_parse_repeat_time() {
    let r = unmarshal_repeat_times("604800 3600 0 90000").unwrap();
    assert_eq!(r.interval, 604800);
    assert_eq!(r.duration, 3600);
    assert_eq!(r.offsets, vec![0, 90000]);
    let r = unmarshal_repeat_times("7d 1h 0 25h").unwrap();
    assert_eq!(r.interval, 604800);
    assert_eq!(r.duration, 3600);
    assert_eq!(r.offsets, vec![0, 90000]);
    assert_eq!(unmarshal_repeat_times("7d 1h").unwrap_err(), SdpError::InvalidSyntax);
    assert_eq!(unmarshal_repeat_times("7d x 0").unwrap_err(), SdpError::ParseInt);
}

#[test]
fn test_parse_time_zones() {
    let z = unmarshal_time_zones("2882844526 -1h 2898848070 0").unwrap();
    assert_eq!(
        z,
        vec![
            TimeZone { adjustment_time: 2882844526, offset: -3600 },
            TimeZone { adjustment_time: 2898848070, offset: 0 },
        ]
    );
    assert_eq!(unmarshal_time_zones("2882844526").unwrap_err(), SdpError::InvalidSyntax);
    assert_eq!(unmarshal_time_zones("-1 0").unwrap_err(), SdpError::ParseInt);
    assert!(unmarshal_time_zones("").unwrap().is_empty());
}

#[test]
fn test_parse_bandwidth() {
    let b = unmarshal_bandwidth("AS:128").unwrap();
    assert!(!b.experimental);
    assert_eq!(b.bandwidth_type, "AS");
    assert_eq!(b.bandwidth, 128);
    let b = unmarshal_bandwidth("X-YZ:256").unwrap();
    assert!(b.experimental);
    assert_eq!(b.bandwidth_type, "YZ");
    assert_eq!(b.bandwidth, 256);
    let b = unmarshal_bandwidth("X-X-Q:1").unwrap();
    assert_eq!(b.bandwidth_type, "Q");
    assert_eq!(unmarshal_bandwidth("AS128").unwrap_err(), SdpError::InvalidSyntax);
    assert_eq!(unmarshal_bandwidth("TIAS:1").unwrap_err(), SdpError::InvalidValue);
    assert_eq!(unmarshal_bandwidth("CT:x").unwrap_err(), SdpError::ParseInt);
}

#[test]
fn test_parse_connection_information() {
    let c = unmarshal_connection_information("IN IP4 224.2.36.42/127").unwrap();
    assert_eq!(c.network_type, "IN");
    assert_eq!(c.address_type, "IP4");
    let a = c.address.unwrap();
    assert_eq!(a.address, "224.2.36.42/127");
    assert!(a.ttl.is_none() && a.range.is_none());
    let c = unmarshal_connection_information("IN IP6").unwrap();
    assert!(c.address.is_none());
    assert_eq!(unmarshal_connection_information("IN").unwrap_err(), SdpError::InvalidSyntax);
    assert_eq!(unmarshal_connection_information("ON IP4 a").unwrap_err(), SdpError::InvalidValue);
    assert_eq!(unmarshal_connection_information("IN IPX a").unwrap_err(), SdpError::InvalidValue);
}

#[test]
fn test_parse_attribute() {
    let a = unmarshal_attribute("rtpmap:96 VP8/90000");
    assert_eq!(a.key, "rtpmap");
    assert_eq!(a.value.as_deref(), Some("96 VP8/90000"));
    let a = unmarshal_attribute("a:b:c");
    assert_eq!(a.key, "a");
    assert_eq!(a.value.as_deref(), Some("b:c"));
    let a = unmarshal_attribute("recvonly");
    assert_eq!(a.key, "recvonly");
    assert!(a.value.is_none());
}

#[test]
fn test_split_whitespace_text() {
    let c = str_chars(" a \u{3000}bc\t d ");
    let parts: Vec<String> = split_whitespace(&c).iter().map(|p| p.iter().collect()).collect();
    assert_eq!(parts, vec!["a", "bc", "d"]);
}

#[test]
fn test_lexer_order() {
    let lines = ['v', 'o', 's', 'i', 'c', 't', 'r', 'a', 'm', 'c', 'a', 'a'];
    let mut state = LexState::S1;
    let mut kinds = vec![];
    for t in lines {
        let k = next_line(state, Some(t)).unwrap().unwrap();
        kinds.push(k);
        state = state_after(k);
    }
    assert_eq!(next_line(state, None), Ok(None));
    assert_eq!(kinds[0], LineKind::ProtocolVersion);
    assert_eq!(kinds[4], LineKind::SessionConnectionInformation);
    assert_eq!(kinds[5], LineKind::Timing);
    assert_eq!(kinds[6], LineKind::RepeatTimes);
    assert_eq!(kinds[8], LineKind::MediaDescription);
    assert_eq!(kinds[9], LineKind::MediaConnectionInformation);
    assert_eq!(kinds[11], LineKind::MediaAttribute);
}

#[test]
fn test_lexer_refusals() {
    assert_eq!(next_line(LexState::S1, Some('o')), Err(SdpError::InvalidSyntax));
    assert_eq!(next_line(LexState::S4, None), Err(SdpError::InvalidSyntax));
    assert_eq!(next_line(LexState::S11, Some('t')), Err(SdpError::InvalidSyntax));
    assert_eq!(next_line(LexState::S9, Some('z')), Ok(Some(LineKind::TimeZones)));
}

#[test]
fn test_equivalent_fmtp() {
    assert!(equivalent_fmtp("a=1;b=2", "b=2; a=1"));
    assert!(equivalent_fmtp(" x ", "x"));
    assert!(!equivalent_fmtp("a=1;b=2", "a=1"));
    assert!(!equivalent_fmtp("a=1;b=2", "a=1;b=3"));
    assert!(equivalent_fmtp("", ""));
}

#[test]
fn test_sort_texts() {
    let v: Vec<Vec<char>> = vec!["b", "a", "ab", "", "a"].iter().map(|s| s.chars().collect()).collect();
    let s: Vec<String> = sort_texts(v).iter().map(|p| p.iter().collect()).collect();
    assert_eq!(s, vec!["", "a", "a", "ab", "b"]);
    assert!(lex_le_exec(&['a'], &['a', 'b']));
    assert!(!lex_le_exec(&['b'], &['a', 'b']));
}

#[test]
fn test_codecs_match() {
    let got = {
        let mut c = parse_rtpmap("rtpmap:111 OPUS/48000/2").unwrap();
        c.fmtp = "useinbandfec=1;minptime=10".to_string();
        c
    };
    let mut wanted = Codec::default();
    assert!(codecs_match(&wanted, &got));
    wanted.name = "opus".to_string();
    assert!(codecs_match(&wanted, &got));
    wanted.clock_rate = 48000;
    wanted.fmtp = "minptime=10;useinbandfec=1".to_string();
    assert!(codecs_match(&wanted, &got));
    wanted.encoding_parameters = "1".to_string();
    assert!(!codecs_match(&wanted, &got));
    wanted.encoding_parameters = "".to_string();
    wanted.clock_rate = 8000;
    assert!(!codecs_match(&wanted, &got));
    wanted.clock_rate = 0;
    wanted.name = "vp8".to_string();
    assert!(!codecs_match(&wanted, &got));
    wanted.name = "".to_string();
    wanted.fmtp = "minptime=20".to_string();
    assert!(!codecs_match(&wanted, &got));
}

#[test]
fn test_to_string() {
    let t = Timing { start_time: 2873397496, stop_time: 0 };
    assert_eq!(t.to_string(), "2873397496 0");
    assert_eq!(unmarshal_timing(&t.to_string()).unwrap(), t);
    assert_eq!(TimeZone { adjustment_time: 5, offset: -3600 }.to_string(), "5 -3600");
    assert_eq!(
        TimeZone { adjustment_time: 0, offset: i64::MIN }.to_string(),
        "0 -9223372036854775808"
    );
    let r = unmarshal_repeat_times("7d 1h 0 25h").unwrap();
    assert_eq!(r.to_string(), "604800 3600 0 90000");
    let o = unmarshal_origin("jdoe 2890844526 2890842807 IN IP4 10.47.16.5").unwrap();
    assert_eq!(o.to_string(), "jdoe 2890844526 2890842807 IN IP4 10.47.16.5");
    let mut c = parse_rtpmap("rtpmap:111 opus/48000/2").unwrap();
    c.fmtp = "minptime=10".to_string();
    c.rtcp_feedback = vec!["nack".to_string(), "transport-cc".to_string()];
    assert_eq!(c.to_string(), "111 opus/48000/2 (minptime=10) [nack, transport-cc]");
    assert_eq!(Codec::default().to_string(), "0 /0/ () []");
}

#[test]
fn test_unmarshal_media_description() {
    let m = unmarshal_media_description("audio 9 UDP/TLS/RTP/SAVPF 111 103").unwrap();
    assert_eq!(m.media, "audio");
    assert_eq!(m.port.value, 9);
    assert_eq!(m.port.range, None);
    assert_eq!(m.protos, vec!["UDP", "TLS", "RTP", "SAVPF"]);
    assert_eq!(m.formats, vec!["111", "103"]);
    let m = unmarshal_media_description("video 49170/2 RTP/AVP 31").unwrap();
    assert_eq!(m.port.value, 49170);
    assert_eq!(m.port.range, Some(2));
    assert_eq!(unmarshal_media_description("audio 9 RTP").unwrap_err(), SdpError::InvalidSyntax);
    assert_eq!(unmarshal_media_description("voice 9 RTP/AVP 0").unwrap_err(), SdpError::InvalidValue);
    assert_eq!(unmarshal_media_description("audio 70000 RTP/AVP 0").unwrap_err(), SdpError::ParseInt);
    assert_eq!(unmarshal_media_description("audio 9/x RTP/AVP 0").unwrap_err(), SdpError::ParseInt);
    assert_eq!(unmarshal_media_description("audio 9 RTP/XYZ 0").unwrap_err(), SdpError::InvalidValue);
}

#[test]
fn test_uri_and_session_id() {
    assert_eq!(
        unmarshal_uri("http://www.example.com/seminars/sdp.pdf").unwrap(),
        "http://www.example.com/seminars/sdp.pdf"
    );
    assert_eq!(unmarshal_uri("HTTP://Example.COM").unwrap(), "http://example.com/");
    assert_eq!(unmarshal_uri("not a url"), Err(SdpError::InvalidUri));
    assert_eq!(session_id_from(u64::MAX), (1u64 << 63) - 1);
    assert_eq!(session_id_from(5), 5);
    assert!(new_session_id() < (1u64 << 63));
}

#[test]
fn test_type_key() {
    assert_eq!(type_key(b""), TypeKey::End);
    assert_eq!(type_key(b"v="), TypeKey::Key);
    assert_eq!(type_key(b"ab"), TypeKey::Key);
    assert_eq!(type_key(&[0xc3, 0xa9]), TypeKey::Key);
    assert_eq!(type_key(b"vv="), TypeKey::Invalid);
    assert_eq!(type_key(&[0xff, b'=']), TypeKey::Invalid);
    assert!(skip_before_type(b'\r'));
    assert!(skip_before_type(b'\n'));
    assert!(!skip_before_type(b'v'));
}
