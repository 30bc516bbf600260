use webrtc::mdns::{Builder, Header, MdnsError};
use webrtc::stun::{AttrType, Message, StunError, UnknownAttributes, ATTR_UNKNOWN_ATTRIBUTES};

fn header() -> Header {
    Header {
        id: 0x1234,
        response: true,
        op_code: 0,
        authoritative: true,
        truncated: false,
        recursion_desired: false,
        recursion_available: false,
        rcode: 0,
    }
}

#[test]
fn test_header_pack() {
    assert_eq!(header().pack(), (0x1234, 0x8400));
    let h = Header {
        id: 1,
        response: false,
        op_code: 2,
        authoritative: false,
        truncated: true,
        recursion_desired: true,
        recursion_available: true,
        rcode: 3,
    };
    assert_eq!(h.pack(), (1, (2 << 11) | 0x200 | 0x100 | 0x80 | 3));
}

#[test]
fn test_builder_sections() {
    let mut b = Builder::new(&header());
    assert_eq!(b.add_question(&[1, 2]), Err(MdnsError::ErrNotStarted));
    assert_eq!(b.start_answers(), Ok(()));
    assert_eq!(b.start_questions(), Err(MdnsError::ErrSectionDone));
    assert_eq!(b.add_question(&[1, 2]), Err(MdnsError::ErrSectionDone));
    let mut e = Builder::empty();
    assert_eq!(e.start_questions(), Err(MdnsError::ErrNotStarted));
    assert_eq!(e.finish(), Err(MdnsError::ErrNotStarted));
}

#[test]
fn test_builder_message() {
    let mut b = Builder::new(&header());
    assert!(!b.compression_enabled());
    b.enable_compression();
    assert!(b.compression_enabled());
    b.start_questions().unwrap();
    b.add_question(&[0xAA, 0xBB]).unwrap();
    b.start_answers().unwrap();
    b.add_resource(&[0xCC], &[1, 2, 3]).unwrap();
    b.start_additionals().unwrap();
    b.add_resource(&[0xDD], &[]).unwrap();
    let msg = b.finish().unwrap();
    assert_eq!(
        msg,
        vec![
            0x12, 0x34, 0x84, 0x00, 0, 1, 0, 1, 0, 0, 0, 1, 0xAA, 0xBB, 0xCC, 0, 3, 1, 2, 3, 0xDD,
            0, 0,
        ]
    );
    assert_eq!(b.finish(), Err(MdnsError::ErrEmptyBuilderMsg));
    assert_eq!(b.add_resource(&[], &[]), Err(MdnsError::ErrSectionDone));
}

#[test]
fn test_builder_header_only() {
    let mut b = Builder::new(&header());
    let msg = b.finish().unwrap();
    assert_eq!(msg, vec![0x12, 0x34, 0x84, 0x00, 0, 0, 0, 0, 0, 0, 0, 0]);
}

#[test]
fn test_builder_resource_before_answers() {
    let mut b = Builder::new(&header());
    b.start_questions().unwrap();
    assert_eq!(b.add_resource(&[1], &[2]), Err(MdnsError::ErrNotStarted));
}

#[test]
fn test_unknown_attributes_roundtrip() {
    let mut m = Message::new();
    let a = UnknownAttributes(vec![AttrType(0x0001), AttrType(0x8022), AttrType(0xFFFF)]);
    a.add_to(&mut m).unwrap();
    assert_eq!(m.attributes.len(), 1);
    assert_eq!(m.attributes[0].typ, AttrType(ATTR_UNKNOWN_ATTRIBUTES));
    assert_eq!(m.attributes[0].value, vec![0x00, 0x01, 0x80, 0x22, 0xFF, 0xFF]);
    let mut b = UnknownAttributes(vec![AttrType(7)]);
    b.get_from(&m).unwrap();
    assert_eq!(b.0, a.0);
}

#[test]
fn test_unknown_attributes_errors() {
    let mut m = Message::new();
    let mut b = UnknownAttributes(vec![AttrType(7)]);
    assert_eq!(b.get_from(&m), Err(StunError::ErrAttributeNotFound));
    m.add(AttrType(ATTR_UNKNOWN_ATTRIBUTES), &[1, 2, 3]);
    assert_eq!(b.get_from(&m), Err(StunError::ErrBadUnknownAttrsSize));
    assert_eq!(b.0, vec![AttrType(7)]);
    let mut m = Message::new();
    m.add(AttrType(ATTR_UNKNOWN_ATTRIBUTES), &[]);
    b.get_from(&m).unwrap();
    assert!(b.0.is_empty());
    assert_eq!(m.get(AttrType(1)), Err(StunError::ErrAttributeNotFound));
}
