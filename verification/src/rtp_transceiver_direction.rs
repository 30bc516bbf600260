//! The direction of an RTP transceiver.
use vstd::prelude::*;
use crate::bytes::bytes_equal;
use vstd::string::StringSliceAdditionalSpecFns;

verus! {

/// Indicates the direction of the RTPTransceiver.
#[derive(Debug, Copy, Clone, PartialEq, Eq, Structural)]
pub enum RTPTransceiverDirection {
    Unspecified,
    /// The RTPSender will offer to send RTP and the RTPReceiver will offer to
    /// receive RTP.
    Sendrecv,
    /// The RTPSender will offer to send RTP.
    Sendonly,
    /// The RTPReceiver will offer to receive RTP.
    Recvonly,
    /// Neither sending nor receiving RTP will be offered.
    Inactive,
}

/// The bytes of "Sendrecv".
pub open spec fn sendrecv_bytes() -> Seq<u8> {
    seq![83u8, 101u8, 110u8, 100u8, 114u8, 101u8, 99u8, 118u8]
}

/// The bytes of "Sendonly".
pub open spec fn sendonly_bytes() -> Seq<u8> {
    seq![83u8, 101u8, 110u8, 100u8, 111u8, 110u8, 108u8, 121u8]
}

/// The bytes of "Recvonly".
pub open spec fn recvonly_bytes() -> Seq<u8> {
    seq![82u8, 101u8, 99u8, 118u8, 111u8, 110u8, 108u8, 121u8]
}

/// The bytes of "Inactive".
pub open spec fn inactive_bytes() -> Seq<u8> {
    seq![73u8, 110u8, 97u8, 99u8, 116u8, 105u8, 118u8, 101u8]
}

/// The direction a name stands for; any other name is unspecified.
pub open spec fn direction_of_name(b: Seq<u8>) -> RTPTransceiverDirection {
    if b == sendrecv_bytes() {
        RTPTransceiverDirection::Sendrecv
    } else if b == sendonly_bytes() {
        RTPTransceiverDirection::Sendonly
    } else if b == recvonly_bytes() {
        RTPTransceiverDirection::Recvonly
    } else if b == inactive_bytes() {
        RTPTransceiverDirection::Inactive
    } else {
        RTPTransceiverDirection::Unspecified
    }
}

/// The name of a direction.
pub open spec fn direction_name(d: RTPTransceiverDirection) -> Seq<char> {
    match d {
        RTPTransceiverDirection::Sendrecv => seq!['S', 'e', 'n', 'd', 'r', 'e', 'c', 'v'],
        RTPTransceiverDirection::Sendonly => seq!['S', 'e', 'n', 'd', 'o', 'n', 'l', 'y'],
        RTPTransceiverDirection::Recvonly => seq!['R', 'e', 'c', 'v', 'o', 'n', 'l', 'y'],
        RTPTransceiverDirection::Inactive => seq!['I', 'n', 'a', 'c', 't', 'i', 'v', 'e'],
        RTPTransceiverDirection::Unspecified => seq![
            'U',
            'n',
            's',
            'p',
            'e',
            'c',
            'i',
            'f',
            'i',
            'e',
            'd',
        ],
    }
}

/// The name of a direction read back gives the direction: `from` undoes
/// `to_string`.
pub proof fn lemma_name_roundtrip(d: RTPTransceiverDirection)
    ensures
        direction_of_name(vstd::utf8::encode_utf8(direction_name(d))) == d,
{
    let n = direction_name(d);
    lemma_ascii_encoding(n);
    let b = n.map_values(|c: char| (c as u32) as u8);
    match d {
        RTPTransceiverDirection::Sendrecv => assert(b =~= sendrecv_bytes()),
        RTPTransceiverDirection::Sendonly => assert(b =~= sendonly_bytes()),
        RTPTransceiverDirection::Recvonly => assert(b =~= recvonly_bytes()),
        RTPTransceiverDirection::Inactive => assert(b =~= inactive_bytes()),
        RTPTransceiverDirection::Unspecified => {
            assert(b.len() == 11);
        },
    }
}

/// Reading any text other than the four direction names gives
/// `Unspecified` (names are compared exactly, case included).
pub proof fn lemma_other_names_unspecified(s: Seq<char>)
    requires
        s != direction_name(RTPTransceiverDirection::Sendrecv),
        s != direction_name(RTPTransceiverDirection::Sendonly),
        s != direction_name(RTPTransceiverDirection::Recvonly),
        s != direction_name(RTPTransceiverDirection::Inactive),
    ensures
        direction_of_name(vstd::utf8::encode_utf8(s)) == RTPTransceiverDirection::Unspecified,
{
    broadcast use vstd::utf8::encode_utf8_decode_utf8;

    let e = vstd::utf8::encode_utf8(s);
    lemma_name_roundtrip(RTPTransceiverDirection::Sendrecv);
    lemma_name_roundtrip(RTPTransceiverDirection::Sendonly);
    lemma_name_roundtrip(RTPTransceiverDirection::Recvonly);
    lemma_name_roundtrip(RTPTransceiverDirection::Inactive);
    let names = seq![
        RTPTransceiverDirection::Sendrecv,
        RTPTransceiverDirection::Sendonly,
        RTPTransceiverDirection::Recvonly,
        RTPTransceiverDirection::Inactive,
    ];
    assert forall|k: int| 0 <= k < 4 implies e != vstd::utf8::encode_utf8(
        direction_name(#[trigger] names[k]),
    ) by {
        if e == vstd::utf8::encode_utf8(direction_name(names[k])) {
            assert(vstd::utf8::decode_utf8(e) == s);
            assert(vstd::utf8::decode_utf8(vstd::utf8::encode_utf8(direction_name(names[k])))
                == direction_name(names[k]));
        }
    }
    assert(e != vstd::utf8::encode_utf8(direction_name(names[0])));
    assert(e != vstd::utf8::encode_utf8(direction_name(names[1])));
    assert(e != vstd::utf8::encode_utf8(direction_name(names[2])));
    assert(e != vstd::utf8::encode_utf8(direction_name(names[3])));
    lemma_name_bytes();
}

/// The names encode to the bytes `direction_of_name` compares with.
proof fn lemma_name_bytes()
    ensures
        vstd::utf8::encode_utf8(direction_name(RTPTransceiverDirection::Sendrecv))
            == sendrecv_bytes(),
        vstd::utf8::encode_utf8(direction_name(RTPTransceiverDirection::Sendonly))
            == sendonly_bytes(),
        vstd::utf8::encode_utf8(direction_name(RTPTransceiverDirection::Recvonly))
            == recvonly_bytes(),
        vstd::utf8::encode_utf8(direction_name(RTPTransceiverDirection::Inactive))
            == inactive_bytes(),
{
    lemma_ascii_encoding(direction_name(RTPTransceiverDirection::Sendrecv));
    lemma_ascii_encoding(direction_name(RTPTransceiverDirection::Sendonly));
    lemma_ascii_encoding(direction_name(RTPTransceiverDirection::Recvonly));
    lemma_ascii_encoding(direction_name(RTPTransceiverDirection::Inactive));
    assert(direction_name(RTPTransceiverDirection::Sendrecv).map_values(|c: char| (c as u32) as u8)
        =~= sendrecv_bytes());
    assert(direction_name(RTPTransceiverDirection::Sendonly).map_values(|c: char| (c as u32) as u8)
        =~= sendonly_bytes());
    assert(direction_name(RTPTransceiverDirection::Recvonly).map_values(|c: char| (c as u32) as u8)
        =~= recvonly_bytes());
    assert(direction_name(RTPTransceiverDirection::Inactive).map_values(|c: char| (c as u32) as u8)
        =~= inactive_bytes());
}

/// The UTF-8 encoding of ASCII characters is their codes.
proof fn lemma_ascii_encoding(cs: Seq<char>)
    requires
        forall|i: int| 0 <= i < cs.len() ==> (#[trigger] cs[i] as u32) < 128,
    ensures
        vstd::utf8::encode_utf8(cs) == cs.map_values(|c: char| (c as u32) as u8),
    decreases cs.len(),
{
    if cs.len() > 0 {
        let t = cs.drop_first();
        assert forall|i: int| 0 <= i < t.len() implies (#[trigger] t[i] as u32) < 128 by {
            assert(t[i] == cs[i + 1]);
        }
        lemma_ascii_encoding(t);
        let v = cs[0] as u32;
        assert(v < 128 ==> (v & 0x7F) as u8 == v as u8) by (bit_vector);
        assert(vstd::utf8::encode_scalar(v) == seq![v as u8]);
        assert(vstd::utf8::encode_utf8(cs) == vstd::utf8::encode_scalar(v) + vstd::utf8::encode_utf8(t));
        assert(vstd::utf8::encode_utf8(cs) =~= cs.map_values(|c: char| (c as u32) as u8));
    }
}

/// The opposite of a direction: send-only and receive-only swap.
pub open spec fn spec_reverse(d: RTPTransceiverDirection) -> RTPTransceiverDirection {
    match d {
        RTPTransceiverDirection::Sendonly => RTPTransceiverDirection::Recvonly,
        RTPTransceiverDirection::Recvonly => RTPTransceiverDirection::Sendonly,
        _ => d,
    }
}

impl RTPTransceiverDirection {
    /// The direction named by `raw` ("Sendrecv", "Sendonly", "Recvonly",
    /// "Inactive"); any other text gives `Unspecified`.
    pub fn from(raw: &str) -> (r: RTPTransceiverDirection)
        ensures
            r == direction_of_name(raw.spec_bytes()),
    {
        let b = raw.as_bytes();
        let sendrecv: [u8; 8] = [83, 101, 110, 100, 114, 101, 99, 118];
        let sendonly: [u8; 8] = [83, 101, 110, 100, 111, 110, 108, 121];
        let recvonly: [u8; 8] = [82, 101, 99, 118, 111, 110, 108, 121];
        let inactive: [u8; 8] = [73, 110, 97, 99, 116, 105, 118, 101];
        assert(sendrecv@ =~= sendrecv_bytes());
        assert(sendonly@ =~= sendonly_bytes());
        assert(recvonly@ =~= recvonly_bytes());
        assert(inactive@ =~= inactive_bytes());
        if bytes_equal(b, sendrecv.as_slice()) {
            RTPTransceiverDirection::Sendrecv
        } else if bytes_equal(b, sendonly.as_slice()) {
            RTPTransceiverDirection::Sendonly
        } else if bytes_equal(b, recvonly.as_slice()) {
            RTPTransceiverDirection::Recvonly
        } else if bytes_equal(b, inactive.as_slice()) {
            RTPTransceiverDirection::Inactive
        } else {
            RTPTransceiverDirection::Unspecified
        }
    }

    /// The name of the direction.
    pub fn to_string(&self) -> (r: String)
        ensures
            r@ == direction_name(*self),
    {
        proof {
            reveal_strlit("Sendrecv");
            reveal_strlit("Sendonly");
            reveal_strlit("Recvonly");
            reveal_strlit("Inactive");
            reveal_strlit("Unspecified");
        }
        match self {
            RTPTransceiverDirection::Sendrecv => String::from_str("Sendrecv"),
            RTPTransceiverDirection::Sendonly => String::from_str("Sendonly"),
            RTPTransceiverDirection::Recvonly => String::from_str("Recvonly"),
            RTPTransceiverDirection::Inactive => String::from_str("Inactive"),
            RTPTransceiverDirection::Unspecified => String::from_str("Unspecified"),
        }
    }

    /// The opposite direction.
    pub fn reverse(&self) -> (r: RTPTransceiverDirection)
        ensures
            r == spec_reverse(*self),
    {
        match self {
            RTPTransceiverDirection::Sendonly => RTPTransceiverDirection::Recvonly,
            RTPTransceiverDirection::Recvonly => RTPTransceiverDirection::Sendonly,
            _ => *self,
        }
    }
}

/// Reversing twice gives the direction back.
pub proof fn lemma_reverse_involution(d: RTPTransceiverDirection)
    ensures
        spec_reverse(spec_reverse(d)) == d,
{
}

/// Whether some direction of `needle` occurs in `haystack`.
pub fn have_rtp_transceiver_direction_intersection(
    haystack: &[RTPTransceiverDirection],
    needle: &[RTPTransceiverDirection],
) -> (r: bool)
    ensures
        r == exists|i: int, j: int|
            0 <= i < needle@.len() && 0 <= j < haystack@.len() && needle@[i] == haystack@[j],
{
    let mut i: usize = 0;
    while i < needle.len()
        invariant
            i <= needle@.len(),
            forall|a: int, b: int|
                0 <= a < i && 0 <= b < haystack@.len() ==> needle@[a] != haystack@[b],
        decreases needle@.len() - i,
    {
        let mut j: usize = 0;
        while j < haystack.len()
            invariant
                i < needle@.len(),
                j <= haystack@.len(),
                forall|a: int, b: int|
                    0 <= a < i && 0 <= b < haystack@.len() ==> needle@[a] != haystack@[b],
                forall|b: int| 0 <= b < j ==> needle@[i as int] != haystack@[b],
            decreases haystack@.len() - j,
        {
            if needle[i] == haystack[j] {
                return true;
            }
            j = j + 1;
        }
        i = i + 1;
    }
    false
}

} // verus!
