# webrtc (verified core)

The protocol logic of a WebRTC stack, written in Verus: every function in
`src/` carries a contract, which Verus proves except for the small trusted
wrappers around outside crates and std (listed at the end), whose contracts
are believed; and the laws that tie the
functions together (what a parser gives back of what the writer wrote, what
one state transition leads to) are stated and proved as proof functions
beside them.

Layout:

- `src/bytes.rs` – big-endian encoding helpers.
- `src/peer.rs` – the negotiation decisions of a peer connection: the ICE
  role, transceiver directions, media ids, streams with undeclared SSRCs,
  data channel ids.
- `src/media_sections.rs` – matching remote media sections to local
  transceivers: the sections of a generated description, and what a remote
  offer does to the transceivers.
- `src/rtcp.rs`, `src/compound_packet.rs`, `src/abs_send_time.rs`,
  `src/receive_log.rs` – RTCP headers, datagrams cut into packets and
  dispatched by kind, raw packets and transport-layer NACKs; the rules of compound packets; the abs-send-time RTP
  header extension; the receive log of the NACK generator.
- `src/srtp/` – key derivation, the AES-CM/HMAC-SHA1 cipher and the
  per-SSRC rollover state of SRTP and SRTCP.
- `src/dtls/` – DTLS handshake messages, the decisions of flights 0, 3 and
  6, what the connection's reader does with each record, the fragmenting,
  numbering and packing of outgoing handshake records, and the check of a
  peer's key signature.
- `src/sdp/` – text handling, codecs, the lines of a description and the
  order in which they may come, whole descriptions written and read as text,
  and the proof that what is written reads back.
- `src/sctp.rs`, `src/stun.rs`, `src/mdns.rs` – SCTP packets, the STUN
  UNKNOWN-ATTRIBUTES attribute, the DNS message builder.
- `src/signaling.rs`, `src/candidate_pair.rs`,
  `src/rtp_transceiver_direction.rs`, `src/api.rs`, `src/interceptor.rs` –
  the offer/answer state machine, ICE candidate pairs, transceiver
  directions, and the builders of the API object and the sender-report
  interceptor.
- `tests/` – tests on concrete values.
- `app/` – the unverified rim: durations, reading descriptions from a
  stream (the line syntax is the library's), and the asynchronous interceptor interfaces.

Cryptographic primitives, X.509 parsing, the CRC32c computation (whose
result the contract states bit by bit), URL parsing, lower-casing,
random numbers and the clock come from outside crates and std through small
trusted wrappers (marked `#[verifier::external_body]`) whose contracts name
their results; those contracts are believed, not proved.
