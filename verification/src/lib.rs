//! Verified core of a WebRTC stack: packet formats, sequence-number
//! bookkeeping, key derivation and the decision logic of its protocols.
pub mod bytes;
pub mod receive_log;
pub mod srtp;
pub mod rtcp;
pub mod compound_packet;
pub mod abs_send_time;
pub mod rtp_transceiver_direction;
pub mod dtls;
pub mod candidate_pair;
pub mod sdp;
pub mod mdns;
pub mod stun;
pub mod signaling;
pub mod interceptor;
pub mod api;
pub mod sctp;
pub mod peer;
pub mod media_sections;
