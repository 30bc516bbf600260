//! Session Description Protocol: codecs, the lines of a description, and
//! whole descriptions written and read as text.
pub mod text;
pub mod codec;
pub mod description;
pub mod lexer;
pub mod session;
pub mod roundtrip;

use vstd::prelude::*;

verus! {

/// Why a description line was refused.
#[derive(Debug, Clone, Copy, PartialEq, Eq)]
pub enum SdpError {
    /// An `rtpmap` value that does not have the expected fields.
    RtpmapSyntax,
    /// An `fmtp` value that does not have the expected fields.
    FmtpSyntax,
    /// An `rtcp-fb` value that does not have the expected fields.
    RtcpFbSyntax,
    /// A field that should hold a number in range does not.
    ParseInt,
    /// A line without the fields its type asks for.
    InvalidSyntax,
    /// A field whose value is not one of those registered.
    InvalidValue,
    /// A `u=` value that is not a URL.
    InvalidUri,
    /// An `r=` line with no time description before it.
    EmptyTimeDescriptions,
    /// A media-level line with no media description before it.
    EmptyMediaDescriptions,
    /// No codec of the description has the payload type asked for.
    PayloadTypeNotFound,
    /// No codec of the description matches the codec asked for.
    CodecNotFound,
}

} // verus!
