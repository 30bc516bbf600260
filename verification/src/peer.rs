//! Decisions of offer/answer negotiation that a peer connection takes from
//! plain values: the ICE role (RFC 8445 section 6.1.1) and the other steps
//! of setting a remote description, how a transceiver's direction follows
//! the remote description, the numbering of media ids in an offer, how the
//! local transceivers are matched to remote media sections, and how a
//! stream with an undeclared SSRC is taken in. The transceivers, the media
//! engine and the transports stay with the caller, which acts on the
//! results.
use vstd::prelude::*;
use crate::rtp_transceiver_direction::RTPTransceiverDirection;
use crate::sdp::description::Attribute;
use crate::sdp::session::MediaDescription;
use crate::signaling::SdpType;
use crate::sdp::text::{
    chars_eq,
    decimal,
    push_decimal,
    parse_i64,
    parse_signed,
    push_signed_decimal,
    signed_decimal,
    str_chars,
    string_from_chars,
    trim,
    trim_chars,
};

verus! {

/// The role of the local ICE agent.
#[derive(Debug, Copy, Clone, PartialEq, Eq, Structural)]
pub enum ICERole {
    Controlling,
    Controlled,
}

/// The local ICE role: when exactly one of the two agents is lite, the full
/// agent controls; when both or neither are, the offerer controls.
pub open spec fn spec_ice_role(we_offer: bool, remote_is_lite: bool, local_is_lite: bool) -> ICERole {
    if remote_is_lite != local_is_lite {
        if remote_is_lite {
            ICERole::Controlling
        } else {
            ICERole::Controlled
        }
    } else if we_offer {
        ICERole::Controlling
    } else {
        ICERole::Controlled
    }
}

/// Chooses the local ICE role once the remote description is set.
pub fn ice_role(we_offer: bool, remote_is_lite: bool, local_is_lite: bool) -> (r: ICERole)
    ensures
        r == spec_ice_role(we_offer, remote_is_lite, local_is_lite),
        remote_is_lite && !local_is_lite ==> r == ICERole::Controlling,
        local_is_lite && !remote_is_lite ==> r == ICERole::Controlled,
        remote_is_lite == local_is_lite ==> (r == ICERole::Controlling <==> we_offer),
{
    if (we_offer && remote_is_lite == local_is_lite) || (remote_is_lite && !local_is_lite) {
        ICERole::Controlling
    } else {
        ICERole::Controlled
    }
}

/// Whether a session's attributes mark the remote agent as ICE lite: some
/// attribute's key, trimmed, is `ice-lite`.
pub open spec fn spec_is_ice_lite(attributes: Seq<Attribute>) -> bool {
    exists|i: int| 0 <= i < attributes.len() && trim(#[trigger] attributes[i].key@) == "ice-lite"@
}

/// Whether the session-level attributes of a remote description mark the
/// remote agent as ICE lite.
pub fn remote_is_ice_lite(attributes: &[Attribute]) -> (r: bool)
    ensures
        r == spec_is_ice_lite(attributes@),
{
    let lite = str_chars("ice-lite");
    let mut i: usize = 0;
    while i < attributes.len()
        invariant
            i <= attributes@.len(),
            lite@ == "ice-lite"@,
            forall|j: int| 0 <= j < i ==> trim(#[trigger] attributes@[j].key@) != "ice-lite"@,
        decreases attributes@.len() - i,
    {
        let key = str_chars(attributes[i].key.as_str());
        let t = trim_chars(key.as_slice());
        if chars_eq(t.as_slice(), lite.as_slice()) {
            return true;
        }
        i = i + 1;
    }
    false
}

/// The direction of a local transceiver matched to a remote media section
/// with direction `remote`: a transceiver that sends and receives only sends
/// to a peer that only receives, and one that only sends goes back to
/// sending and receiving for a peer that does both.
pub open spec fn spec_matched_direction(
    remote: RTPTransceiverDirection,
    local: RTPTransceiverDirection,
) -> RTPTransceiverDirection {
    if remote == RTPTransceiverDirection::Recvonly && local == RTPTransceiverDirection::Sendrecv {
        RTPTransceiverDirection::Sendonly
    } else if remote == RTPTransceiverDirection::Sendrecv && local
        == RTPTransceiverDirection::Sendonly {
        RTPTransceiverDirection::Sendrecv
    } else {
        local
    }
}

/// The new direction of a local transceiver matched to a remote media
/// section.
pub fn matched_transceiver_direction(
    remote: RTPTransceiverDirection,
    local: RTPTransceiverDirection,
) -> (r: RTPTransceiverDirection)
    ensures
        r == spec_matched_direction(remote, local),
        remote == RTPTransceiverDirection::Sendrecv ==> r == (if local
            == RTPTransceiverDirection::Sendonly {
            RTPTransceiverDirection::Sendrecv
        } else {
            local
        }),
        remote == RTPTransceiverDirection::Recvonly ==> r == (if local
            == RTPTransceiverDirection::Sendrecv {
            RTPTransceiverDirection::Sendonly
        } else {
            local
        }),
        remote != RTPTransceiverDirection::Sendrecv && remote != RTPTransceiverDirection::Recvonly
            ==> r == local,
{
    if remote == RTPTransceiverDirection::Recvonly {
        if local == RTPTransceiverDirection::Sendrecv {
            return RTPTransceiverDirection::Sendonly;
        }
    } else if remote == RTPTransceiverDirection::Sendrecv && local
        == RTPTransceiverDirection::Sendonly {
        return RTPTransceiverDirection::Sendrecv;
    }
    local
}

/// The direction of a transceiver created for a remote media section that no
/// local one matches: it sends to a peer that only receives, and otherwise
/// receives.
pub fn new_transceiver_direction(remote: RTPTransceiverDirection) -> (r: RTPTransceiverDirection)
    ensures
        r == (if remote == RTPTransceiverDirection::Recvonly {
            RTPTransceiverDirection::Sendonly
        } else {
            RTPTransceiverDirection::Recvonly
        }),
{
    if remote == RTPTransceiverDirection::Recvonly {
        RTPTransceiverDirection::Sendonly
    } else {
        RTPTransceiverDirection::Recvonly
    }
}

/// Raises `greater_mid` to the largest of the remote media ids that are
/// numbers; the others are left aside.
pub fn greater_mid_from_remote(remote_mids: &[String], greater_mid: i64) -> (r: i64)
    ensures
        r >= greater_mid,
        forall|i: int|
            0 <= i < remote_mids@.len() ==> (#[trigger] parse_signed(remote_mids@[i]@) matches Some(
                n,
            ) ==> n <= r),
        r == greater_mid || exists|i: int|
            0 <= i < remote_mids@.len() && #[trigger] parse_signed(remote_mids@[i]@) == Some(
                r as int,
            ),
{
    let mut g = greater_mid;
    let mut i: usize = 0;
    while i < remote_mids.len()
        invariant
            i <= remote_mids@.len(),
            g >= greater_mid,
            forall|j: int|
                0 <= j < i ==> (#[trigger] parse_signed(remote_mids@[j]@) matches Some(n) ==> n
                    <= g),
            g == greater_mid || exists|j: int|
                0 <= j < i && #[trigger] parse_signed(remote_mids@[j]@) == Some(g as int),
        decreases remote_mids@.len() - i,
    {
        let mid = str_chars(remote_mids[i].as_str());
        match parse_i64(mid.as_slice()) {
            Some(n) => {
                if n > g {
                    g = n;
                }
            },
            None => {},
        }
        i = i + 1;
    }
    g
}

/// How many of the media ids are still empty.
pub open spec fn count_unassigned(mids: Seq<String>) -> nat
    decreases mids.len(),
{
    if mids.len() == 0 {
        0
    } else {
        count_unassigned(mids.drop_last()) + if mids.last()@.len() == 0 {
            1nat
        } else {
            0nat
        }
    }
}

proof fn lemma_count_unassigned_prefix(mids: Seq<String>, i: int, j: int)
    requires
        0 <= i <= j <= mids.len(),
    ensures
        count_unassigned(mids.take(i)) <= count_unassigned(mids.take(j)),
    decreases j - i,
{
    if i < j {
        lemma_count_unassigned_prefix(mids, i, j - 1);
        assert(mids.take(j).drop_last() =~= mids.take(j - 1));
    }
}

/// The media ids of an offer: each empty one gets the next number after
/// `greater_mid`, in order, and the others stay.
pub open spec fn spec_assigned_mid(mids: Seq<String>, greater_mid: int, i: int) -> Seq<char> {
    if mids[i]@.len() == 0 {
        signed_decimal(greater_mid + count_unassigned(mids.take(i)) + 1)
    } else {
        mids[i]@
    }
}

/// Numbers the transceivers that have no media id yet, counting on from
/// `greater_mid`, and returns the greatest number given out (`greater_mid`
/// when none was).
pub fn assign_mids(mids: &mut Vec<String>, greater_mid: i64) -> (r: i64)
    requires
        greater_mid + count_unassigned(old(mids)@) <= i64::MAX,
    ensures
        r == greater_mid + count_unassigned(old(mids)@),
        final(mids)@.len() == old(mids)@.len(),
        forall|i: int|
            0 <= i < old(mids)@.len() ==> #[trigger] final(mids)@[i]@ == spec_assigned_mid(
                old(mids)@,
                greater_mid as int,
                i,
            ),
        forall|i: int| 0 <= i < old(mids)@.len() ==> (#[trigger] final(mids)@[i])@.len() > 0,
{
    let ghost orig = mids@;
    let mut g = greater_mid;
    let mut i: usize = 0;
    while i < mids.len()
        invariant
            i <= mids@.len(),
            mids@.len() == orig.len(),
            greater_mid + count_unassigned(orig) <= i64::MAX,
            g == greater_mid + count_unassigned(orig.take(i as int)),
            forall|j: int| 0 <= j < i ==> #[trigger] mids@[j]@ == spec_assigned_mid(orig, greater_mid as int, j),
            forall|j: int| i <= j < mids@.len() ==> #[trigger] mids@[j] == orig[j],
            forall|j: int| 0 <= j < i ==> (#[trigger] mids@[j])@.len() > 0,
        decreases mids@.len() - i,
    {
        proof {
            assert(orig.take(i + 1).drop_last() =~= orig.take(i as int));
            lemma_count_unassigned_prefix(orig, i + 1, orig.len() as int);
            assert(orig.take(orig.len() as int) =~= orig);
        }
        let current = str_chars(mids[i].as_str());
        if current.len() == 0 {
            g = g + 1;
            let mut text: Vec<char> = Vec::new();
            push_signed_decimal(&mut text, g);
            proof {
                if g >= 0 {
                    crate::sdp::description::lemma_decimal_reads_back(g as nat);
                }
            }
            let s = string_from_chars(text.as_slice());
            mids.set(i, s);
        }
        i = i + 1;
    }
    proof {
        assert(orig.take(i as int) =~= orig);
    }
    g
}

/// The two agents of a session take opposite ICE roles: exactly one of the
/// offerer and the answerer controls, whichever of them is lite.
pub proof fn lemma_ice_roles_opposite(offerer_is_lite: bool, answerer_is_lite: bool)
    ensures
        spec_ice_role(true, answerer_is_lite, offerer_is_lite) != spec_ice_role(
            false,
            offerer_is_lite,
            answerer_is_lite,
        ),
{
}

/// The kind of media a track carries.
#[derive(Debug, Copy, Clone, PartialEq, Eq, Structural)]
pub enum RTPCodecType {
    Unspecified,
    Audio,
    Video,
}

/// How a stream whose SSRC the remote description does not declare is
/// taken in.
#[derive(Debug, Copy, Clone, PartialEq, Eq, Structural)]
pub enum UndeclaredSsrcPlan {
    /// The remote description has a single media section: a new sendrecv
    /// transceiver of this kind receives the stream.
    SingleSection(RTPCodecType),
    /// Simulcast: the stream's first packets are probed for their mid and
    /// rid header extensions.
    Simulcast,
}

/// Why a stream with an undeclared SSRC is refused.
#[derive(Debug, Copy, Clone, PartialEq, Eq, Structural)]
pub enum UndeclaredSsrcError {
    /// The only media section declares SSRCs, and not this one.
    SingleMediaSectionHasExplicitSsrc,
    /// Neither audio nor video negotiated the mid header extension.
    SimulcastMidRtpExtensionRequired,
    /// Neither audio nor video negotiated the rtp-stream-id header extension.
    SimulcastStreamIdRtpExtensionRequired,
}

/// Whether some attribute is an `ssrc` attribute.
pub open spec fn declares_ssrc(attributes: Seq<Attribute>) -> bool {
    exists|i: int| 0 <= i < attributes.len() && (#[trigger] attributes[i]).key@ == "ssrc"@
}

/// The plan for a stream with an undeclared SSRC. With a single remote
/// media section the SSRC need not be declared, unless that section
/// declares others; the track is audio when the section is, and video
/// otherwise. With several sections the stream must be simulcast, which
/// needs the mid and then the rtp-stream-id extension negotiated for audio
/// or video.
pub open spec fn spec_undeclared_ssrc_plan(
    sections: Seq<MediaDescription>,
    mid_audio: bool,
    mid_video: bool,
    rid_audio: bool,
    rid_video: bool,
) -> Result<UndeclaredSsrcPlan, UndeclaredSsrcError> {
    if sections.len() == 1 {
        if declares_ssrc(sections[0].attributes@) {
            Err(UndeclaredSsrcError::SingleMediaSectionHasExplicitSsrc)
        } else if sections[0].media_name.media@ == "audio"@ {
            Ok(UndeclaredSsrcPlan::SingleSection(RTPCodecType::Audio))
        } else {
            Ok(UndeclaredSsrcPlan::SingleSection(RTPCodecType::Video))
        }
    } else if !mid_audio && !mid_video {
        Err(UndeclaredSsrcError::SimulcastMidRtpExtensionRequired)
    } else if !rid_audio && !rid_video {
        Err(UndeclaredSsrcError::SimulcastStreamIdRtpExtensionRequired)
    } else {
        Ok(UndeclaredSsrcPlan::Simulcast)
    }
}

/// Decides how to take in a stream whose SSRC the remote description's
/// media sections do not declare; the flags say for which kinds the mid and
/// rtp-stream-id header extensions were negotiated.
pub fn undeclared_ssrc_plan(
    sections: &[MediaDescription],
    mid_audio: bool,
    mid_video: bool,
    rid_audio: bool,
    rid_video: bool,
) -> (r: Result<UndeclaredSsrcPlan, UndeclaredSsrcError>)
    ensures
        r == spec_undeclared_ssrc_plan(sections@, mid_audio, mid_video, rid_audio, rid_video),
{
    if sections.len() == 1 {
        let only = &sections[0];
        let ssrc = str_chars("ssrc");
        let mut i: usize = 0;
        while i < only.attributes.len()
            invariant
                i <= only.attributes@.len(),
                sections@.len() == 1,
                *only == sections@[0],
                ssrc@ == "ssrc"@,
                forall|j: int| 0 <= j < i ==> (#[trigger] only.attributes@[j]).key@ != "ssrc"@,
            decreases only.attributes@.len() - i,
        {
            let key = str_chars(only.attributes[i].key.as_str());
            if chars_eq(key.as_slice(), ssrc.as_slice()) {
                assert(sections@[0].attributes@[i as int].key@ == "ssrc"@);
                return Err(UndeclaredSsrcError::SingleMediaSectionHasExplicitSsrc);
            }
            i = i + 1;
        }
        let media = str_chars(only.media_name.media.as_str());
        let audio = str_chars("audio");
        if chars_eq(media.as_slice(), audio.as_slice()) {
            return Ok(UndeclaredSsrcPlan::SingleSection(RTPCodecType::Audio));
        }
        return Ok(UndeclaredSsrcPlan::SingleSection(RTPCodecType::Video));
    }
    if !mid_audio && !mid_video {
        return Err(UndeclaredSsrcError::SimulcastMidRtpExtensionRequired);
    }
    if !rid_audio && !rid_video {
        return Err(UndeclaredSsrcError::SimulcastStreamIdRtpExtensionRequired);
    }
    Ok(UndeclaredSsrcPlan::Simulcast)
}

/// One probed packet of a simulcast stream: a mid or rid it carries
/// replaces the one kept; the result says whether both are now known.
pub fn simulcast_probe_step(mid: &mut String, rid: &mut String, packet_mid: String, packet_rid: String) -> (r: bool)
    ensures
        final(mid)@ == (if packet_mid@.len() == 0 { old(mid)@ } else { packet_mid@ }),
        final(rid)@ == (if packet_rid@.len() == 0 { old(rid)@ } else { packet_rid@ }),
        r == (final(mid)@.len() != 0 && final(rid)@.len() != 0),
{
    let pm = str_chars(packet_mid.as_str());
    if pm.len() != 0 {
        *mid = packet_mid;
    }
    let pr = str_chars(packet_rid.as_str());
    if pr.len() != 0 {
        *rid = packet_rid;
    }
    let m = str_chars(mid.as_str());
    let d = str_chars(rid.as_str());
    m.len() != 0 && d.len() != 0
}

/// How media sections are laid out.
#[derive(Debug, Copy, Clone, PartialEq, Eq, Structural)]
pub enum SDPSemantics {
    UnifiedPlan,
    PlanB,
    /// Unified plan, answering a plan-b offer in plan b.
    UnifiedPlanWithFallback,
}

/// How the local transceivers are matched to a remote media section.
#[derive(Debug, Copy, Clone, PartialEq, Eq, Structural)]
pub enum SectionMatching {
    /// Every local transceiver of the section's kind and direction, or a new
    /// inactive one if there is none.
    PlanB,
    /// The local transceiver with the section's mid, which must exist.
    UnifiedPlan,
}

/// The remote description's layout does not fit the local semantics.
#[derive(Debug, Copy, Clone, PartialEq, Eq, Structural)]
pub enum SemanticsError {
    IncorrectSDPSemantics,
}

/// The matching for a remote media section: plan b when the local
/// semantics is plan b, or falls back to it for a plan-b remote
/// description; unified plan otherwise. The remote description must be laid
/// out in the chosen way.
pub open spec fn spec_section_matching(semantics: SDPSemantics, detected_plan_b: bool) -> Result<
    SectionMatching,
    SemanticsError,
> {
    if semantics == SDPSemantics::PlanB || (semantics == SDPSemantics::UnifiedPlanWithFallback
        && detected_plan_b) {
        if detected_plan_b {
            Ok(SectionMatching::PlanB)
        } else {
            Err(SemanticsError::IncorrectSDPSemantics)
        }
    } else if detected_plan_b {
        Err(SemanticsError::IncorrectSDPSemantics)
    } else {
        Ok(SectionMatching::UnifiedPlan)
    }
}

/// Chooses how a remote media section is matched when a description is
/// generated in answer to it.
pub fn section_matching(semantics: SDPSemantics, detected_plan_b: bool) -> (r: Result<
    SectionMatching,
    SemanticsError,
>)
    ensures
        r == spec_section_matching(semantics, detected_plan_b),
{
    if semantics == SDPSemantics::PlanB || (semantics == SDPSemantics::UnifiedPlanWithFallback
        && detected_plan_b) {
        if !detected_plan_b {
            return Err(SemanticsError::IncorrectSDPSemantics);
        }
        Ok(SectionMatching::PlanB)
    } else {
        if detected_plan_b {
            return Err(SemanticsError::IncorrectSDPSemantics);
        }
        Ok(SectionMatching::UnifiedPlan)
    }
}

/// The mid of the data channel section added to a description that has
/// `sections_before` media sections: `data` in plan b, else its index.
pub fn data_section_id(detected_plan_b: bool, sections_before: usize) -> (r: String)
    ensures
        r@ == (if detected_plan_b { "data"@ } else { decimal(sections_before as nat) }),
{
    if detected_plan_b {
        let d = str_chars("data");
        string_from_chars(d.as_slice())
    } else {
        let mut text: Vec<char> = Vec::new();
        push_decimal(&mut text, sections_before as u64);
        assert(text@ =~= decimal(sections_before as nat));
        string_from_chars(text.as_slice())
    }
}

/// The ICE and RTP steps that setting a remote description takes.
#[derive(Debug, Copy, Clone, PartialEq, Eq, Structural)]
pub struct RemoteDescriptionSteps {
    /// Whether the local side made the offer (the remote description is an
    /// answer).
    pub we_offer: bool,
    /// Restart ICE: the remote credentials changed in a renegotiation that
    /// the remote side offered.
    pub restart_ice: bool,
    /// Take the remote description's ICE credentials.
    pub set_remote_credentials: bool,
    /// Start the RTP senders: the local side offered.
    pub start_rtp_senders: bool,
    /// Start ICE, DTLS and SCTP: the first negotiation.
    pub start_transports: bool,
}

/// The steps for a remote description of type `sdp_type`. An ICE restart
/// happens implicitly only when the remote side offers new credentials in a
/// renegotiation; new credentials are taken in any renegotiation; the
/// senders start when the local side offered; the transports start in the
/// first negotiation only.
pub open spec fn spec_remote_description_steps(
    sdp_type: SdpType,
    is_renegotiation: bool,
    credentials_changed: bool,
) -> RemoteDescriptionSteps {
    let we_offer = sdp_type == SdpType::Answer;
    RemoteDescriptionSteps {
        we_offer,
        restart_ice: is_renegotiation && credentials_changed && !we_offer,
        set_remote_credentials: is_renegotiation && credentials_changed,
        start_rtp_senders: we_offer,
        start_transports: !is_renegotiation,
    }
}

/// Decides the ICE and RTP steps of setting a remote description;
/// `credentials_changed` says whether its ICE username fragment or password
/// differ from the ones in use.
pub fn remote_description_steps(
    sdp_type: SdpType,
    is_renegotiation: bool,
    credentials_changed: bool,
) -> (r: RemoteDescriptionSteps)
    ensures
        r == spec_remote_description_steps(sdp_type, is_renegotiation, credentials_changed),
        r.we_offer == (sdp_type == SdpType::Answer),
        r.start_transports == !is_renegotiation,
        r.start_rtp_senders == r.we_offer,
        r.set_remote_credentials == (is_renegotiation && credentials_changed),
        r.restart_ice == (r.set_remote_credentials && !r.we_offer),
{
    let we_offer = sdp_type == SdpType::Answer;
    let mut steps = RemoteDescriptionSteps {
        we_offer,
        restart_ice: false,
        set_remote_credentials: false,
        start_rtp_senders: we_offer,
        start_transports: !is_renegotiation,
    };
    if is_renegotiation && credentials_changed {
        if !we_offer {
            steps.restart_ice = true;
        }
        steps.set_remote_credentials = true;
    }
    steps
}

/// The number of data channels when none is configured.
pub const SCTP_MAX_CHANNELS: u16 = 65535;

/// The number of data channels an SCTP transport allows: the configured
/// one, or the most there can be when 0 is configured.
pub fn max_channels(configured: u16) -> (r: u16)
    ensures
        r == (if configured == 0 { SCTP_MAX_CHANNELS } else { configured }),
{
    if configured == 0 {
        SCTP_MAX_CHANNELS
    } else {
        configured
    }
}

/// No free data channel id is left.
#[derive(Debug, Copy, Clone, PartialEq, Eq, Structural)]
pub enum DataChannelIdError {
    ErrMaxDataChannelID,
}

/// The first id from `id` on, in steps of two, below `max - 1` and not in
/// `used`.
pub open spec fn first_free_id(id: int, max: int, used: Seq<u16>) -> Result<u16, DataChannelIdError>
    decreases max - id,
{
    if id >= max - 1 {
        Err(DataChannelIdError::ErrMaxDataChannelID)
    } else if used.contains(id as u16) {
        first_free_id(id + 2, max, used)
    } else {
        Ok(id as u16)
    }
}

/// Whether `id` is among the used ids.
fn contains_id(used: &[u16], id: u16) -> (r: bool)
    ensures
        r == used@.contains(id),
{
    let mut k: usize = 0;
    while k < used.len()
        invariant
            k <= used@.len(),
            forall|q: int| 0 <= q < k ==> used@[q] != id,
        decreases used@.len() - k,
    {
        if used[k] == id {
            assert(used@[k as int] == id);
            return true;
        }
        k = k + 1;
    }
    false
}

/// The id of a new data channel (RFC 8832 section 6): the DTLS client takes
/// even ids and the server odd ones, the lowest not yet used below the
/// transport's channel limit minus one. `used` holds the ids of the existing
/// channels, `configured_max` the transport's configured limit.
pub fn generate_data_channel_id(is_dtls_client: bool, configured_max: u16, used: &[u16]) -> (r: Result<
    u16,
    DataChannelIdError,
>)
    ensures
        r == first_free_id(
            if is_dtls_client { 0 } else { 1 },
            (if configured_max == 0 { SCTP_MAX_CHANNELS } else { configured_max }) as int,
            used@,
        ),
{
    let mut id: u16 = if is_dtls_client { 0 } else { 1 };
    let max = max_channels(configured_max);
    while id < max - 1
        invariant
            max >= 1,
            max == (if configured_max == 0 { SCTP_MAX_CHANNELS } else { configured_max }),
            first_free_id(if is_dtls_client { 0 } else { 1 }, max as int, used@) == first_free_id(
                id as int,
                max as int,
                used@,
            ),
        decreases max - id,
    {
        let found = contains_id(used, id);
        if found {
            id = id + 2;
        } else {
            return Ok(id);
        }
    }
    Err(DataChannelIdError::ErrMaxDataChannelID)
}

/// RFC 8445 section 6.1.1: when exactly one agent is lite, the full agent
/// controls and the lite one is controlled, whichever made the offer; when
/// both or neither are lite, the offerer controls and the answerer is
/// controlled.
pub proof fn lemma_ice_role_rule(we_offer: bool, remote_is_lite: bool, local_is_lite: bool)
    ensures
        remote_is_lite && !local_is_lite ==> spec_ice_role(we_offer, remote_is_lite, local_is_lite)
            == ICERole::Controlling,
        local_is_lite && !remote_is_lite ==> spec_ice_role(we_offer, remote_is_lite, local_is_lite)
            == ICERole::Controlled,
        remote_is_lite == local_is_lite ==> (spec_ice_role(we_offer, remote_is_lite, local_is_lite)
            == ICERole::Controlling <==> we_offer),
{
}

/// A matched transceiver's direction follows the remote section only as
/// far as it must: it stops receiving only from a peer that does not send
/// (remote recvonly), starts receiving again only for a peer that sends
/// and receives, and is otherwise left as it was. In particular a remote
/// sendrecv section never takes anything away from the transceiver.
pub proof fn lemma_matched_direction_rule(remote: RTPTransceiverDirection, local: RTPTransceiverDirection)
    ensures
        remote == RTPTransceiverDirection::Sendrecv ==> spec_matched_direction(remote, local) == (if local
            == RTPTransceiverDirection::Sendonly {
            RTPTransceiverDirection::Sendrecv
        } else {
            local
        }),
        remote == RTPTransceiverDirection::Recvonly ==> spec_matched_direction(remote, local) == (if local
            == RTPTransceiverDirection::Sendrecv {
            RTPTransceiverDirection::Sendonly
        } else {
            local
        }),
        remote != RTPTransceiverDirection::Sendrecv && remote != RTPTransceiverDirection::Recvonly
            ==> spec_matched_direction(remote, local) == local,
        spec_matched_direction(remote, local) != local ==> (remote == RTPTransceiverDirection::Recvonly
            && local == RTPTransceiverDirection::Sendrecv) || (remote
            == RTPTransceiverDirection::Sendrecv && local == RTPTransceiverDirection::Sendonly),
{
}

/// The first negotiation starts the transports on both sides, the offerer
/// as well as the answerer; a renegotiation never does. The senders start
/// exactly on the offering side, and ICE restarts only when the remote side
/// offers new credentials in a renegotiation.
pub proof fn lemma_remote_description_steps_rule(
    sdp_type: SdpType,
    is_renegotiation: bool,
    credentials_changed: bool,
)
    ensures
        spec_remote_description_steps(sdp_type, is_renegotiation, credentials_changed).start_transports
            == !is_renegotiation,
        spec_remote_description_steps(sdp_type, is_renegotiation, credentials_changed).start_rtp_senders
            == (sdp_type == SdpType::Answer),
        spec_remote_description_steps(sdp_type, is_renegotiation, credentials_changed).restart_ice
            == (is_renegotiation && credentials_changed && sdp_type != SdpType::Answer),
        spec_remote_description_steps(sdp_type, is_renegotiation, credentials_changed).set_remote_credentials
            == (is_renegotiation && credentials_changed),
        spec_remote_description_steps(SdpType::Answer, is_renegotiation, credentials_changed).start_transports
            == spec_remote_description_steps(SdpType::Offer, is_renegotiation, credentials_changed).start_transports,
{
}

} // verus!
