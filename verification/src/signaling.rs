//! The signaling state of a peer connection and what setting a local or
//! remote description does to it: the offer/answer exchange moves the
//! state and the pending and current descriptions.
use vstd::prelude::*;

verus! {

/// The signaling state of a peer connection.
#[derive(Debug, Clone, Copy, PartialEq, Eq, Structural)]
pub enum SignalingState {
    Unspecified,
    Stable,
    HaveLocalOffer,
    HaveRemoteOffer,
    HaveLocalPranswer,
    HaveRemotePranswer,
    Closed,
}

/// The type of a session description.
#[derive(Debug, Clone, Copy, PartialEq, Eq, Structural)]
pub enum SdpType {
    Unspecified,
    Offer,
    Pranswer,
    Answer,
    Rollback,
}

/// Whether a description is being set as the local or the remote one.
#[derive(Debug, Clone, Copy, PartialEq, Eq, Structural)]
pub enum StateChangeOp {
    SetLocal,
    SetRemote,
}

/// Why a description could not be set.
#[derive(Debug, Clone, Copy, PartialEq, Eq, Structural)]
pub enum SignalingError {
    ErrConnectionClosed,
    ErrPeerConnSDPTypeInvalidValue,
    ErrSDPDoesNotMatchOffer,
    ErrSDPDoesNotMatchAnswer,
    ErrPeerConnStateChangeInvalid,
    ErrSignalingStateCannotRollback,
    ErrSignalingStateProposedTransitionInvalid,
}

/// The transitions of the offer/answer exchange: from `cur`, setting a
/// description of type `t` by `op` may lead to `next`.
pub open spec fn spec_check_next_signaling_state(
    cur: SignalingState,
    next: SignalingState,
    op: StateChangeOp,
    t: SdpType,
) -> Result<SignalingState, SignalingError> {
    if t == SdpType::Rollback && cur == SignalingState::Stable {
        Err(SignalingError::ErrSignalingStateCannotRollback)
    } else if match cur {
        SignalingState::Stable => t == SdpType::Offer && ((op == StateChangeOp::SetLocal && next
            == SignalingState::HaveLocalOffer) || (op == StateChangeOp::SetRemote && next
            == SignalingState::HaveRemoteOffer)),
        SignalingState::HaveLocalOffer => op == StateChangeOp::SetRemote && ((t == SdpType::Answer
            && next == SignalingState::Stable) || (t == SdpType::Pranswer && next
            == SignalingState::HaveRemotePranswer)),
        SignalingState::HaveRemotePranswer => op == StateChangeOp::SetRemote && t
            == SdpType::Answer && next == SignalingState::Stable,
        SignalingState::HaveRemoteOffer => op == StateChangeOp::SetLocal && ((t == SdpType::Answer
            && next == SignalingState::Stable) || (t == SdpType::Pranswer && next
            == SignalingState::HaveLocalPranswer)),
        SignalingState::HaveLocalPranswer => op == StateChangeOp::SetLocal && t == SdpType::Answer
            && next == SignalingState::Stable,
        _ => false,
    } {
        Ok(next)
    } else {
        Err(SignalingError::ErrSignalingStateProposedTransitionInvalid)
    }
}

/// Checks that setting a description of type `t` by `op` may move the
/// signaling state from `cur` to `next`.
pub fn check_next_signaling_state(
    cur: SignalingState,
    next: SignalingState,
    op: StateChangeOp,
    t: SdpType,
) -> (r: Result<SignalingState, SignalingError>)
    ensures
        r == spec_check_next_signaling_state(cur, next, op, t),
        cur == SignalingState::HaveRemotePranswer && op == StateChangeOp::SetRemote && t
            == SdpType::Answer && next == SignalingState::Stable ==> r == Ok::<
            SignalingState,
            SignalingError,
        >(SignalingState::Stable),
        cur == SignalingState::HaveLocalPranswer && op == StateChangeOp::SetLocal && t
            == SdpType::Answer && next == SignalingState::Stable ==> r == Ok::<
            SignalingState,
            SignalingError,
        >(SignalingState::Stable),
{
    if t == SdpType::Rollback && cur == SignalingState::Stable {
        return Err(SignalingError::ErrSignalingStateCannotRollback);
    }
    let ok = match cur {
        SignalingState::Stable => {
            match op {
                StateChangeOp::SetLocal => t == SdpType::Offer && next
                    == SignalingState::HaveLocalOffer,
                StateChangeOp::SetRemote => t == SdpType::Offer && next
                    == SignalingState::HaveRemoteOffer,
            }
        },
        SignalingState::HaveLocalOffer => {
            op == StateChangeOp::SetRemote && ((t == SdpType::Answer && next
                == SignalingState::Stable) || (t == SdpType::Pranswer && next
                == SignalingState::HaveRemotePranswer))
        },
        SignalingState::HaveRemotePranswer => {
            op == StateChangeOp::SetRemote && t == SdpType::Answer && next
                == SignalingState::Stable
        },
        SignalingState::HaveRemoteOffer => {
            op == StateChangeOp::SetLocal && ((t == SdpType::Answer && next
                == SignalingState::Stable) || (t == SdpType::Pranswer && next
                == SignalingState::HaveLocalPranswer))
        },
        SignalingState::HaveLocalPranswer => {
            op == StateChangeOp::SetLocal && t == SdpType::Answer && next
                == SignalingState::Stable
        },
        _ => false,
    };
    if ok {
        Ok(next)
    } else {
        Err(SignalingError::ErrSignalingStateProposedTransitionInvalid)
    }
}

/// A session description: its type and its text.
#[derive(Debug)]
pub struct SessionDescription {
    pub sdp_type: SdpType,
    pub sdp: String,
}

/// A description as its type and its text.
pub type DescView = (SdpType, Seq<char>);

impl View for SessionDescription {
    type V = DescView;

    open spec fn view(&self) -> DescView {
        (self.sdp_type, self.sdp@)
    }
}

impl SessionDescription {
    /// A copy of the description.
    pub fn duplicate(&self) -> (r: SessionDescription)
        ensures
            r@ == self@,
    {
        SessionDescription { sdp_type: self.sdp_type, sdp: self.sdp.clone() }
    }
}

/// The signaling state with the pending and current descriptions of both
/// sides.
#[derive(Debug)]
pub struct Signaling {
    pub state: SignalingState,
    pub pending_local_description: Option<SessionDescription>,
    pub pending_remote_description: Option<SessionDescription>,
    pub current_local_description: Option<SessionDescription>,
    pub current_remote_description: Option<SessionDescription>,
}

/// The signaling state and the four descriptions as plain values.
pub struct SignalingView {
    pub state: SignalingState,
    pub pending_local: Option<DescView>,
    pub pending_remote: Option<DescView>,
    pub current_local: Option<DescView>,
    pub current_remote: Option<DescView>,
}

/// A description slot as a plain value.
pub open spec fn slot(d: Option<SessionDescription>) -> Option<DescView> {
    match d {
        Some(x) => Some(x@),
        None => None,
    }
}

impl View for Signaling {
    type V = SignalingView;

    open spec fn view(&self) -> SignalingView {
        SignalingView {
            state: self.state,
            pending_local: slot(self.pending_local_description),
            pending_remote: slot(self.pending_remote_description),
            current_local: slot(self.current_local_description),
            current_remote: slot(self.current_remote_description),
        }
    }
}

/// The state that a description of type `t` set by `op` aims at.
pub open spec fn target_state(op: StateChangeOp, t: SdpType) -> SignalingState {
    match (op, t) {
        (StateChangeOp::SetLocal, SdpType::Offer) => SignalingState::HaveLocalOffer,
        (StateChangeOp::SetLocal, SdpType::Pranswer) => SignalingState::HaveLocalPranswer,
        (StateChangeOp::SetRemote, SdpType::Offer) => SignalingState::HaveRemoteOffer,
        (StateChangeOp::SetRemote, SdpType::Pranswer) => SignalingState::HaveRemotePranswer,
        _ => SignalingState::Stable,
    }
}

/// What setting the description `sd` by `op` does: `is_closed` tells
/// whether the connection is closed, `last_offer` and `last_answer` are the
/// texts this side last created. A local offer, answer or provisional
/// answer must be the one last created; the transition must be allowed.
/// On success the state moves and the descriptions move as the exchange
/// says; on failure nothing changes.
pub open spec fn spec_set_description(
    m: SignalingView,
    is_closed: bool,
    sd: DescView,
    op: StateChangeOp,
    last_offer: Seq<char>,
    last_answer: Seq<char>,
) -> Result<SignalingView, SignalingError> {
    let t = sd.0;
    if is_closed {
        Err(SignalingError::ErrConnectionClosed)
    } else if t == SdpType::Unspecified {
        Err(SignalingError::ErrPeerConnSDPTypeInvalidValue)
    } else if op == StateChangeOp::SetLocal && t == SdpType::Offer && sd.1 != last_offer {
        Err(SignalingError::ErrSDPDoesNotMatchOffer)
    } else if op == StateChangeOp::SetLocal && (t == SdpType::Answer || t == SdpType::Pranswer)
        && sd.1 != last_answer {
        Err(SignalingError::ErrSDPDoesNotMatchAnswer)
    } else {
        match spec_check_next_signaling_state(m.state, target_state(op, t), op, t) {
            Err(e) => Err(e),
            Ok(next) => Ok(
                match (op, t) {
                    (StateChangeOp::SetLocal, SdpType::Answer) => SignalingView {
                        state: next,
                        pending_local: None,
                        pending_remote: None,
                        current_local: Some(sd),
                        current_remote: m.pending_remote,
                    },
                    (StateChangeOp::SetRemote, SdpType::Answer) => SignalingView {
                        state: next,
                        pending_local: None,
                        pending_remote: None,
                        current_local: m.pending_local,
                        current_remote: Some(sd),
                    },
                    (StateChangeOp::SetLocal, SdpType::Rollback) => SignalingView {
                        state: next,
                        pending_local: None,
                        ..m
                    },
                    (StateChangeOp::SetRemote, SdpType::Rollback) => SignalingView {
                        state: next,
                        pending_remote: None,
                        ..m
                    },
                    (StateChangeOp::SetLocal, _) => SignalingView {
                        state: next,
                        pending_local: Some(sd),
                        ..m
                    },
                    (StateChangeOp::SetRemote, _) => SignalingView {
                        state: next,
                        pending_remote: Some(sd),
                        ..m
                    },
                },
            ),
        }
    }
}

fn chars_of_string_eq(a: &String, b: &str) -> (r: bool)
    ensures
        r == (a@ == b@),
{
    crate::sdp::text::str_eq(a.as_str(), b)
}

impl Signaling {
    /// A connection in the stable state with no descriptions.
    pub fn new() -> (r: Signaling)
        ensures
            r@ == (SignalingView {
                state: SignalingState::Stable,
                pending_local: None,
                pending_remote: None,
                current_local: None,
                current_remote: None,
            }),
    {
        Signaling {
            state: SignalingState::Stable,
            pending_local_description: None,
            pending_remote_description: None,
            current_local_description: None,
            current_remote_description: None,
        }
    }

    /// Sets a local or remote description, as `spec_set_description` says.
    /// On success, whether the connection is now stable, which is when the
    /// caller is to check whether negotiation is needed.
    pub fn set_description(
        &mut self,
        is_closed: bool,
        sd: &SessionDescription,
        op: StateChangeOp,
        last_offer: &str,
        last_answer: &str,
    ) -> (r: Result<bool, SignalingError>)
        ensures
            match spec_set_description(old(self)@, is_closed, sd@, op, last_offer@, last_answer@) {
                Ok(m) => r == Ok::<bool, SignalingError>(m.state == SignalingState::Stable)
                    && final(self)@ == m,
                Err(e) => r == Err::<bool, SignalingError>(e) && final(self)@ == old(self)@,
            },
    {
        if is_closed {
            return Err(SignalingError::ErrConnectionClosed);
        }
        let t = sd.sdp_type;
        if t == SdpType::Unspecified {
            return Err(SignalingError::ErrPeerConnSDPTypeInvalidValue);
        }
        if op == StateChangeOp::SetLocal && t == SdpType::Offer && !chars_of_string_eq(
            &sd.sdp,
            last_offer,
        ) {
            return Err(SignalingError::ErrSDPDoesNotMatchOffer);
        }
        if op == StateChangeOp::SetLocal && (t == SdpType::Answer || t == SdpType::Pranswer)
            && !chars_of_string_eq(&sd.sdp, last_answer) {
            return Err(SignalingError::ErrSDPDoesNotMatchAnswer);
        }
        let target = match (op, t) {
            (StateChangeOp::SetLocal, SdpType::Offer) => SignalingState::HaveLocalOffer,
            (StateChangeOp::SetLocal, SdpType::Pranswer) => SignalingState::HaveLocalPranswer,
            (StateChangeOp::SetRemote, SdpType::Offer) => SignalingState::HaveRemoteOffer,
            (StateChangeOp::SetRemote, SdpType::Pranswer) => SignalingState::HaveRemotePranswer,
            _ => SignalingState::Stable,
        };
        let next = match check_next_signaling_state(self.state, target, op, t) {
            Ok(n) => n,
            Err(e) => return Err(e),
        };
        match (op, t) {
            (StateChangeOp::SetLocal, SdpType::Answer) => {
                let pending_remote = self.pending_remote_description.take();
                self.pending_local_description = None;
                self.current_local_description = Some(sd.duplicate());
                self.current_remote_description = pending_remote;
            },
            (StateChangeOp::SetRemote, SdpType::Answer) => {
                let pending_local = self.pending_local_description.take();
                self.pending_remote_description = None;
                self.current_remote_description = Some(sd.duplicate());
                self.current_local_description = pending_local;
            },
            (StateChangeOp::SetLocal, SdpType::Rollback) => {
                self.pending_local_description = None;
            },
            (StateChangeOp::SetRemote, SdpType::Rollback) => {
                self.pending_remote_description = None;
            },
            (StateChangeOp::SetLocal, _) => {
                self.pending_local_description = Some(sd.duplicate());
            },
            (StateChangeOp::SetRemote, _) => {
                self.pending_remote_description = Some(sd.duplicate());
            },
        }
        self.state = next;
        Ok(next == SignalingState::Stable)
    }
}

/// A full exchange: after a stable connection sets its own offer (the one it
/// created) and then the peer's answer, it is stable again, with the offer
/// as its current local description, the answer as its current remote one,
/// and nothing pending.
pub proof fn lemma_offer_answer(
    m: SignalingView,
    offer: Seq<char>,
    answer: DescView,
    last_answer: Seq<char>,
)
    requires
        m.state == SignalingState::Stable,
        answer.0 == SdpType::Answer,
    ensures
        spec_set_description(m, false, (SdpType::Offer, offer), StateChangeOp::SetLocal, offer, last_answer)
            matches Ok(m1) && m1.state == SignalingState::HaveLocalOffer && spec_set_description(
            m1,
            false,
            answer,
            StateChangeOp::SetRemote,
            offer,
            last_answer,
        ) == Ok::<SignalingView, SignalingError>(
            SignalingView {
                state: SignalingState::Stable,
                pending_local: None,
                pending_remote: None,
                current_local: Some((SdpType::Offer, offer)),
                current_remote: Some(answer),
            },
        ),
{
}

/// The answering side: after a stable connection sets the peer's offer and
/// then its own answer (the one it created), it is stable again, with the
/// answer as its current local description and the offer as its current
/// remote one.
pub proof fn lemma_answer_offer(
    m: SignalingView,
    offer: DescView,
    answer: Seq<char>,
    last_offer: Seq<char>,
)
    requires
        m.state == SignalingState::Stable,
        offer.0 == SdpType::Offer,
    ensures
        spec_set_description(m, false, offer, StateChangeOp::SetRemote, last_offer, answer)
            matches Ok(m1) && m1.state == SignalingState::HaveRemoteOffer && spec_set_description(
            m1,
            false,
            (SdpType::Answer, answer),
            StateChangeOp::SetLocal,
            last_offer,
            answer,
        ) == Ok::<SignalingView, SignalingError>(
            SignalingView {
                state: SignalingState::Stable,
                pending_local: None,
                pending_remote: None,
                current_local: Some((SdpType::Answer, answer)),
                current_remote: Some(offer),
            },
        ),
{
}

/// Nothing can be rolled back from the stable state.
pub proof fn lemma_no_rollback_when_stable(
    m: SignalingView,
    op: StateChangeOp,
    text: Seq<char>,
    last_offer: Seq<char>,
    last_answer: Seq<char>,
)
    requires
        m.state == SignalingState::Stable,
    ensures
        spec_set_description(m, false, (SdpType::Rollback, text), op, last_offer, last_answer)
            == Err::<SignalingView, SignalingError>(SignalingError::ErrSignalingStateCannotRollback),
{
}

/// An exchange with a provisional answer: after a stable connection sets
/// its own offer, then the peer's provisional answer, then the peer's final
/// answer, it is stable again, with the offer as its current local
/// description, the final answer as its current remote one, and nothing
/// pending. The provisional answer leaves it waiting in
/// have-remote-pranswer with the provisional answer pending.
pub proof fn lemma_offer_pranswer_answer(
    m: SignalingView,
    offer: Seq<char>,
    pranswer: DescView,
    answer: DescView,
    last_answer: Seq<char>,
)
    requires
        m.state == SignalingState::Stable,
        pranswer.0 == SdpType::Pranswer,
        answer.0 == SdpType::Answer,
    ensures
        spec_set_description(m, false, (SdpType::Offer, offer), StateChangeOp::SetLocal, offer, last_answer)
            matches Ok(m1) && spec_set_description(
            m1,
            false,
            pranswer,
            StateChangeOp::SetRemote,
            offer,
            last_answer,
        ) matches Ok(m2) && m2.state == SignalingState::HaveRemotePranswer && m2.pending_remote
            == Some(pranswer) && spec_set_description(
            m2,
            false,
            answer,
            StateChangeOp::SetRemote,
            offer,
            last_answer,
        ) == Ok::<SignalingView, SignalingError>(
            SignalingView {
                state: SignalingState::Stable,
                pending_local: None,
                pending_remote: None,
                current_local: Some((SdpType::Offer, offer)),
                current_remote: Some(answer),
            },
        ),
{
}

/// The answering side with a provisional answer: after a stable connection
/// sets the peer's offer, then its own provisional answer, then its own
/// final answer (each the one it created), it is stable again, with the
/// final answer as its current local description and the offer as its
/// current remote one.
pub proof fn lemma_answer_pranswer_answer(
    m: SignalingView,
    offer: DescView,
    pranswer: Seq<char>,
    answer: Seq<char>,
    last_offer: Seq<char>,
)
    requires
        m.state == SignalingState::Stable,
        offer.0 == SdpType::Offer,
    ensures
        spec_set_description(m, false, offer, StateChangeOp::SetRemote, last_offer, pranswer)
            matches Ok(m1) && spec_set_description(
            m1,
            false,
            (SdpType::Pranswer, pranswer),
            StateChangeOp::SetLocal,
            last_offer,
            pranswer,
        ) matches Ok(m2) && m2.state == SignalingState::HaveLocalPranswer && spec_set_description(
            m2,
            false,
            (SdpType::Answer, answer),
            StateChangeOp::SetLocal,
            last_offer,
            answer,
        ) == Ok::<SignalingView, SignalingError>(
            SignalingView {
                state: SignalingState::Stable,
                pending_local: None,
                pending_remote: None,
                current_local: Some((SdpType::Answer, answer)),
                current_remote: Some(offer),
            },
        ),
{
}

/// A final answer ends a provisional one: from have-remote-pranswer a
/// remote answer, and from have-local-pranswer a local answer, lead to
/// stable, whatever the descriptions; a further offer does not.
pub proof fn lemma_pranswer_then_answer(op: StateChangeOp, next: SignalingState)
    ensures
        spec_check_next_signaling_state(
            SignalingState::HaveRemotePranswer,
            SignalingState::Stable,
            StateChangeOp::SetRemote,
            SdpType::Answer,
        ) == Ok::<SignalingState, SignalingError>(SignalingState::Stable),
        spec_check_next_signaling_state(
            SignalingState::HaveLocalPranswer,
            SignalingState::Stable,
            StateChangeOp::SetLocal,
            SdpType::Answer,
        ) == Ok::<SignalingState, SignalingError>(SignalingState::Stable),
        spec_check_next_signaling_state(SignalingState::HaveRemotePranswer, next, op, SdpType::Offer)
            is Err,
        spec_check_next_signaling_state(SignalingState::HaveLocalPranswer, next, op, SdpType::Offer)
            is Err,
{
}

} // verus!
