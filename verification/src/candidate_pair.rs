//! ICE candidate pairs and their priority (RFC 5245, section 5.7.2).
use vstd::prelude::*;

verus! {

/// The state of the connectivity check of a candidate pair.
#[derive(PartialEq, Eq, Structural, Debug, Copy, Clone)]
pub enum CandidatePairState {
    /// No check has been performed for this pair.
    Waiting,
    /// A check has been sent and its transaction is in progress.
    InProgress,
    /// The check failed.
    Failed,
    /// The check succeeded.
    Succeeded,
}

impl CandidatePairState {
    /// The state of a new pair.
    pub fn default() -> (r: CandidatePairState)
        ensures
            r == CandidatePairState::Waiting,
    {
        CandidatePairState::Waiting
    }

    /// The name of the state.
    pub fn to_string(&self) -> (r: String)
        ensures
            r@ == match *self {
                CandidatePairState::Waiting => "waiting"@,
                CandidatePairState::InProgress => "in-progress"@,
                CandidatePairState::Failed => "failed"@,
                CandidatePairState::Succeeded => "succeeded"@,
            },
    {
        match self {
            CandidatePairState::Waiting => String::from_str("waiting"),
            CandidatePairState::InProgress => String::from_str("in-progress"),
            CandidatePairState::Failed => String::from_str("failed"),
            CandidatePairState::Succeeded => String::from_str("succeeded"),
        }
    }
}

/// A local and a remote candidate, given by their priorities.
#[derive(Debug, Clone, Copy, PartialEq, Eq)]
pub struct CandidatePair {
    pub ice_role_controlling: bool,
    pub remote_priority: u32,
    pub local_priority: u32,
    pub binding_request_count: u16,
    pub state: CandidatePairState,
    pub nominated: bool,
}

/// The pair priority of RFC 5245, section 5.7.2: with G the priority of
/// the controlling agent's candidate and D the controlled one's,
/// 2^32 * MIN(G,D) + 2 * MAX(G,D) + (G > D ? 1 : 0), in 64-bit arithmetic
/// (taken modulo 2^64 where it does not fit, when both are near 2^32).
pub open spec fn pair_priority(controlling: bool, local: u32, remote: u32) -> int {
    let g = if controlling { local } else { remote };
    let d = if controlling { remote } else { local };
    let mn = if g < d { g } else { d };
    let mx = if g < d { d } else { g };
    (4294967296 * mn + 2 * mx + if g > d { 1int } else { 0int }) % 18446744073709551616
}

impl CandidatePair {
    /// A new pair in the waiting state.
    pub fn new(local_priority: u32, remote_priority: u32, controlling: bool) -> (r: CandidatePair)
        ensures
            r.ice_role_controlling == controlling,
            r.local_priority == local_priority,
            r.remote_priority == remote_priority,
            r.state == CandidatePairState::Waiting,
            r.binding_request_count == 0,
            !r.nominated,
    {
        CandidatePair {
            ice_role_controlling: controlling,
            remote_priority,
            local_priority,
            state: CandidatePairState::Waiting,
            binding_request_count: 0,
            nominated: false,
        }
    }

    /// The priority of the pair.
    pub fn priority(&self) -> (r: u64)
        ensures
            r == pair_priority(self.ice_role_controlling, self.local_priority, self.remote_priority),
    {
        let (g, d) = if self.ice_role_controlling {
            (self.local_priority, self.remote_priority)
        } else {
            (self.remote_priority, self.local_priority)
        };
        let mn: u64 = if g < d { g as u64 } else { d as u64 };
        let mx: u64 = if g < d { d as u64 } else { g as u64 };
        let extra: u64 = if g > d { 1 } else { 0 };
        proof {
            assert(mn * 4294967296 <= 18446744069414584320) by (nonlinear_arith)
                requires
                    mn <= 4294967295,
            ;
        }
        let high: u64 = mn * 4294967296;
        let low: u64 = 2 * mx + extra;
        let r = high.wrapping_add(low);
        assert(r == (high + low) % 18446744073709551616);
        r
    }
}

/// The controlling agent and the controlled agent, each seeing the other's
/// candidate as remote, compute the same priority for a pair.
pub proof fn lemma_priority_symmetric(local: u32, remote: u32)
    ensures
        pair_priority(true, local, remote) == pair_priority(false, remote, local),
{
}

} // verus!
