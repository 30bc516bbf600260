//! Per-SSRC state of an SRTP context: the rollover counter of RTP sequence
//! numbers and the SRTCP index.
use vstd::prelude::*;
use std::collections::HashMap;
use super::cipher::CipherAesCmHmacSha1;
use super::cipher::SessionKeys;
use super::{ProtectionProfile, SrtpError};

verus! {

broadcast use vstd::std_specs::hash::group_hash_axioms;

/// How far a sequence number may be out of order around a rollover.
pub const MAX_ROC_DISORDER: u16 = 100;
/// The largest RTP sequence number.
pub const MAX_SEQUENCE_NUMBER: u16 = 65535;

/// Encrypt/decrypt state for a single SRTP SSRC.
#[derive(Debug, Clone, Copy, PartialEq, Eq)]
pub struct SrtpSsrcState {
    pub ssrc: u32,
    pub rollover_counter: u32,
    pub rollover_has_processed: bool,
    pub last_sequence_number: u16,
}

/// Encrypt/decrypt state for a single SRTCP SSRC.
#[derive(Debug, Clone, Copy, PartialEq, Eq)]
pub struct SrtcpSsrcState {
    pub srtcp_index: u32,
    pub ssrc: u32,
}

/// How the rollover counter moves for an incoming sequence number.
pub enum RocStep {
    Keep,
    Increment,
    Decrement,
}

impl SrtpSsrcState {
    /// A fresh state for `ssrc`.
    pub open spec fn fresh(ssrc: u32) -> SrtpSsrcState {
        SrtpSsrcState {
            ssrc,
            rollover_counter: 0,
            rollover_has_processed: false,
            last_sequence_number: 0,
        }
    }

    /// The move of the rollover counter for `sequence_number` (RFC 3550,
    /// appendix A.1): up when the sequence wrapped to 0 or jumped from near
    /// the top to near 0, down when a late packet from before the wrap arrives.
    pub open spec fn roc_step(self, sequence_number: u16) -> RocStep {
        if !self.rollover_has_processed {
            RocStep::Keep
        } else if sequence_number == 0 {
            if self.last_sequence_number > MAX_ROC_DISORDER {
                RocStep::Increment
            } else {
                RocStep::Keep
            }
        } else if self.last_sequence_number < MAX_ROC_DISORDER && sequence_number > (
        MAX_SEQUENCE_NUMBER - MAX_ROC_DISORDER) {
            RocStep::Decrement
        } else if sequence_number < MAX_ROC_DISORDER && self.last_sequence_number > (
        MAX_SEQUENCE_NUMBER - MAX_ROC_DISORDER) {
            RocStep::Increment
        } else {
            RocStep::Keep
        }
    }

    /// The counter does not run past either end of its range.
    pub open spec fn roc_step_fits(self, sequence_number: u16) -> bool {
        match self.roc_step(sequence_number) {
            RocStep::Increment => self.rollover_counter < u32::MAX,
            RocStep::Decrement => self.rollover_counter > 0,
            RocStep::Keep => true,
        }
    }

    /// The rollover counter after the step for `sequence_number`.
    pub open spec fn spec_next_roc(self, sequence_number: u16) -> u32 {
        match self.roc_step(sequence_number) {
            RocStep::Increment => (self.rollover_counter + 1) as u32,
            RocStep::Decrement => (self.rollover_counter - 1) as u32,
            RocStep::Keep => self.rollover_counter,
        }
    }

    /// The rollover counter that `sequence_number` would be protected with.
    pub fn next_rollover_count(&self, sequence_number: u16) -> (r: u32)
        requires
            self.roc_step_fits(sequence_number),
        ensures
            r == self.spec_next_roc(sequence_number),
    {
        let mut roc = self.rollover_counter;
        if !self.rollover_has_processed {
        } else if sequence_number == 0 {
            if self.last_sequence_number > MAX_ROC_DISORDER {
                roc += 1;
            }
        } else if self.last_sequence_number < MAX_ROC_DISORDER && sequence_number > (
        MAX_SEQUENCE_NUMBER - MAX_ROC_DISORDER) {
            roc -= 1;
        } else if sequence_number < MAX_ROC_DISORDER && self.last_sequence_number > (
        MAX_SEQUENCE_NUMBER - MAX_ROC_DISORDER) {
            roc += 1;
        }
        roc
    }

    /// Takes `sequence_number` into account: moves the rollover counter to
    /// the value `next_rollover_count` gives and records the number.
    pub fn update_rollover_count(&mut self, sequence_number: u16)
        requires
            old(self).roc_step_fits(sequence_number),
        ensures
            final(self).rollover_counter == old(self).spec_next_roc(sequence_number),
            final(self).last_sequence_number == sequence_number,
            final(self).rollover_has_processed,
            final(self).ssrc == old(self).ssrc,
    {
        if !self.rollover_has_processed {
            self.rollover_has_processed = true;
        } else if sequence_number == 0 {
            if self.last_sequence_number > MAX_ROC_DISORDER {
                self.rollover_counter += 1;
            }
        } else if self.last_sequence_number < MAX_ROC_DISORDER && sequence_number > (
        MAX_SEQUENCE_NUMBER - MAX_ROC_DISORDER) {
            self.rollover_counter -= 1;
        } else if sequence_number < MAX_ROC_DISORDER && self.last_sequence_number > (
        MAX_SEQUENCE_NUMBER - MAX_ROC_DISORDER) {
            self.rollover_counter += 1;
        }
        self.last_sequence_number = sequence_number;
    }
}

/// An SRTP cryptographic context: the session keys and the state of each
/// SSRC seen.
pub struct Context {
    cipher: CipherAesCmHmacSha1,
    srtp_ssrc_states: HashMap<u32, SrtpSsrcState>,
    srtcp_ssrc_states: HashMap<u32, SrtcpSsrcState>,
}

impl Context {
    pub closed spec fn keys(&self) -> SessionKeys {
        self.cipher.keys()
    }

    /// The state of each SRTP SSRC.
    pub closed spec fn srtp_states(&self) -> Map<u32, SrtpSsrcState> {
        self.srtp_ssrc_states@
    }

    /// The state of each SRTCP SSRC.
    pub closed spec fn srtcp_states(&self) -> Map<u32, SrtcpSsrcState> {
        self.srtcp_ssrc_states@
    }

    /// Creates a context for `profile`; the master key and salt must have the
    /// profile's lengths, and only AES-CM with HMAC-SHA1 is supported.
    pub fn new(master_key: &[u8], master_salt: &[u8], profile: ProtectionProfile) -> (r: Result<
        Context,
        SrtpError,
    >)
        ensures
            master_key@.len() != 16 ==> r == Err::<Context, SrtpError>(
                SrtpError::ErrShortSrtpMasterKey,
            ),
            master_key@.len() == 16 && master_salt@.len() != (match profile {
                ProtectionProfile::Aes128CmHmacSha1_80 => 14nat,
                ProtectionProfile::AeadAes128Gcm => 12nat,
            }) ==> r == Err::<Context, SrtpError>(SrtpError::ErrShortSrtpMasterSalt),
            master_key@.len() == 16 && master_salt@.len() == 12 && profile
                == ProtectionProfile::AeadAes128Gcm ==> r == Err::<Context, SrtpError>(
                SrtpError::ErrNoSuchSrtpProfile,
            ),
            master_key@.len() == 16 && master_salt@.len() == 14 && profile
                == ProtectionProfile::Aes128CmHmacSha1_80 ==> (r matches Ok(c) && c.keys()
                == SessionKeys::derived(master_key@, master_salt@) && c.keys().well_formed()
                && c.srtp_states() == Map::<u32, SrtpSsrcState>::empty() && c.srtcp_states()
                == Map::<u32, SrtcpSsrcState>::empty()),
    {
        let key_len = profile.key_len();
        let salt_len = profile.salt_len();
        if master_key.len() != key_len {
            return Err(SrtpError::ErrShortSrtpMasterKey);
        } else if master_salt.len() != salt_len {
            return Err(SrtpError::ErrShortSrtpMasterSalt);
        }
        let cipher = match profile {
            ProtectionProfile::Aes128CmHmacSha1_80 => CipherAesCmHmacSha1::new(
                master_key,
                master_salt,
            )?,
            ProtectionProfile::AeadAes128Gcm => {
                return Err(SrtpError::ErrNoSuchSrtpProfile);
            },
        };
        Ok(Context { cipher, srtp_ssrc_states: HashMap::new(), srtcp_ssrc_states: HashMap::new() })
    }

    /// The SRTP rollover counter of `ssrc`, if the SSRC was seen.
    pub fn get_roc(&self, ssrc: u32) -> (r: Option<u32>)
        ensures
            r == (if self.srtp_states().contains_key(ssrc) {
                Some(self.srtp_states()[ssrc].rollover_counter)
            } else {
                None
            }),
    {
        match self.srtp_ssrc_states.get(&ssrc) {
            Some(s) => Some(s.rollover_counter),
            None => None,
        }
    }

    /// Sets the SRTP rollover counter of `ssrc`, creating its state if needed.
    pub fn set_roc(&mut self, ssrc: u32, roc: u32)
        ensures
            final(self).keys() == old(self).keys(),
            final(self).srtcp_states() == old(self).srtcp_states(),
            final(self).srtp_states() == old(self).srtp_states().insert(
                ssrc,
                SrtpSsrcState {
                    rollover_counter: roc,
                    ..(if old(self).srtp_states().contains_key(ssrc) {
                        old(self).srtp_states()[ssrc]
                    } else {
                        SrtpSsrcState::fresh(ssrc)
                    })
                },
            ),
    {
        let current = match self.srtp_ssrc_states.get(&ssrc) {
            Some(s) => *s,
            None => SrtpSsrcState {
                ssrc,
                rollover_counter: 0,
                rollover_has_processed: false,
                last_sequence_number: 0,
            },
        };
        self.srtp_ssrc_states.insert(ssrc, SrtpSsrcState { rollover_counter: roc, ..current });
    }

    /// The SRTCP index of `ssrc`, if the SSRC was seen.
    pub fn get_index(&self, ssrc: u32) -> (r: Option<u32>)
        ensures
            r == (if self.srtcp_states().contains_key(ssrc) {
                Some(self.srtcp_states()[ssrc].srtcp_index)
            } else {
                None
            }),
    {
        match self.srtcp_ssrc_states.get(&ssrc) {
            Some(s) => Some(s.srtcp_index),
            None => None,
        }
    }

    /// Sets the SRTCP index of `ssrc`, creating its state if needed.
    pub fn set_index(&mut self, ssrc: u32, index: u32)
        ensures
            final(self).keys() == old(self).keys(),
            final(self).srtp_states() == old(self).srtp_states(),
            final(self).srtcp_states() == old(self).srtcp_states().insert(
                ssrc,
                SrtcpSsrcState { srtcp_index: index, ssrc },
            ),
    {
        self.srtcp_ssrc_states.insert(ssrc, SrtcpSsrcState { srtcp_index: index, ssrc });
    }
}

/// Reading the rollover counter of an SSRC gives back the one last set.
pub proof fn lemma_roc_read_after_write(
    before: Map<u32, SrtpSsrcState>,
    after: Map<u32, SrtpSsrcState>,
    ssrc: u32,
    other: u32,
    roc: u32,
)
    requires
        after == before.insert(
            ssrc,
            SrtpSsrcState {
                rollover_counter: roc,
                ..(if before.contains_key(ssrc) {
                    before[ssrc]
                } else {
                    SrtpSsrcState::fresh(ssrc)
                })
            },
        ),
        other != ssrc,
    ensures
        after.contains_key(ssrc),
        after[ssrc].rollover_counter == roc,
        after.contains_key(other) == before.contains_key(other),
        before.contains_key(other) ==> after[other] == before[other],
{
}

} // verus!
