//! SRTP: key derivation, the AES-CM / HMAC-SHA1 cipher and per-SSRC state.
pub mod crypto;
pub mod key_derivation;
pub mod cipher;
pub mod context;

use vstd::prelude::*;

verus! {

/// Errors of SRTP and SRTCP processing.
#[derive(Debug, PartialEq, Eq, Clone, Copy)]
pub enum SrtpError {
    UnsupportedIndexOverKdr,
    ErrTooShortSrtp,
    ErrTooShortSrtcp,
    ErrFailedToVerifyAuthTag,
    ErrShortSrtpMasterKey,
    ErrShortSrtpMasterSalt,
    ErrNoSuchSrtpProfile,
}

/// The SRTP protection profiles.
#[derive(Debug, PartialEq, Eq, Clone, Copy)]
pub enum ProtectionProfile {
    Aes128CmHmacSha1_80,
    AeadAes128Gcm,
}

impl ProtectionProfile {
    /// Length of the master key.
    pub fn key_len(&self) -> (r: usize)
        ensures
            r == 16,
    {
        match self {
            ProtectionProfile::Aes128CmHmacSha1_80 => 16,
            ProtectionProfile::AeadAes128Gcm => 16,
        }
    }

    /// Length of the master salt.
    pub fn salt_len(&self) -> (r: usize)
        ensures
            r == (match *self {
                ProtectionProfile::Aes128CmHmacSha1_80 => 14usize,
                ProtectionProfile::AeadAes128Gcm => 12usize,
            }),
    {
        match self {
            ProtectionProfile::Aes128CmHmacSha1_80 => 14,
            ProtectionProfile::AeadAes128Gcm => 12,
        }
    }

    /// Length of the authentication tag appended to each packet.
    pub fn auth_tag_len(&self) -> (r: usize)
        ensures
            r == (match *self {
                ProtectionProfile::Aes128CmHmacSha1_80 => 10usize,
                ProtectionProfile::AeadAes128Gcm => 16usize,
            }),
    {
        match self {
            ProtectionProfile::Aes128CmHmacSha1_80 => 10,
            ProtectionProfile::AeadAes128Gcm => 16,
        }
    }

    /// Length of the session authentication key.
    pub fn auth_key_len(&self) -> (r: usize)
        ensures
            r == (match *self {
                ProtectionProfile::Aes128CmHmacSha1_80 => 20usize,
                ProtectionProfile::AeadAes128Gcm => 0usize,
            }),
    {
        match self {
            ProtectionProfile::Aes128CmHmacSha1_80 => 20,
            ProtectionProfile::AeadAes128Gcm => 0,
        }
    }
}

} // verus!
