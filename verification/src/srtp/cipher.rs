//! The AES_CM_128_HMAC_SHA1_80 transform of SRTP and SRTCP packets
//! (RFC 3711): AES counter-mode encryption with a truncated HMAC-SHA1 tag.
use vstd::prelude::*;
use crate::bytes::{be32, read_be32, push_be32, get_be32, slice_to_vec, extend_from};
use super::crypto::{aes128_ctr, hmac_sha1, aes128_ctr_apply, hmac_sha1_compute, ct_eq_bytes};
use super::key_derivation::{counter_block, kdf_output, generate_counter, aes_cm_key_derivation, LABEL_SRTP_ENCRYPTION, LABEL_SRTP_AUTHENTICATION_TAG, LABEL_SRTP_SALT, LABEL_SRTCP_ENCRYPTION, LABEL_SRTCP_AUTHENTICATION_TAG, LABEL_SRTCP_SALT};
use super::SrtpError;

verus! {

/// Length of the truncated authentication tag.
pub const CIPHER_AES_CM_HMAC_SHA1AUTH_TAG_LEN: usize = 10;
/// Length of the SRTCP index field.
pub const SRTCP_INDEX_SIZE: usize = 4;
/// RTCP header length plus SSRC length: the part of an SRTCP packet that
/// stays in the clear.
pub const SRTCP_CLEAR_LEN: usize = 8;
/// Length of the authentication key derived for HMAC-SHA1.
pub const AUTH_KEY_LEN: usize = 20;

/// Session keys of the AES-CM / HMAC-SHA1 transform, derived from a master
/// key and salt.
pub struct CipherAesCmHmacSha1 {
    srtp_session_key: Vec<u8>,
    srtp_session_salt: Vec<u8>,
    srtp_session_auth_tag: Vec<u8>,
    srtcp_session_key: Vec<u8>,
    srtcp_session_salt: Vec<u8>,
    srtcp_session_auth_tag: Vec<u8>,
}

/// The session keys, as byte strings.
pub struct SessionKeys {
    pub srtp_key: Seq<u8>,
    pub srtp_salt: Seq<u8>,
    pub srtp_auth: Seq<u8>,
    pub srtcp_key: Seq<u8>,
    pub srtcp_salt: Seq<u8>,
    pub srtcp_auth: Seq<u8>,
}

impl SessionKeys {
    pub open spec fn well_formed(self) -> bool {
        &&& self.srtp_key.len() == 16
        &&& self.srtcp_key.len() == 16
        &&& self.srtp_salt.len() <= 16
        &&& self.srtcp_salt.len() <= 16
    }

    /// The keys derived from `master_key` and `master_salt`.
    pub open spec fn derived(master_key: Seq<u8>, master_salt: Seq<u8>) -> SessionKeys {
        SessionKeys {
            srtp_key: kdf_output(LABEL_SRTP_ENCRYPTION, master_key, master_salt, master_key.len()),
            srtcp_key: kdf_output(
                LABEL_SRTCP_ENCRYPTION,
                master_key,
                master_salt,
                master_key.len(),
            ),
            srtp_salt: kdf_output(LABEL_SRTP_SALT, master_key, master_salt, master_salt.len()),
            srtcp_salt: kdf_output(LABEL_SRTCP_SALT, master_key, master_salt, master_salt.len()),
            srtp_auth: kdf_output(
                LABEL_SRTP_AUTHENTICATION_TAG,
                master_key,
                master_salt,
                AUTH_KEY_LEN as nat,
            ),
            srtcp_auth: kdf_output(
                LABEL_SRTCP_AUTHENTICATION_TAG,
                master_key,
                master_salt,
                AUTH_KEY_LEN as nat,
            ),
        }
    }

    /// The tag of an SRTP packet: HMAC-SHA1 of the packet followed by the
    /// rollover counter, truncated to 10 bytes.
    pub open spec fn srtp_tag(self, m: Seq<u8>, roc: u32) -> Seq<u8> {
        hmac_sha1(self.srtp_auth, m + be32(roc)).subrange(0, 10)
    }

    /// The tag of an SRTCP packet: its HMAC-SHA1, truncated to 10 bytes.
    pub open spec fn srtcp_tag(self, m: Seq<u8>) -> Seq<u8> {
        hmac_sha1(self.srtcp_auth, m).subrange(0, 10)
    }

    /// An SRTP packet: the header in the clear, the encrypted payload, the tag.
    pub open spec fn encrypt_rtp(
        self,
        header: Seq<u8>,
        sequence_number: u16,
        ssrc: u32,
        payload: Seq<u8>,
        roc: u32,
    ) -> Seq<u8> {
        let iv = counter_block(sequence_number, roc, ssrc, self.srtp_salt);
        let body = header + aes128_ctr(self.srtp_key, iv, payload);
        body + self.srtp_tag(body, roc)
    }

    /// The plain RTP packet of an SRTP packet whose payload starts at
    /// `payload_offset`, if its tag verifies.
    pub open spec fn decrypt_rtp(
        self,
        sequence_number: u16,
        ssrc: u32,
        payload_offset: nat,
        encrypted: Seq<u8>,
        roc: u32,
    ) -> Result<Seq<u8>, SrtpError> {
        if encrypted.len() < 10 {
            Err(SrtpError::ErrTooShortSrtp)
        } else {
            let cipher_text = encrypted.subrange(0, encrypted.len() - 10);
            let actual_tag = encrypted.subrange(encrypted.len() - 10, encrypted.len() as int);
            if actual_tag != self.srtp_tag(cipher_text, roc) {
                Err(SrtpError::ErrFailedToVerifyAuthTag)
            } else {
                let iv = counter_block(sequence_number, roc, ssrc, self.srtp_salt);
                Ok(
                    cipher_text.subrange(0, payload_offset as int) + aes128_ctr(
                        self.srtp_key,
                        iv,
                        cipher_text.subrange(payload_offset as int, cipher_text.len() as int),
                    ),
                )
            }
        }
    }

    /// An SRTCP packet: header and SSRC in the clear, the encrypted rest, the
    /// index with the encryption bit set, the tag.
    pub open spec fn encrypt_rtcp(self, decrypted: Seq<u8>, srtcp_index: u32, ssrc: u32) -> Seq<u8> {
        let iv = counter_block((srtcp_index % 65536) as u16, srtcp_index / 65536, ssrc, self.srtcp_salt);
        let body = decrypted.subrange(0, 8) + aes128_ctr(
            self.srtcp_key,
            iv,
            decrypted.subrange(8, decrypted.len() as int),
        ) + be32(srtcp_index | 0x8000_0000u32);
        body + self.srtcp_tag(body)
    }

    /// The plain RTCP packet of an SRTCP packet: returned as is when its
    /// encryption bit is clear, decrypted when the bit is set and the tag
    /// verifies.
    pub open spec fn decrypt_rtcp(self, encrypted: Seq<u8>, srtcp_index: u32, ssrc: u32) -> Result<
        Seq<u8>,
        SrtpError,
    > {
        if encrypted.len() < 14 {
            Err(SrtpError::ErrTooShortSrtcp)
        } else {
            let tail_offset = encrypted.len() - 14;
            let dst = encrypted.subrange(0, tail_offset);
            if encrypted[tail_offset] / 128 == 0 {
                Ok(dst)
            } else {
                let cipher_text = encrypted.subrange(0, encrypted.len() - 10);
                let actual_tag = encrypted.subrange(encrypted.len() - 10, encrypted.len() as int);
                if actual_tag != self.srtcp_tag(cipher_text) {
                    Err(SrtpError::ErrFailedToVerifyAuthTag)
                } else {
                    let iv = counter_block(
                        (srtcp_index % 65536) as u16,
                        srtcp_index / 65536,
                        ssrc,
                        self.srtcp_salt,
                    );
                    Ok(
                        dst.subrange(0, 8) + aes128_ctr(
                            self.srtcp_key,
                            iv,
                            dst.subrange(8, dst.len() as int),
                        ),
                    )
                }
            }
        }
    }

    /// `decrypt_rtcp` returns without slicing before the clear part: the
    /// packet is short, unencrypted, fails its tag, or leaves room for the
    /// header and SSRC.
    pub open spec fn decrypt_rtcp_defined(self, encrypted: Seq<u8>) -> bool {
        encrypted.len() < 14 || encrypted.len() >= 22 || encrypted[encrypted.len() - 14] / 128 == 0
            || encrypted.subrange(encrypted.len() - 10, encrypted.len() as int) != self.srtcp_tag(
            encrypted.subrange(0, encrypted.len() - 10),
        )
    }

    /// `decrypt_rtp` returns without slicing past the packet: it is short,
    /// fails its tag, or holds the payload offset.
    pub open spec fn decrypt_rtp_defined(self, payload_offset: nat, encrypted: Seq<u8>, roc: u32) -> bool {
        encrypted.len() < 10 || payload_offset + 10 <= encrypted.len() || encrypted.subrange(
            encrypted.len() - 10,
            encrypted.len() as int,
        ) != self.srtp_tag(encrypted.subrange(0, encrypted.len() - 10), roc)
    }
}

/// The SRTCP index carried in a protected packet, without the encryption bit.
pub open spec fn rtcp_index_of(input: Seq<u8>) -> u32 {
    read_be32(input, input.len() - 14) & 0x7FFF_FFFFu32
}

impl CipherAesCmHmacSha1 {
    pub closed spec fn keys(&self) -> SessionKeys {
        SessionKeys {
            srtp_key: self.srtp_session_key@,
            srtp_salt: self.srtp_session_salt@,
            srtp_auth: self.srtp_session_auth_tag@,
            srtcp_key: self.srtcp_session_key@,
            srtcp_salt: self.srtcp_session_salt@,
            srtcp_auth: self.srtcp_session_auth_tag@,
        }
    }

    /// Derives the session keys from a 16-byte master key and a master salt of
    /// at most 16 bytes.
    pub fn new(master_key: &[u8], master_salt: &[u8]) -> (r: Result<Self, SrtpError>)
        requires
            master_key@.len() == 16,
            master_salt@.len() <= 16,
        ensures
            r matches Ok(c) && c.keys() == SessionKeys::derived(master_key@, master_salt@) && c.keys().well_formed(),
    {
        let srtp_session_key = aes_cm_key_derivation(
            LABEL_SRTP_ENCRYPTION,
            master_key,
            master_salt,
            0,
            master_key.len(),
        )?;
        let srtcp_session_key = aes_cm_key_derivation(
            LABEL_SRTCP_ENCRYPTION,
            master_key,
            master_salt,
            0,
            master_key.len(),
        )?;
        let srtp_session_salt = aes_cm_key_derivation(
            LABEL_SRTP_SALT,
            master_key,
            master_salt,
            0,
            master_salt.len(),
        )?;
        let srtcp_session_salt = aes_cm_key_derivation(
            LABEL_SRTCP_SALT,
            master_key,
            master_salt,
            0,
            master_salt.len(),
        )?;
        let srtp_session_auth_tag = aes_cm_key_derivation(
            LABEL_SRTP_AUTHENTICATION_TAG,
            master_key,
            master_salt,
            0,
            AUTH_KEY_LEN,
        )?;
        let srtcp_session_auth_tag = aes_cm_key_derivation(
            LABEL_SRTCP_AUTHENTICATION_TAG,
            master_key,
            master_salt,
            0,
            AUTH_KEY_LEN,
        )?;
        Ok(CipherAesCmHmacSha1 {
            srtp_session_key,
            srtp_session_salt,
            srtp_session_auth_tag,
            srtcp_session_key,
            srtcp_session_salt,
            srtcp_session_auth_tag,
        })
    }

    /// Length of the authentication tag.
    pub fn auth_tag_len(&self) -> (r: usize)
        ensures
            r == 10,
    {
        CIPHER_AES_CM_HMAC_SHA1AUTH_TAG_LEN
    }

    fn generate_srtp_auth_tag(&self, buf: &[u8], roc: u32) -> (r: Vec<u8>)
        ensures
            r@ == self.keys().srtp_tag(buf@, roc),
            r@.len() == 10,
    {
        let mut m: Vec<u8> = Vec::new();
        extend_from(&mut m, buf);
        push_be32(&mut m, roc);
        let code = hmac_sha1_compute(self.srtp_session_auth_tag.as_slice(), m.as_slice());
        slice_to_vec(code.as_slice(), 0, 10)
    }

    fn generate_srtcp_auth_tag(&self, buf: &[u8]) -> (r: Vec<u8>)
        ensures
            r@ == self.keys().srtcp_tag(buf@),
            r@.len() == 10,
    {
        let code = hmac_sha1_compute(self.srtcp_session_auth_tag.as_slice(), buf);
        slice_to_vec(code.as_slice(), 0, 10)
    }

    /// The SRTCP index of a protected packet, without the encryption bit.
    pub fn get_rtcp_index(&self, input: &[u8]) -> (r: u32)
        requires
            input@.len() >= 14,
        ensures
            r == rtcp_index_of(input@),
    {
        let tail_offset = input.len() - (CIPHER_AES_CM_HMAC_SHA1AUTH_TAG_LEN + SRTCP_INDEX_SIZE);
        get_be32(input, tail_offset) & 0x7FFF_FFFF
    }

    /// Protects an RTP packet given as its marshaled `header` and its
    /// `payload`: the payload is encrypted and the tag appended.
    pub fn encrypt_rtp(
        &self,
        header: &[u8],
        sequence_number: u16,
        ssrc: u32,
        payload: &[u8],
        roc: u32,
    ) -> (r: Result<Vec<u8>, SrtpError>)
        requires
            self.keys().well_formed(),
        ensures
            r matches Ok(v) && v@ == self.keys().encrypt_rtp(
                header@,
                sequence_number,
                ssrc,
                payload@,
                roc,
            ) && self.keys().decrypt_rtp(
                sequence_number,
                ssrc,
                header@.len(),
                v@,
                roc,
            ) == Ok::<Seq<u8>, SrtpError>(header@ + payload@),
    {
        let counter = generate_counter(
            sequence_number,
            roc,
            ssrc,
            self.srtp_session_salt.as_slice(),
        )?;
        let enc = aes128_ctr_apply(self.srtp_session_key.as_slice(), counter.as_slice(), payload);
        let mut dst: Vec<u8> = Vec::new();
        extend_from(&mut dst, header);
        extend_from(&mut dst, enc.as_slice());
        let auth_tag = self.generate_srtp_auth_tag(dst.as_slice(), roc);
        let ghost body = dst@;
        extend_from(&mut dst, auth_tag.as_slice());
        proof {
            let e = dst@;
            assert(e.subrange(0, e.len() - 10) =~= body);
            assert(e.subrange(e.len() - 10, e.len() as int) =~= auth_tag@);
            assert(body.subrange(0, header@.len() as int) =~= header@);
            assert(body.subrange(header@.len() as int, body.len() as int) =~= enc@);
        }
        Ok(dst)
    }

    /// Verifies the tag of an SRTP packet and decrypts its payload, which
    /// starts at `payload_offset`.
    pub fn decrypt_rtp(
        &self,
        sequence_number: u16,
        ssrc: u32,
        payload_offset: usize,
        encrypted: &[u8],
        roc: u32,
    ) -> (r: Result<Vec<u8>, SrtpError>)
        requires
            self.keys().well_formed(),
            self.keys().decrypt_rtp_defined(payload_offset as nat, encrypted@, roc),
        ensures
            r matches Ok(v) ==> self.keys().decrypt_rtp(
                sequence_number,
                ssrc,
                payload_offset as nat,
                encrypted@,
                roc,
            ) == Ok::<Seq<u8>, SrtpError>(v@),
            r matches Err(e) ==> self.keys().decrypt_rtp(
                sequence_number,
                ssrc,
                payload_offset as nat,
                encrypted@,
                roc,
            ) == Err::<Seq<u8>, SrtpError>(e),
    {
        if encrypted.len() < CIPHER_AES_CM_HMAC_SHA1AUTH_TAG_LEN {
            return Err(SrtpError::ErrTooShortSrtp);
        }
        let split = encrypted.len() - CIPHER_AES_CM_HMAC_SHA1AUTH_TAG_LEN;
        let actual_tag = slice_to_vec(encrypted, split, encrypted.len());
        let cipher_text = slice_to_vec(encrypted, 0, split);
        let expected_tag = self.generate_srtp_auth_tag(cipher_text.as_slice(), roc);
        if !ct_eq_bytes(actual_tag.as_slice(), expected_tag.as_slice()) {
            return Err(SrtpError::ErrFailedToVerifyAuthTag);
        }
        let counter = generate_counter(
            sequence_number,
            roc,
            ssrc,
            self.srtp_session_salt.as_slice(),
        )?;
        let body = slice_to_vec(cipher_text.as_slice(), payload_offset, cipher_text.len());
        let dec = aes128_ctr_apply(self.srtp_session_key.as_slice(), counter.as_slice(), body.as_slice());
        let mut dst = slice_to_vec(cipher_text.as_slice(), 0, payload_offset);
        extend_from(&mut dst, dec.as_slice());
        Ok(dst)
    }

    /// Protects an RTCP packet: everything after the header and SSRC is
    /// encrypted, the index with the encryption bit is appended, then the tag.
    pub fn encrypt_rtcp(&self, decrypted: &[u8], srtcp_index: u32, ssrc: u32) -> (r: Result<
        Vec<u8>,
        SrtpError,
    >)
        requires
            self.keys().well_formed(),
            decrypted@.len() >= 8,
        ensures
            r matches Ok(v) && v@ == self.keys().encrypt_rtcp(decrypted@, srtcp_index, ssrc)
                && self.keys().decrypt_rtcp(v@, srtcp_index, ssrc) == Ok::<Seq<u8>, SrtpError>(
                decrypted@,
            ) && rtcp_index_of(v@) == srtcp_index & 0x7FFF_FFFFu32,
    {
        let counter = generate_counter(
            (srtcp_index & 0xFFFF) as u16,
            srtcp_index >> 16,
            ssrc,
            self.srtcp_session_salt.as_slice(),
        )?;
        proof {
            assert((srtcp_index & 0xFFFF) as u16 == (srtcp_index % 65536) as u16) by (bit_vector);
            assert(srtcp_index >> 16 == srtcp_index / 65536) by (bit_vector);
        }
        let rest = slice_to_vec(decrypted, SRTCP_CLEAR_LEN, decrypted.len());
        let enc = aes128_ctr_apply(self.srtcp_session_key.as_slice(), counter.as_slice(), rest.as_slice());
        let mut dst = slice_to_vec(decrypted, 0, SRTCP_CLEAR_LEN);
        extend_from(&mut dst, enc.as_slice());
        let flagged = srtcp_index | 0x8000_0000u32;
        push_be32(&mut dst, flagged);
        let auth_tag = self.generate_srtcp_auth_tag(dst.as_slice());
        let ghost body = dst@;
        extend_from(&mut dst, auth_tag.as_slice());
        proof {
            let e = dst@;
            let n = decrypted@.len();
            assert(e.len() == n + 14);
            assert(e.subrange(0, e.len() - 10) =~= body);
            assert(e.subrange(e.len() - 10, e.len() as int) =~= auth_tag@);
            assert(e[n as int] == be32(flagged)[0]);
            assert(flagged / 16777216 >= 128) by (bit_vector)
                requires
                    flagged == srtcp_index | 0x8000_0000u32,
            ;
            let dst_part = e.subrange(0, n as int);
            assert(dst_part.subrange(0, 8) =~= decrypted@.subrange(0, 8));
            assert(dst_part.subrange(8, dst_part.len() as int) =~= enc@);
            assert(decrypted@.subrange(0, 8) + rest@ =~= decrypted@);
            assert(read_be32(e, n as int) == flagged) by {
                assert(e.subrange(n as int, n as int + 4) =~= be32(flagged));
                crate::bytes::lemma_be32_roundtrip(flagged);
            }
            assert(flagged & 0x7FFF_FFFFu32 == srtcp_index & 0x7FFF_FFFFu32) by (bit_vector)
                requires
                    flagged == srtcp_index | 0x8000_0000u32,
            ;
        }
        Ok(dst)
    }

    /// Checks and decrypts an SRTCP packet; one whose encryption bit is clear
    /// is returned without its index and tag.
    pub fn decrypt_rtcp(&self, encrypted: &[u8], srtcp_index: u32, ssrc: u32) -> (r: Result<
        Vec<u8>,
        SrtpError,
    >)
        requires
            self.keys().well_formed(),
            self.keys().decrypt_rtcp_defined(encrypted@),
        ensures
            r matches Ok(v) ==> self.keys().decrypt_rtcp(encrypted@, srtcp_index, ssrc) == Ok::<
                Seq<u8>,
                SrtpError,
            >(v@),
            r matches Err(e) ==> self.keys().decrypt_rtcp(encrypted@, srtcp_index, ssrc) == Err::<
                Seq<u8>,
                SrtpError,
            >(e),
    {
        if encrypted.len() < CIPHER_AES_CM_HMAC_SHA1AUTH_TAG_LEN + SRTCP_INDEX_SIZE {
            return Err(SrtpError::ErrTooShortSrtcp);
        }
        let tail_offset = encrypted.len() - (CIPHER_AES_CM_HMAC_SHA1AUTH_TAG_LEN
            + SRTCP_INDEX_SIZE);
        let dst = slice_to_vec(encrypted, 0, tail_offset);
        let is_encrypted = encrypted[tail_offset] >> 7;
        proof {
            let b = encrypted@[tail_offset as int];
            assert(b >> 7 == b / 128) by (bit_vector);
        }
        if is_encrypted == 0 {
            return Ok(dst);
        }
        let split = encrypted.len() - CIPHER_AES_CM_HMAC_SHA1AUTH_TAG_LEN;
        let actual_tag = slice_to_vec(encrypted, split, encrypted.len());
        let cipher_text = slice_to_vec(encrypted, 0, split);
        let expected_tag = self.generate_srtcp_auth_tag(cipher_text.as_slice());
        if !ct_eq_bytes(actual_tag.as_slice(), expected_tag.as_slice()) {
            return Err(SrtpError::ErrFailedToVerifyAuthTag);
        }
        let counter = generate_counter(
            (srtcp_index & 0xFFFF) as u16,
            srtcp_index >> 16,
            ssrc,
            self.srtcp_session_salt.as_slice(),
        )?;
        proof {
            assert((srtcp_index & 0xFFFF) as u16 == (srtcp_index % 65536) as u16) by (bit_vector);
            assert(srtcp_index >> 16 == srtcp_index / 65536) by (bit_vector);
        }
        let body = slice_to_vec(dst.as_slice(), SRTCP_CLEAR_LEN, dst.len());
        let dec = aes128_ctr_apply(self.srtcp_session_key.as_slice(), counter.as_slice(), body.as_slice());
        let mut out = slice_to_vec(dst.as_slice(), 0, SRTCP_CLEAR_LEN);
        extend_from(&mut out, dec.as_slice());
        Ok(out)
    }
    /// `decrypt_rtp` where it is defined; `None` where the tag verifies but
    /// the payload offset lies past the end of the packet.
    pub fn decrypt_rtp_checked(
        &self,
        sequence_number: u16,
        ssrc: u32,
        payload_offset: usize,
        encrypted: &[u8],
        roc: u32,
    ) -> (r: Option<Result<Vec<u8>, SrtpError>>)
        requires
            self.keys().well_formed(),
        ensures
            !self.keys().decrypt_rtp_defined(payload_offset as nat, encrypted@, roc) ==> r is None,
            self.keys().decrypt_rtp_defined(payload_offset as nat, encrypted@, roc) ==> (r matches Some(
                x,
            ) && match x {
                Ok(v) => self.keys().decrypt_rtp(
                    sequence_number,
                    ssrc,
                    payload_offset as nat,
                    encrypted@,
                    roc,
                ) == Ok::<Seq<u8>, SrtpError>(v@),
                Err(e) => self.keys().decrypt_rtp(
                    sequence_number,
                    ssrc,
                    payload_offset as nat,
                    encrypted@,
                    roc,
                ) == Err::<Seq<u8>, SrtpError>(e),
            }),
    {
        if encrypted.len() >= CIPHER_AES_CM_HMAC_SHA1AUTH_TAG_LEN && encrypted.len()
            - CIPHER_AES_CM_HMAC_SHA1AUTH_TAG_LEN < payload_offset {
            let split = encrypted.len() - CIPHER_AES_CM_HMAC_SHA1AUTH_TAG_LEN;
            let actual_tag = slice_to_vec(encrypted, split, encrypted.len());
            let cipher_text = slice_to_vec(encrypted, 0, split);
            let expected_tag = self.generate_srtp_auth_tag(cipher_text.as_slice(), roc);
            if ct_eq_bytes(actual_tag.as_slice(), expected_tag.as_slice()) {
                return None;
            }
        }
        Some(self.decrypt_rtp(sequence_number, ssrc, payload_offset, encrypted, roc))
    }

    /// `decrypt_rtcp` where it is defined; `None` where an encrypted packet
    /// whose tag verifies is too short to hold the header and SSRC.
    pub fn decrypt_rtcp_checked(&self, encrypted: &[u8], srtcp_index: u32, ssrc: u32) -> (r: Option<
        Result<Vec<u8>, SrtpError>,
    >)
        requires
            self.keys().well_formed(),
        ensures
            !self.keys().decrypt_rtcp_defined(encrypted@) ==> r is None,
            self.keys().decrypt_rtcp_defined(encrypted@) ==> (r matches Some(x) && match x {
                Ok(v) => self.keys().decrypt_rtcp(encrypted@, srtcp_index, ssrc) == Ok::<
                    Seq<u8>,
                    SrtpError,
                >(v@),
                Err(e) => self.keys().decrypt_rtcp(encrypted@, srtcp_index, ssrc) == Err::<
                    Seq<u8>,
                    SrtpError,
                >(e),
            }),
    {
        if encrypted.len() >= 14 && encrypted.len() < 22 && encrypted[encrypted.len() - 14] >= 128 {
            let split = encrypted.len() - CIPHER_AES_CM_HMAC_SHA1AUTH_TAG_LEN;
            let actual_tag = slice_to_vec(encrypted, split, encrypted.len());
            let cipher_text = slice_to_vec(encrypted, 0, split);
            let expected_tag = self.generate_srtcp_auth_tag(cipher_text.as_slice());
            if ct_eq_bytes(actual_tag.as_slice(), expected_tag.as_slice()) {
                return None;
            }
        }
        Some(self.decrypt_rtcp(encrypted, srtcp_index, ssrc))
    }
}

} // verus!
