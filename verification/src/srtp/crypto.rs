//! The block cipher, stream cipher and MAC that SRTP is built on, taken from
//! the `aes`, `ctr`, `hmac`, `sha1` and `subtle` crates.
use vstd::prelude::*;
use aes::cipher::{BlockCipherEncrypt, KeyInit, KeyIvInit, StreamCipher};
use hmac::Mac;
use subtle::ConstantTimeEq;

verus! {

/// The AES-128 encryption of the 16-byte `block` under the 16-byte `key`.
pub uninterp spec fn aes128_block(key: Seq<u8>, block: Seq<u8>) -> Seq<u8>;

/// `data` XORed with the AES-128 counter-mode keystream of `key`, starting
/// from the 128-bit big-endian counter `iv`.
pub uninterp spec fn aes128_ctr(key: Seq<u8>, iv: Seq<u8>, data: Seq<u8>) -> Seq<u8>;

/// The HMAC-SHA1 of `msg` under `key`.
pub uninterp spec fn hmac_sha1(key: Seq<u8>, msg: Seq<u8>) -> Seq<u8>;

/// Encrypts one block with `aes::Aes128` (`KeyInit::new_from_slice`, then
/// `BlockCipherEncrypt::encrypt_block`). Claimed: the result is the named
/// AES-128 encryption of the block under the key, and has 16 bytes.
#[verifier::external_body]
pub(crate) fn aes128_encrypt_block(key: &[u8], block: &[u8]) -> (r: Vec<u8>)
    requires
        key@.len() == 16,
        block@.len() == 16,
    ensures
        r@ == aes128_block(key@, block@),
        r@.len() == 16,
{
    let cipher = aes::Aes128::new_from_slice(key).unwrap();
    let mut b = aes::Block::try_from(block).unwrap();
    cipher.encrypt_block(&mut b);
    b.to_vec()
}

/// Applies the keystream of `ctr::Ctr128BE<aes::Aes128>` (built by
/// `KeyIvInit::new_from_slices`) to a copy of `data` with
/// `StreamCipher::apply_keystream`. Claimed: the result is the named
/// counter-mode transform, as long as `data`, and, since the keystream is
/// XORed in and depends on the key and counter alone, applying the transform
/// to the result gives `data` back. The call does not panic for any `data`
/// and any IV, the all-ones IV included: `Ctr128BE` keeps the IV in its
/// nonce and a block counter of its own, which `from_nonce` starts at 0;
/// `current_block` adds the two with `wrapping_add` (`ctr` 0.10.1,
/// `flavors/ctr128.rs`). Its `remaining` is `u128::MAX` minus that counter,
/// which stays far above `usize::MAX` for any length a slice can have, so
/// `try_into` gives `None`, `remaining_blocks` is `None`, and
/// `check_remaining` (`cipher` 0.5.2, `stream/wrapper.rs`) returns `Ok` at
/// once. The keystream wraps around modulo 2^128, as the SRTP counter does
/// (`tests/srtp.rs` runs it from the all-ones block).
#[verifier::external_body]
pub(crate) fn aes128_ctr_apply(key: &[u8], iv: &[u8], data: &[u8]) -> (r: Vec<u8>)
    requires
        key@.len() == 16,
        iv@.len() == 16,
    ensures
        r@ == aes128_ctr(key@, iv@, data@),
        r@.len() == data@.len(),
        aes128_ctr(key@, iv@, r@) == data@,
{
    let mut stream = ctr::Ctr128BE::<aes::Aes128>::new_from_slices(key, iv).unwrap();
    let mut out = data.to_vec();
    stream.apply_keystream(&mut out);
    out
}

/// Computes `hmac::Hmac<sha1::Sha1>` over `msg` (`KeyInit::new_from_slice`,
/// which takes keys of any length, `Mac::update`, `Mac::finalize`). Claimed:
/// the result is the named HMAC-SHA1 and has the 20 bytes of a SHA-1 digest.
#[verifier::external_body]
pub(crate) fn hmac_sha1_compute(key: &[u8], msg: &[u8]) -> (r: Vec<u8>)
    ensures
        r@ == hmac_sha1(key@, msg@),
        r@.len() == 20,
{
    let mut mac = <hmac::Hmac<sha1::Sha1> as KeyInit>::new_from_slice(key).unwrap();
    mac.update(msg);
    mac.finalize().into_bytes().to_vec()
}

/// Compares two byte strings in constant time with `subtle::ConstantTimeEq`
/// on slices. Claimed: true exactly when they are equal.
#[verifier::external_body]
pub(crate) fn ct_eq_bytes(a: &[u8], b: &[u8]) -> (r: bool)
    ensures
        r == (a@ == b@),
{
    bool::from(a.ct_eq(b))
}

} // verus!
