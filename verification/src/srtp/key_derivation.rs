//! AES-CM key derivation (RFC 3711, section 4.3) and the counter block of
//! AES counter mode (RFC 3711, section 4.1.1).
use vstd::prelude::*;
use crate::bytes::{be16, be32};
use super::crypto::{aes128_block, aes128_encrypt_block};
use super::SrtpError;

verus! {

pub const LABEL_SRTP_ENCRYPTION: u8 = 0x00;
pub const LABEL_SRTP_AUTHENTICATION_TAG: u8 = 0x01;
pub const LABEL_SRTP_SALT: u8 = 0x02;
pub const LABEL_SRTCP_ENCRYPTION: u8 = 0x03;
pub const LABEL_SRTCP_AUTHENTICATION_TAG: u8 = 0x04;
pub const LABEL_SRTCP_SALT: u8 = 0x05;

/// Byte `j` of the master salt, zero past its end.
pub open spec fn salt_byte(salt: Seq<u8>, j: int) -> u8 {
    if j < salt.len() {
        salt[j]
    } else {
        0u8
    }
}

/// The AES input of block `i` of the key derivation: the master salt padded
/// to 16 bytes, with the label XORed into byte 7 and the block index in the
/// last two bytes.
pub open spec fn kdf_input(label: u8, salt: Seq<u8>, i: int) -> Seq<u8> {
    Seq::new(
        16,
        |j: int|
            if j == 14 {
                ((i / 256) % 256) as u8
            } else if j == 15 {
                (i % 256) as u8
            } else if j == 7 {
                salt_byte(salt, j) ^ label
            } else {
                salt_byte(salt, j)
            },
    )
}

/// The first `out_len` bytes of the AES encryptions of the successive
/// derivation blocks.
pub open spec fn kdf_output(label: u8, key: Seq<u8>, salt: Seq<u8>, out_len: nat) -> Seq<u8> {
    Seq::new(out_len, |j: int| aes128_block(key, kdf_input(label, salt, j / 16))[j % 16])
}

/// The counter-mode IV of an SRTP packet: SSRC, rollover counter and sequence
/// number laid out as in RFC 3711, XORed with the session salt.
pub open spec fn counter_block(sequence_number: u16, rollover_counter: u32, ssrc: u32, salt: Seq<u8>) -> Seq<u8> {
    let base = seq![0u8, 0u8, 0u8, 0u8] + be32(ssrc) + be32(rollover_counter) + be16(
        sequence_number,
    ) + seq![0u8, 0u8];
    Seq::new(16, |i: int| base[i] ^ salt_byte(salt, i))
}

/// Derives `out_len` bytes of session key material for `label` from the
/// master key and salt. A nonzero `index_over_kdr` is not supported.
pub fn aes_cm_key_derivation(
    label: u8,
    master_key: &[u8],
    master_salt: &[u8],
    index_over_kdr: usize,
    out_len: usize,
) -> (r: Result<Vec<u8>, SrtpError>)
    requires
        index_over_kdr == 0 ==> master_key@.len() == 16 && master_salt@.len() <= 16 && out_len
            <= usize::MAX - 16,
    ensures
        index_over_kdr != 0 ==> r == Err::<Vec<u8>, SrtpError>(SrtpError::UnsupportedIndexOverKdr),
        index_over_kdr == 0 ==> (r matches Ok(v) && v@ == kdf_output(
            label,
            master_key@,
            master_salt@,
            out_len as nat,
        )),
{
    if index_over_kdr != 0 {
        return Err(SrtpError::UnsupportedIndexOverKdr);
    }
    let n_master_key = master_key.len();
    let n_master_salt = master_salt.len();

    let mut prf_in: Vec<u8> = Vec::new();
    let mut j: usize = 0;
    while j < n_master_key
        invariant
            n_master_key == 16,
            n_master_salt == master_salt@.len() <= 16,
            j <= 16,
            prf_in@.len() == j,
            forall|k: int| 0 <= k < j ==> prf_in@[k] == salt_byte(master_salt@, k),
        decreases 16 - j,
    {
        if j < n_master_salt {
            prf_in.push(master_salt[j]);
        } else {
            prf_in.push(0u8);
        }
        j = j + 1;
    }
    let b7 = prf_in[7] ^ label;
    prf_in.set(7, b7);

    let mut out: Vec<u8> = Vec::new();
    let mut i: usize = 0;
    let mut n: usize = 0;
    while n < out_len
        invariant
            n_master_key == 16,
            master_key@.len() == 16,
            out_len <= usize::MAX - 16,
            n == 16 * i,
            n <= out_len + 15,
            out@.len() == n,
            prf_in@.len() == 16,
            forall|k: int|
                0 <= k < 14 ==> prf_in@[k] == #[trigger] kdf_input(label, master_salt@, 0)[k],
            forall|k: int|
                0 <= k < n ==> out@[k] == aes128_block(
                    master_key@,
                    kdf_input(label, master_salt@, k / 16),
                )[k % 16],
        decreases out_len + 16 - n,
    {
        prf_in.set(14, ((i >> 8) & 0xFF) as u8);
        prf_in.set(15, (i & 0xFF) as u8);
        proof {
            assert(((i >> 8) & 0xFF) as u8 == ((i / 256) % 256) as u8) by (bit_vector);
            assert((i & 0xFF) as u8 == (i % 256) as u8) by (bit_vector);
            let want = kdf_input(label, master_salt@, i as int);
            assert forall|k: int| 0 <= k < 16 implies prf_in@[k] == want[k] by {
                if k < 14 {
                    assert(prf_in@[k] == kdf_input(label, master_salt@, 0)[k]);
                }
            }
            assert(prf_in@ =~= want);
        }
        let block = aes128_encrypt_block(master_key, prf_in.as_slice());
        let ghost before = out@;
        let mut b: usize = 0;
        while b < 16
            invariant
                b <= 16,
                block@.len() == 16,
                out@.len() == n + b,
                out@.subrange(0, n as int) == before,
                forall|k: int| 0 <= k < b ==> out@[n + k] == block@[k],
            decreases 16 - b,
        {
            out.push(block[b]);
            b = b + 1;
        }
        proof {
            assert forall|k: int| 0 <= k < n + 16 implies out@[k] == aes128_block(
                master_key@,
                kdf_input(label, master_salt@, k / 16),
            )[k % 16] by {
                if k < n {
                    assert(out@[k] == before[k]);
                } else {
                    assert((k - n) == k % 16 && k / 16 == i) by {
                        assert(n == 16 * i);
                    }
                    assert(out@[n + (k - n)] == block@[k - n]);
                }
            }
        }
        i = i + 1;
        n = n + 16;
    }
    let mut result: Vec<u8> = Vec::new();
    let mut k: usize = 0;
    while k < out_len
        invariant
            k <= out_len <= out@.len(),
            result@ == kdf_output(label, master_key@, master_salt@, k as nat),
            forall|m: int|
                0 <= m < out@.len() ==> out@[m] == aes128_block(
                    master_key@,
                    kdf_input(label, master_salt@, m / 16),
                )[m % 16],
        decreases out_len - k,
    {
        result.push(out[k]);
        k = k + 1;
        assert(result@ =~= kdf_output(label, master_key@, master_salt@, k as nat));
    }
    Ok(result)
}

/// The counter-mode IV for an SRTP packet index and SSRC, salted with the
/// session salt.
pub fn generate_counter(
    sequence_number: u16,
    rollover_counter: u32,
    ssrc: u32,
    session_salt: &[u8],
) -> (r: Result<Vec<u8>, SrtpError>)
    requires
        session_salt@.len() <= 16,
    ensures
        r matches Ok(v) && v@ == counter_block(sequence_number, rollover_counter, ssrc, session_salt@),
{
    let mut base: Vec<u8> = Vec::new();
    base.push(0u8);
    base.push(0u8);
    base.push(0u8);
    base.push(0u8);
    crate::bytes::push_be32(&mut base, ssrc);
    crate::bytes::push_be32(&mut base, rollover_counter);
    crate::bytes::push_be16(&mut base, sequence_number);
    base.push(0u8);
    base.push(0u8);
    let ghost target_base = seq![0u8, 0u8, 0u8, 0u8] + be32(ssrc) + be32(rollover_counter) + be16(
        sequence_number,
    ) + seq![0u8, 0u8];
    assert(base@ =~= target_base);
    let mut counter: Vec<u8> = Vec::new();
    let mut i: usize = 0;
    while i < 16
        invariant
            i <= 16,
            base@ == target_base,
            base@.len() == 16,
            session_salt@.len() <= 16,
            counter@.len() == i,
            forall|k: int| 0 <= k < i ==> counter@[k] == target_base[k] ^ salt_byte(session_salt@, k),
        decreases 16 - i,
    {
        let s = if i < session_salt.len() { session_salt[i] } else { 0u8 };
        counter.push(base[i] ^ s);
        i = i + 1;
    }
    assert(counter@ =~= counter_block(sequence_number, rollover_counter, ssrc, session_salt@));
    Ok(counter)
}

} // verus!
