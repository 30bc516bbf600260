use aes::cipher::{BlockCipherEncrypt, KeyInit, KeyIvInit, StreamCipher};
use webrtc::srtp::cipher::CipherAesCmHmacSha1;
use webrtc::srtp::context::{Context, SrtpSsrcState};
use webrtc::srtp::key_derivation::{
    aes_cm_key_derivation, generate_counter, LABEL_SRTP_AUTHENTICATION_TAG,
    LABEL_SRTP_ENCRYPTION, LABEL_SRTP_SALT,
};
use webrtc::srtp::{ProtectionProfile, SrtpError};

#[test]
fn test_valid_session_keys() {
    // Key Derivation Test Vectors from https://tools.ietf.org/html/rfc3711#appendix-B.3
    let master_key = vec![
        0xE1, 0xF9, 0x7A, 0x0D, 0x3E, 0x01, 0x8B, 0xE0, 0xD6, 0x4F, 0xA3, 0x2C, 0x06, 0xDE, 0x41,
        0x39,
    ];
    let master_salt = vec![
        0x0E, 0xC6, 0x75, 0xAD, 0x49, 0x8A, 0xFE, 0xEB, 0xB6, 0x96, 0x0B, 0x3A, 0xAB, 0xE6,
    ];

    let expected_session_key = vec![
        0xC6, 0x1E, 0x7A, 0x93, 0x74, 0x4F, 0x39, 0xEE, 0x10, 0x73, 0x4A, 0xFE, 0x3F, 0xF7, 0xA0,
        0x87,
    ];
    let expected_session_salt = vec![
        0x30, 0xCB, 0xBC, 0x08, 0x86, 0x3D, 0x8C, 0x85, 0xD4, 0x9D, 0xB3, 0x4A, 0x9A, 0xE1,
    ];
    let expected_session_auth_tag = vec![
        0xCE, 0xBE, 0x32, 0x1F, 0x6F, 0xF7, 0x71, 0x6B, 0x6F, 0xD4, 0xAB, 0x49, 0xAF, 0x25, 0x6A,
        0x15, 0x6D, 0x38, 0xBA, 0xA4,
    ];

    let session_key = aes_cm_key_derivation(
        LABEL_SRTP_ENCRYPTION,
        &master_key,
        &master_salt,
        0,
        master_key.len(),
    )
    .unwrap();
    assert_eq!(
        session_key, expected_session_key,
        "Session Key:\n{session_key:?} \ndoes not match expected:\n{expected_session_key:?}\nMaster Key:\n{master_key:?}\nMaster Salt:\n{master_salt:?}\n",
    );

    let session_salt = aes_cm_key_derivation(
        LABEL_SRTP_SALT,
        &master_key,
        &master_salt,
        0,
        master_salt.len(),
    )
    .unwrap();
    assert_eq!(
        session_salt, expected_session_salt,
        "Session Salt {session_salt:?} does not match expected {expected_session_salt:?}"
    );

    let auth_key_len = ProtectionProfile::Aes128CmHmacSha1_80.auth_key_len();

    let session_auth_tag = aes_cm_key_derivation(
        LABEL_SRTP_AUTHENTICATION_TAG,
        &master_key,
        &master_salt,
        0,
        auth_key_len,
    )
    .unwrap();
    assert_eq!(
        session_auth_tag, expected_session_auth_tag,
        "Session Auth Tag {session_auth_tag:?} does not match expected {expected_session_auth_tag:?}",
    );
}

#[test]
fn test_index_over_kdr() {
    let result = aes_cm_key_derivation(LABEL_SRTP_AUTHENTICATION_TAG, &[], &[], 1, 0);
    assert!(result.is_err());
    assert_eq!(result, Err(SrtpError::UnsupportedIndexOverKdr));
}

#[test]
fn test_generate_counter_layout() {
    let salt = vec![0u8; 14];
    let c = generate_counter(0x0102, 0x03040506, 0x0708090a, &salt).unwrap();
    assert_eq!(
        c,
        vec![0, 0, 0, 0, 0x07, 0x08, 0x09, 0x0a, 0x03, 0x04, 0x05, 0x06, 0x01, 0x02, 0, 0]
    );
    let salt = vec![0xffu8; 16];
    let c = generate_counter(0, 0, 0, &salt).unwrap();
    assert_eq!(c, vec![0xff; 16]);
}

fn test_keys() -> (Vec<u8>, Vec<u8>) {
    (
        vec![
            0x0d, 0xcd, 0x21, 0x3e, 0x4c, 0xbc, 0xf2, 0x8f, 0x01, 0x7f, 0x69, 0x94, 0x40, 0x1e,
            0x28, 0x89,
        ],
        vec![
            0x62, 0x77, 0x60, 0x38, 0xc0, 0x6d, 0xc9, 0x41, 0x9f, 0x6d, 0xd9, 0x43, 0x3e, 0x7c,
        ],
    )
}

#[test]
fn test_srtcp_roundtrip() {
    let (key, salt) = test_keys();
    let c = CipherAesCmHmacSha1::new(&key, &salt).unwrap();
    let plain = vec![
        0x80, 0xc8, 0x00, 0x06, 0xca, 0xfe, 0xba, 0xbe, 0xab, 0xab, 0xab, 0xab, 0xab, 0xab, 0xab,
        0xab, 0xab, 0xab, 0xab, 0xab,
    ];
    let enc = c.encrypt_rtcp(&plain, 7, 0xcafebabe).unwrap();
    assert_eq!(enc.len(), plain.len() + 14);
    assert_eq!(&enc[..8], &plain[..8]);
    assert_ne!(&enc[8..plain.len()], &plain[8..]);
    assert_eq!(c.get_rtcp_index(&enc), 7);
    assert_eq!(c.decrypt_rtcp(&enc, 7, 0xcafebabe).unwrap(), plain);
    let mut tampered = enc.clone();
    let last = tampered.len() - 1;
    tampered[last] ^= 1;
    assert_eq!(
        c.decrypt_rtcp(&tampered, 7, 0xcafebabe),
        Err(SrtpError::ErrFailedToVerifyAuthTag)
    );
    assert_eq!(
        c.decrypt_rtcp(&enc[..13], 7, 0xcafebabe),
        Err(SrtpError::ErrTooShortSrtcp)
    );
}

#[test]
fn test_srtp_roundtrip() {
    let (key, salt) = test_keys();
    let c = CipherAesCmHmacSha1::new(&key, &salt).unwrap();
    let header = vec![
        0x80, 0x0f, 0x12, 0x34, 0xde, 0xca, 0xfb, 0xad, 0xca, 0xfe, 0xba, 0xbe,
    ];
    let payload = vec![0xab, 0xab, 0xab, 0xab, 0xab];
    let enc = c.encrypt_rtp(&header, 0x1234, 0xcafebabe, &payload, 0).unwrap();
    assert_eq!(enc.len(), header.len() + payload.len() + 10);
    let dec = c
        .decrypt_rtp(0x1234, 0xcafebabe, header.len(), &enc, 0)
        .unwrap();
    let mut want = header.clone();
    want.extend_from_slice(&payload);
    assert_eq!(dec, want);
    assert_eq!(
        c.decrypt_rtp(0x1234, 0xcafebabe, header.len(), &enc, 1),
        Err(SrtpError::ErrFailedToVerifyAuthTag)
    );
    assert_eq!(
        c.decrypt_rtp(0x1234, 0xcafebabe, 0, &enc[..9], 0),
        Err(SrtpError::ErrTooShortSrtp)
    );
}

#[test]
fn test_rollover_count() {
    let mut s = SrtpSsrcState {
        ssrc: 1,
        rollover_counter: 0,
        rollover_has_processed: false,
        last_sequence_number: 0,
    };
    assert_eq!(s.next_rollover_count(65530), 0);
    s.update_rollover_count(65530);
    assert_eq!(s.rollover_counter, 0);
    assert_eq!(s.next_rollover_count(0), 1);
    s.update_rollover_count(0);
    assert_eq!(s.rollover_counter, 1);
    assert_eq!(s.next_rollover_count(65535), 0);
    s.update_rollover_count(3);
    assert_eq!(s.rollover_counter, 1);
    s.update_rollover_count(65500);
    assert_eq!(s.rollover_counter, 0);
    s.update_rollover_count(65535);
    s.update_rollover_count(5);
    assert_eq!(s.rollover_counter, 1);
}

#[test]
fn test_context_roc_and_index() {
    let (key, salt) = test_keys();
    let mut ctx = Context::new(&key, &salt, ProtectionProfile::Aes128CmHmacSha1_80).unwrap();
    assert_eq!(ctx.get_roc(5), None);
    ctx.set_roc(5, 42);
    assert_eq!(ctx.get_roc(5), Some(42));
    assert_eq!(ctx.get_roc(6), None);
    assert_eq!(ctx.get_index(5), None);
    ctx.set_index(5, 9);
    assert_eq!(ctx.get_index(5), Some(9));
    assert!(matches!(
        Context::new(&key[..15], &salt, ProtectionProfile::Aes128CmHmacSha1_80),
        Err(SrtpError::ErrShortSrtpMasterKey)
    ));
    assert!(matches!(
        Context::new(&key, &salt[..13], ProtectionProfile::Aes128CmHmacSha1_80),
        Err(SrtpError::ErrShortSrtpMasterSalt)
    ));
    assert!(matches!(
        Context::new(&key, &salt[..12], ProtectionProfile::AeadAes128Gcm),
        Err(SrtpError::ErrNoSuchSrtpProfile)
    ));
}

#[test]
fn test_checked_decryption() {
    let (key, salt) = test_keys();
    let c = CipherAesCmHmacSha1::new(&key, &salt).unwrap();
    let header = vec![0x80, 0x0f, 0x12, 0x34, 0xde, 0xca, 0xfb, 0xad, 0xca, 0xfe, 0xba, 0xbe];
    let payload = vec![0xab, 0xab];
    let enc = c.encrypt_rtp(&header, 0x1234, 0xcafebabe, &payload, 0).unwrap();
    let mut want = header.clone();
    want.extend_from_slice(&payload);
    assert_eq!(c.decrypt_rtp_checked(0x1234, 0xcafebabe, 12, &enc, 0), Some(Ok(want)));
    // A verified packet shorter than the payload offset has no plain text.
    assert_eq!(c.decrypt_rtp_checked(0x1234, 0xcafebabe, 40, &enc, 0), None);
    // When the tag does not verify, that is the answer whatever the offset.
    assert_eq!(
        c.decrypt_rtp_checked(0x1234, 0xcafebabe, 40, &enc, 1),
        Some(Err(SrtpError::ErrFailedToVerifyAuthTag))
    );
    let plain = vec![0x80, 0xc8, 0x00, 0x06, 0xca, 0xfe, 0xba, 0xbe, 1, 2, 3];
    let enc = c.encrypt_rtcp(&plain, 3, 0xcafebabe).unwrap();
    assert_eq!(c.decrypt_rtcp_checked(&enc, 3, 0xcafebabe), Some(Ok(plain)));
    assert_eq!(
        c.decrypt_rtcp_checked(&enc[..13], 3, 0xcafebabe),
        Some(Err(SrtpError::ErrTooShortSrtcp))
    );
}

#[test]
fn test_counter_mode_wraps_at_all_ones() {
    // The keystream that the SRTP transform uses takes any length from any
    // counter block: from the all-ones block it wraps around to zero.
    let key = [0x2bu8; 16];
    let iv = [0xffu8; 16];
    let mut stream = ctr::Ctr128BE::<aes::Aes128>::new_from_slices(&key, &iv).unwrap();
    let mut data = vec![0u8; 4096];
    stream.apply_keystream(&mut data);
    let cipher = aes::Aes128::new_from_slice(&key).unwrap();
    let mut first = aes::Block::try_from(&iv[..]).unwrap();
    cipher.encrypt_block(&mut first);
    let mut second = aes::Block::try_from(&[0u8; 16][..]).unwrap();
    cipher.encrypt_block(&mut second);
    assert_eq!(&data[..16], &first[..]);
    assert_eq!(&data[16..32], &second[..]);
}
