use titanfront::codec::{
    aad, challenge_reply, decrypt, encrypt, encrypt_with_nonce, has_connect_magic, read_token, read_u64_le,
};

const KEY: [u8; 16] = [3; 16];

#[test]
fn decrypt_encrypt_round_trip() {
    for plain in [vec![], vec![0u8], b"hello relay".to_vec(), vec![0xAB; 300]] {
        let sealed = encrypt(&plain, &KEY);
        assert_eq!(sealed.len(), plain.len() + 28);
        assert_eq!(decrypt(&sealed, &KEY), Some(plain));
    }
}

#[test]
fn encryption_is_not_deterministic() {
    let a = encrypt(b"same", &KEY);
    let b = encrypt(b"same", &KEY);
    assert_ne!(a, b);
    assert_eq!(decrypt(&a, &KEY), decrypt(&b, &KEY));
}

#[test]
fn sealed_packet_layout() {
    let nonce = [9u8; 12];
    let sealed = encrypt_with_nonce(b"abc", &KEY, &nonce);
    assert_eq!(&sealed[..12], &nonce);
    assert_eq!(sealed.len(), 31);
    assert_ne!(&sealed[28..], b"abc");
    assert_eq!(encrypt_with_nonce(b"abc", &KEY, &nonce), sealed);
}

#[test]
fn decrypt_rejects_bad_packets() {
    assert_eq!(decrypt(&[0u8; 27], &KEY), None);
    let mut sealed = encrypt(b"payload", &KEY);
    sealed[13] ^= 0x80;
    assert_eq!(decrypt(&sealed, &KEY), None);
    let other = [4u8; 16];
    assert_eq!(decrypt(&encrypt(b"payload", &KEY), &other), None);
}

#[test]
fn aad_constant() {
    assert_eq!(aad(), (1u8..=16).collect::<Vec<u8>>());
}

#[test]
fn reads_little_endian_ids() {
    let b = [0u8, 0x2A, 0, 0, 0, 0, 0, 0, 0];
    assert_eq!(read_u64_le(&b, 1), 42);
    let m = [1u8, 2, 3, 4, 5, 6, 7, 8];
    assert_eq!(read_u64_le(&m, 0), 0x0807060504030201);
    assert_eq!(read_u64_le(&[0xFF; 8], 0), u64::MAX);
}

#[test]
fn connect_magic_detection() {
    let mut p = vec![0xFF, 0xFF, 0xFF, 0xFF, 0x48, 0x63, 0x6F, 0x6E, 0x6E, 0x65, 0x63, 0x74, 0x00];
    assert!(!has_connect_magic(&p));
    p.extend_from_slice(&[0u8; 8]);
    assert!(has_connect_magic(&p));
    p[4] = b'h';
    assert!(!has_connect_magic(&p));
}

#[test]
fn token_follows_username() {
    let mut p = vec![0u8; 29];
    p.extend_from_slice(b"bob\0");
    let token = b"0123456789abcdef0123456789abcde";
    p.extend_from_slice(token);
    assert_eq!(read_token(&p), Some(token.to_vec()));
    p.pop();
    assert_eq!(read_token(&p), None);
    let no_null = vec![1u8; 80];
    assert_eq!(read_token(&no_null), None);
}

#[test]
fn challenge_reply_layout() {
    let mut plain = vec![0u8; 13];
    plain.extend_from_slice(&7u64.to_le_bytes());
    let packet = encrypt(&plain, &KEY);
    let nonce = [5u8; 12];
    let reply = challenge_reply(&packet, &KEY, &nonce).unwrap();
    assert_eq!(&reply[..12], &nonce);
    let opened = decrypt(&reply, &KEY).unwrap();
    assert_eq!(opened, vec![0xFF, 0xFF, 0xFF, 0xFF, 0x49, 0x54, 0x74, 0x46, 0x72, 7, 0, 0, 0, 0, 0, 0, 0]);
    let short = encrypt(&[0u8; 20], &KEY);
    assert_eq!(challenge_reply(&short, &KEY, &nonce), None);
}
