use aes_gcm::aead::{Aead, KeyInit, Payload};
use aes_wasm::aes::RoundKeys;
use aes_wasm::aes256gcm::{
    decrypt, decrypt_detached, encrypt, encrypt_detached, key_from_slice, nonce_from_slice, Key,
    Nonce, Tag,
};
use aes_wasm::{decrypt_js, encrypt_js, new_key, new_nonce, BindingError, Error};

fn hex(s: &str) -> Vec<u8> {
    let b = s.as_bytes();
    let mut out = Vec::new();
    let mut i = 0;
    while i + 1 < b.len() {
        let d = |c: u8| match c {
            b'0'..=b'9' => c - b'0',
            b'a'..=b'f' => c - b'a' + 10,
            _ => panic!("not a hex digit"),
        };
        out.push(d(b[i]) * 16 + d(b[i + 1]));
        i += 2;
    }
    out
}

fn key_of(s: &str) -> Key {
    key_from_slice(&hex(s)).unwrap()
}

fn nonce_of(s: &str) -> Nonce {
    nonce_from_slice(&hex(s)).unwrap()
}

const K15: &str = "feffe9928665731c6d6a8f9467308308feffe9928665731c6d6a8f9467308308";
const N15: &str = "cafebabefacedbaddecaf888";
const P15: &str = "d9313225f88406e5a55909c5aff5269a86a7a9531534f7da2e4c303d8a318a721c3c0c95956809532fcf0e2449a6b525b16aedf5aa0de657ba637b391aafd255";
const C15: &str = "522dc1f099567d07f47f37a32a84427d643a8cdcbfe5c0c97598a2bd2555d1aa8cb08e48590dbb3da7b08b1056828838c5f61e6393ba7a0abcc9f662898015ad";

#[test]
fn aes256_block_known_answer() {
    let key = key_of("000102030405060708090a0b0c0d0e0f101112131415161718191a1b1c1d1e1f");
    let mut block = [0u8; 16];
    block.copy_from_slice(&hex("00112233445566778899aabbccddeeff"));
    let rk = RoundKeys::new(&key);
    assert_eq!(rk.encrypt_block(&block).to_vec(), hex("8ea2b7ca516745bfeafc49904b496089"));
}

#[test]
fn gcm_vector_empty_message() {
    let key = [0u8; 32];
    let nonce = [0u8; 12];
    let out = encrypt(&[], &[], &key, nonce);
    assert_eq!(out, hex("530f8afbc74536b9a963b4f1c4cb738b"));
}

#[test]
fn gcm_vector_one_zero_block() {
    let key = [0u8; 32];
    let nonce = [0u8; 12];
    let (ct, tag) = encrypt_detached(&[0u8; 16], &[], &key, nonce);
    assert_eq!(ct, hex("cea7403d4d606b6e074ec5d3baf39d18"));
    assert_eq!(tag.to_vec(), hex("d0d1c8a799996bf0265b98b5d48ab919"));
}

#[test]
fn gcm_vector_four_blocks() {
    let (ct, tag) = encrypt_detached(&hex(P15), &[], &key_of(K15), nonce_of(N15));
    assert_eq!(ct, hex(C15));
    assert_eq!(tag.to_vec(), hex("b094dac5d93471bdec1a502270e3cc6c"));
}

#[test]
fn gcm_vector_with_associated_data() {
    let pt = &hex(P15)[..60];
    let ad = hex("feedfacedeadbeeffeedfacedeadbeefabaddad2");
    let (ct, tag) = encrypt_detached(pt, &ad, &key_of(K15), nonce_of(N15));
    assert_eq!(ct, hex(C15)[..60].to_vec());
    assert_eq!(tag.to_vec(), hex("76fc6ece0f4e1768cddf8853bb2d551b"));
    let mut sealed = ct.clone();
    sealed.extend_from_slice(&tag);
    assert_eq!(decrypt(&sealed, &ad, &key_of(K15), nonce_of(N15)).unwrap(), pt.to_vec());
}

#[test]
fn round_trip_various_lengths() {
    let key = key_of(K15);
    let nonce = nonce_of(N15);
    for len in [0usize, 1, 15, 16, 17, 31, 32, 33, 100] {
        let pt: Vec<u8> = (0..len).map(|i| (i * 7 + 3) as u8).collect();
        let ad: Vec<u8> = (0..(len % 21)).map(|i| i as u8).collect();
        let sealed = encrypt(&pt, &ad, &key, nonce);
        assert_eq!(decrypt(&sealed, &ad, &key, nonce).unwrap(), pt);
    }
}

#[test]
fn tamper_ciphertext_bit_rejected() {
    let key = key_of(K15);
    let nonce = nonce_of(N15);
    let ad = b"header".to_vec();
    let sealed = encrypt(b"attack at dawn!!", &ad, &key, nonce);
    for i in 0..16 {
        let mut bad = sealed.clone();
        bad[i] ^= 0x01 << (i % 8);
        assert_eq!(decrypt(&bad, &ad, &key, nonce), Err(Error::VerificationFailed));
    }
}

#[test]
fn tamper_tag_bit_rejected() {
    let key = key_of(K15);
    let nonce = nonce_of(N15);
    let sealed = encrypt(b"attack at dawn", b"", &key, nonce);
    for i in 14..sealed.len() {
        for bit in 0..8 {
            let mut bad = sealed.clone();
            bad[i] ^= 1 << bit;
            assert_eq!(decrypt(&bad, b"", &key, nonce), Err(Error::VerificationFailed));
        }
    }
}

#[test]
fn tamper_associated_data_rejected() {
    let key = key_of(K15);
    let nonce = nonce_of(N15);
    let ad = b"header".to_vec();
    let sealed = encrypt(b"attack at dawn", &ad, &key, nonce);
    for i in 0..ad.len() {
        let mut bad = ad.clone();
        bad[i] ^= 0x80;
        assert_eq!(decrypt(&sealed, &bad, &key, nonce), Err(Error::VerificationFailed));
    }
    assert_eq!(decrypt(&sealed, b"header!", &key, nonce), Err(Error::VerificationFailed));
}

#[test]
fn wrong_key_or_nonce_rejected() {
    let key = key_of(K15);
    let nonce = nonce_of(N15);
    let sealed = encrypt(b"secret", b"", &key, nonce);
    let mut other_key = key;
    other_key[0] ^= 1;
    let mut other_nonce = nonce;
    other_nonce[11] ^= 1;
    assert_eq!(decrypt(&sealed, b"", &other_key, nonce), Err(Error::VerificationFailed));
    assert_eq!(decrypt(&sealed, b"", &key, other_nonce), Err(Error::VerificationFailed));
}

#[test]
fn encrypt_is_deterministic() {
    let key = key_of(K15);
    let nonce = nonce_of(N15);
    let a = encrypt(b"same input", b"ad", &key, nonce);
    let b = encrypt(b"same input", b"ad", &key, nonce);
    assert_eq!(a, b);
}

#[test]
fn lengths_are_preserved() {
    let key = key_of(K15);
    let nonce = nonce_of(N15);
    for len in [0usize, 1, 16, 45] {
        let pt = vec![0xa5u8; len];
        let (ct, tag) = encrypt_detached(&pt, b"x", &key, nonce);
        assert_eq!(ct.len(), len);
        assert_eq!(tag.len(), 16);
        assert_eq!(encrypt(&pt, b"x", &key, nonce).len(), len + 16);
    }
}

#[test]
fn empty_inputs() {
    let key = key_of(K15);
    let nonce = nonce_of(N15);
    let (ct, tag) = encrypt_detached(b"", b"", &key, nonce);
    assert_eq!(ct.len(), 0);
    assert_eq!(tag.len(), 16);
    let sealed = encrypt(b"", b"", &key, nonce);
    assert_eq!(sealed.len(), 16);
    assert_eq!(decrypt(&sealed, b"", &key, nonce).unwrap(), Vec::<u8>::new());
    assert_eq!(decrypt_detached(&[], &tag, b"", &key, nonce).unwrap(), Vec::<u8>::new());
}

#[test]
fn detached_matches_combined() {
    let key = key_of(K15);
    let nonce = nonce_of(N15);
    let pt = hex(P15);
    let ad = b"associated".to_vec();
    let (mut ct, tag) = encrypt_detached(&pt, &ad, &key, nonce);
    ct.extend_from_slice(&tag);
    assert_eq!(encrypt(&pt, &ad, &key, nonce), ct);
}

#[test]
fn decrypt_detached_checks_tag() {
    let key = key_of(K15);
    let nonce = nonce_of(N15);
    let (ct, tag) = encrypt_detached(b"detached message", b"ad", &key, nonce);
    assert_eq!(
        decrypt_detached(&ct, &tag, b"ad", &key, nonce).unwrap(),
        b"detached message".to_vec()
    );
    let mut bad: Tag = tag;
    bad[0] ^= 1;
    assert_eq!(decrypt_detached(&ct, &bad, b"ad", &key, nonce), Err(Error::VerificationFailed));
}

#[test]
fn short_input_rejected() {
    let key = [0u8; 32];
    let nonce = [0u8; 12];
    for len in 0..16 {
        let input = vec![0u8; len];
        assert_eq!(decrypt(&input, b"", &key, nonce), Err(Error::VerificationFailed));
    }
}

#[test]
fn fixed_size_conversions() {
    assert!(key_from_slice(&[0u8; 31]).is_none());
    assert!(key_from_slice(&[0u8; 33]).is_none());
    assert_eq!(key_from_slice(&[7u8; 32]), Some([7u8; 32]));
    assert!(nonce_from_slice(&[0u8; 11]).is_none());
    assert_eq!(nonce_from_slice(&[9u8; 12]), Some([9u8; 12]));
}

#[test]
fn buffer_entry_points() {
    assert_eq!(new_key(), vec![0u8; 32]);
    assert_eq!(new_nonce(), vec![0u8; 12]);
    let key = hex(K15);
    let nonce = hex(N15);
    let sealed = encrypt_js(b"hello world", b"extra data", &key, &nonce);
    assert_eq!(sealed, encrypt(b"hello world", b"extra data", &key_of(K15), nonce_of(N15)));
    assert_eq!(
        decrypt_js(&sealed, b"extra data", &key, &nonce).unwrap(),
        b"hello world".to_vec()
    );
    assert_eq!(
        decrypt_js(&sealed, b"extra data", &key[..31], &nonce),
        Err(BindingError::BadKeyLength)
    );
    assert_eq!(
        decrypt_js(&sealed, b"extra data", &key, &nonce[..11]),
        Err(BindingError::BadNonceLength)
    );
    assert_eq!(
        decrypt_js(&sealed, b"other data", &key, &nonce),
        Err(BindingError::VerificationFailed)
    );
}

#[test]
fn error_messages() {
    assert_eq!(Error::VerificationFailed.message(), "Verification failed");
    assert_eq!(BindingError::BadKeyLength.message(), "bad key len");
    assert_eq!(BindingError::BadNonceLength.message(), "bad nonce len");
    assert_eq!(BindingError::VerificationFailed.message(), "verification failed");
}

#[test]
fn agrees_with_aes_gcm_crate() {
    let key = key_of(K15);
    let cipher = aes_gcm::Aes256Gcm::new_from_slice(&key).unwrap();
    for len in [0usize, 5, 16, 23, 48, 64] {
        let mut nonce = nonce_of(N15);
        nonce[0] = len as u8;
        let pt: Vec<u8> = (0..len).map(|i| (i * 31 + len) as u8).collect();
        let ad: Vec<u8> = (0..(len / 3)).map(|i| (255 - i) as u8).collect();
        let expected = cipher
            .encrypt(aes_gcm::Nonce::from_slice(&nonce), Payload { msg: &pt, aad: &ad })
            .unwrap();
        assert_eq!(encrypt(&pt, &ad, &key, nonce), expected);
    }
}
