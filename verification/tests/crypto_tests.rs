use linchain::crypto::{
    hex_decode, hex_encode, public_key_of, secret_key_is_valid, sha256, sign_ecdsa, signature_is_valid,
    verify_ecdsa,
    CryptoError,
};

const SECRET: [u8; 32] = [7u8; 32];

#[test]
fn test_sign_verify_happy_flow() {
    // The encoding of a struct { message: String, number: u32 } is the
    // encoding of its fields one after the other.
    let data = bcs::to_bytes(&("testTest".to_string(), 42u32)).unwrap();
    let public_key = public_key_of(&SECRET);
    let signature = sign_ecdsa(&data, &SECRET).unwrap();
    let result = verify_ecdsa(&data, &signature, &public_key);
    result.expect("Signature verification should succeed.");
}

#[test]
fn signature_is_lower_case_hex_of_64_bytes() {
    let signature = sign_ecdsa(b"block", &SECRET).unwrap();
    assert_eq!(signature.len(), 128);
    assert!(signature.chars().all(|c| c.is_ascii_digit() || ('a'..='f').contains(&c)));
    // Signing is deterministic.
    assert_eq!(signature, sign_ecdsa(b"block", &SECRET).unwrap());
}

#[test]
fn sign_with_invalid_secret_key_fails() {
    assert!(!secret_key_is_valid(&[0u8; 32]));
    assert_eq!(sign_ecdsa(b"data", &[0u8; 32]), Err(CryptoError::InvalidSecretKey));
    assert_eq!(sign_ecdsa(b"data", &[0xffu8; 32]), Err(CryptoError::InvalidSecretKey));
    assert!(secret_key_is_valid(&SECRET));
}

#[test]
fn verify_rejects_other_data() {
    let public_key = public_key_of(&SECRET);
    let signature = sign_ecdsa(b"data", &SECRET).unwrap();
    assert_eq!(
        verify_ecdsa(b"other data", &signature, &public_key),
        Err(CryptoError::VerificationFailed)
    );
}

#[test]
fn verify_rejects_other_key() {
    let other_public_key = public_key_of(&[9u8; 32]);
    let signature = sign_ecdsa(b"data", &SECRET).unwrap();
    assert_eq!(
        verify_ecdsa(b"data", &signature, &other_public_key),
        Err(CryptoError::VerificationFailed)
    );
}

#[test]
fn verify_reports_each_malformed_input() {
    let public_key = public_key_of(&SECRET);
    let signature = sign_ecdsa(b"data", &SECRET).unwrap();
    assert_eq!(verify_ecdsa(b"data", &signature, &[1, 2, 3]), Err(CryptoError::InvalidPublicKey));
    assert_eq!(verify_ecdsa(b"data", "abc", &public_key), Err(CryptoError::InvalidSignatureEncoding));
    assert_eq!(verify_ecdsa(b"data", "zz", &public_key), Err(CryptoError::InvalidSignatureEncoding));
    assert_eq!(verify_ecdsa(b"data", "abcd", &public_key), Err(CryptoError::InvalidSignature));
    let zeros = "00".repeat(64);
    assert_eq!(verify_ecdsa(b"data", &zeros, &public_key), Err(CryptoError::InvalidSignature));
}

#[test]
fn public_key_is_compressed_sec1() {
    let public_key = public_key_of(&SECRET);
    assert_eq!(public_key.len(), 33);
    assert!(public_key[0] == 2 || public_key[0] == 3);
}

#[test]
fn hex_round_trip() {
    assert_eq!(hex_encode(&[0x00, 0xab, 0x10, 0xff]), "00ab10ff");
    assert_eq!(hex_decode(b"00AB10ff"), Some(vec![0x00, 0xab, 0x10, 0xff]));
    assert_eq!(hex_decode(b"0"), None);
    assert_eq!(hex_decode(b"0g"), None);
    assert_eq!(hex_decode(b""), Some(vec![]));
}

#[test]
fn sha256_of_abc() {
    let digest = sha256(b"abc");
    assert_eq!(
        hex_encode(&digest),
        "ba7816bf8f01cfea414140de5dae2223b00361a396177a9cb410ff61f20015ad"
    );
}

#[test]
fn signature_text_is_128_hex_digits() {
    let text = linchain::crypto::sign_ecdsa(b"ledger", &[9u8; 32]).unwrap();
    assert_eq!(text.len(), 128);
    assert!(text.chars().all(|c| c.is_ascii_digit() || ('a'..='f').contains(&c)));
}

#[test]
fn secret_keys_are_24_to_32_bytes_below_the_group_order() {
    assert!(secret_key_is_valid(&[1u8; 24]));
    assert!(!secret_key_is_valid(&[1u8; 23]));
    assert!(!secret_key_is_valid(&[1u8; 33]));
    assert!(!secret_key_is_valid(&[0u8; 32]));
    let order = hex_decode(b"FFFFFFFFFFFFFFFFFFFFFFFFFFFFFFFEBAAEDCE6AF48A03BBFD25E8CD0364141").unwrap();
    assert!(!secret_key_is_valid(&order));
    let mut below = order.clone();
    below[31] -= 1;
    assert!(secret_key_is_valid(&below));
}

#[test]
fn signatures_are_two_scalars_below_the_group_order() {
    let mut one_one = vec![0u8; 64];
    one_one[31] = 1;
    one_one[63] = 1;
    assert!(signature_is_valid(&one_one));
    assert!(!signature_is_valid(&one_one[..63]));
    assert!(!signature_is_valid(&[0u8; 64]));
    let order = hex_decode(b"FFFFFFFFFFFFFFFFFFFFFFFFFFFFFFFEBAAEDCE6AF48A03BBFD25E8CD0364141").unwrap();
    let mut high_r = order.clone();
    high_r.extend_from_slice(&one_one[32..]);
    assert!(!signature_is_valid(&high_r));
    let mut below = order.clone();
    below[31] -= 1;
    below.extend_from_slice(&below.clone());
    assert!(signature_is_valid(&below));
}
