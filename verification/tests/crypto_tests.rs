use ed25519_dalek::{Signer, SigningKey};
use powchain::crypto::{ed25519_generate, ed25519_public_key, ed25519_sign, ed25519_verify, sha256};
use powchain::text::{hex_encode, str_eq, u64_to_string};
use powchain::vm::i64_to_le_bytes;
use sha2::{Digest, Sha256};

#[test]
fn test_sha256_known_vector() {
    // The well-known digest of the empty input.
    let digest = sha256(&[]);
    assert_eq!(
        hex_encode(&digest),
        "e3b0c44298fc1c149afbf4c8996fb92427ae41e4649b934ca495991b7852b855"
    );
}

#[test]
fn test_sha256_abc_vector() {
    let digest = sha256(b"abc");
    assert_eq!(
        hex_encode(&digest),
        "ba7816bf8f01cfea414140de5dae2223b00361a396177a9cb410ff61f20015ad"
    );
}

#[test]
fn test_hex_encode_bytes() {
    assert_eq!(hex_encode(&[0x00, 0xFF, 0x1a]), "00ff1a");
    assert_eq!(hex_encode(&[]), "");
}

#[test]
fn test_u64_to_string_values() {
    assert_eq!(u64_to_string(0), "0");
    assert_eq!(u64_to_string(12345), "12345");
    assert_eq!(u64_to_string(u64::MAX), "18446744073709551615");
}

#[test]
fn test_str_eq_behaviour() {
    assert!(str_eq("abc", "abc"));
    assert!(!str_eq("abc", "abd"));
    assert!(!str_eq("abc", "abcd"));
    assert!(str_eq("", ""));
}

#[test]
fn test_i64_le_bytes_match_std() {
    for v in [0i64, 1, -1, 42, i64::MIN, i64::MAX, -123456789] {
        assert_eq!(i64_to_le_bytes(v), v.to_le_bytes().to_vec());
    }
}

#[test]
fn test_ed25519_sign_verify_roundtrip() {
    let secret = ed25519_generate();
    let public = ed25519_public_key(&secret);
    let msg = b"attack at dawn";
    let sig = ed25519_sign(&secret, msg);
    assert_eq!(sig.len(), 64);
    assert!(ed25519_verify(&public, msg, &sig));
    assert!(!ed25519_verify(&public, b"attack at dusk", &sig));

    let other_public = ed25519_public_key(&ed25519_generate());
    assert!(!ed25519_verify(&other_public, msg, &sig));
}

#[test]
fn test_ed25519_matches_reference_implementation() {
    let secret = ed25519_generate();
    let sig = ed25519_sign(&secret, b"msg");
    let key = SigningKey::from_bytes(&secret.clone().try_into().unwrap());
    let expected = key.sign(b"msg").to_vec();
    assert_eq!(sig, expected);
    assert_eq!(
        powchain::crypto::ed25519_public_key(&secret),
        key.verifying_key().to_bytes().to_vec()
    );
}

#[test]
fn test_sha256_matches_reference_implementation() {
    let data = b"some larger input with\nseveral lines";
    assert_eq!(sha256(data), Sha256::digest(data).to_vec());
}

#[test]
fn test_hex_matches_reference_implementation() {
    let data = [1u8, 2, 3, 250, 128, 0, 77];
    assert_eq!(hex_encode(&data), hex::encode(data));
}
