use base64::Engine as _;
use base64::engine::general_purpose::STANDARD;
use wg_easy_rs::keys::{generate_keypair, generate_preshared_key, valid_key_b64};

#[test]
fn test_keypair_format() {
    let (private, public) = generate_keypair();
    let priv_bytes = STANDARD.decode(&private).expect("valid base64 private");
    let pub_bytes = STANDARD.decode(&public).expect("valid base64 public");
    assert_eq!(priv_bytes.len(), 32, "private key must be 32 bytes");
    assert_eq!(pub_bytes.len(), 32, "public key must be 32 bytes");
}

#[test]
fn test_preshared_key_format() {
    let psk = generate_preshared_key();
    let bytes = STANDARD.decode(&psk).expect("valid base64 psk");
    assert_eq!(bytes.len(), 32, "preshared key must be 32 bytes");
}

#[test]
fn test_keypair_uniqueness() {
    let (priv1, _) = generate_keypair();
    let (priv2, _) = generate_keypair();
    assert_ne!(priv1, priv2, "each keypair should be unique");
}

#[test]
fn generated_keys_pass_the_validator() {
    let (private, public) = generate_keypair();
    assert!(valid_key_b64(&private));
    assert!(valid_key_b64(&public));
    assert!(valid_key_b64(&generate_preshared_key()));
}

#[test]
fn validator_rejects_malformed_keys() {
    assert!(!valid_key_b64(""));
    assert!(!valid_key_b64("short"));
    // Right length, but an illegal character.
    assert!(!valid_key_b64("!AAAAAAAAAAAAAAAAAAAAAAAAAAAAAAAAAAAAAAAAA="));
    // Right length, but no padding sign at the end.
    assert!(!valid_key_b64("AAAAAAAAAAAAAAAAAAAAAAAAAAAAAAAAAAAAAAAAAAAA"));
    // Nonzero trailing bits in the last data character.
    assert!(!valid_key_b64("AAAAAAAAAAAAAAAAAAAAAAAAAAAAAAAAAAAAAAAAAAB="));
    // A canonical encoding of 32 zero bytes is accepted.
    assert!(valid_key_b64("AAAAAAAAAAAAAAAAAAAAAAAAAAAAAAAAAAAAAAAAAAA="));
}

#[test]
fn public_key_is_derived_from_the_private_key() {
    let (private, public) = generate_keypair();
    let priv_bytes: [u8; 32] = STANDARD
        .decode(&private)
        .expect("valid base64 private")
        .try_into()
        .expect("32 bytes");
    let sk = x25519_dalek::StaticSecret::from(priv_bytes);
    let pk = x25519_dalek::PublicKey::from(&sk);
    assert_eq!(STANDARD.encode(pk.as_bytes()), public);
}
