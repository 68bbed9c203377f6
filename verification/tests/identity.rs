//! Tests of the identity and signature gate, run against the real Ed25519
//! implementation: a signature by the matching private key verifies, any
//! tampering with the message is rejected, and an identity without a key
//! fails closed.

use base64::Engine;
use ring::signature::Ed25519KeyPair;
use ring::signature::KeyPair;

use dna_store::model::public_key::PublicKey;
use dna_store::model::public_key::WrongSignatureError;

fn keypair() -> Ed25519KeyPair {
    let rng = ring::rand::SystemRandom::new();
    let pkcs8 = Ed25519KeyPair::generate_pkcs8(&rng).expect("key generation");
    Ed25519KeyPair::from_pkcs8(pkcs8.as_ref()).expect("key parsing")
}

fn b64(bytes: &[u8]) -> String {
    base64::engine::general_purpose::STANDARD.encode(bytes)
}

#[test]
fn signature_verifies_for_signed_message() {
    let kp = keypair();
    let message = String::from("TACG");
    let signature = b64(kp.sign(message.as_bytes()).as_ref());
    let identity = PublicKey {
        id: String::from("U1"),
        public_key: Some(kp.public_key().as_ref().to_vec()),
    };
    assert_eq!(PublicKey::check_signature(signature, identity, message), Ok(()));
}

#[test]
fn signature_fails_for_mutated_message() {
    let kp = keypair();
    let message = String::from("TACG");
    let signature = b64(kp.sign(message.as_bytes()).as_ref());
    let identity = PublicKey {
        id: String::from("U1"),
        public_key: Some(kp.public_key().as_ref().to_vec()),
    };
    // One byte of the message differs.
    let mutated = String::from("TACC");
    assert_eq!(
        PublicKey::check_signature(signature, identity, mutated),
        Err(WrongSignatureError::VerificationFailed)
    );
}

#[test]
fn signature_fails_without_key_on_file() {
    let kp = keypair();
    let message = String::from("TACG");
    let signature = b64(kp.sign(message.as_bytes()).as_ref());
    let identity = PublicKey { id: String::from("U1"), public_key: None };
    assert_eq!(
        PublicKey::check_signature(signature, identity, message),
        Err(WrongSignatureError::NoPublicKey)
    );
}

#[test]
fn signature_fails_for_undecodable_signature() {
    let kp = keypair();
    let identity = PublicKey {
        id: String::from("U1"),
        public_key: Some(kp.public_key().as_ref().to_vec()),
    };
    assert_eq!(
        PublicKey::check_signature(String::from("*not base64*"), identity, String::from("TACG")),
        Err(WrongSignatureError::VerificationFailed)
    );
}

#[test]
fn signature_fails_under_wrong_key() {
    let kp = keypair();
    let other = keypair();
    let message = String::from("TACG");
    let signature = b64(kp.sign(message.as_bytes()).as_ref());
    let identity = PublicKey {
        id: String::from("U1"),
        public_key: Some(other.public_key().as_ref().to_vec()),
    };
    assert_eq!(
        PublicKey::check_signature(signature, identity, message),
        Err(WrongSignatureError::VerificationFailed)
    );
}

#[test]
fn from_raw_decodes_base64_key() {
    let pk = PublicKey::from_raw(String::from("U1"), String::from("AQID")).expect("valid base64");
    assert_eq!(pk.id, "U1");
    assert_eq!(pk.public_key, Some(vec![1u8, 2, 3]));
}

#[test]
fn from_raw_rejects_invalid_base64() {
    assert!(PublicKey::from_raw(String::from("U1"), String::from("*?!")).is_err());
}

#[test]
fn encode_is_base64_of_key_bytes() {
    let pk = PublicKey { id: String::from("U1"), public_key: Some(vec![1u8, 2, 3]) };
    assert_eq!(pk.encode(), "AQID");
}

#[test]
fn new_generates_uuid_id() {
    let pk = PublicKey::new(vec![1u8, 2, 3]);
    assert_eq!(pk.id.len(), 36);
    assert_eq!(pk.public_key, Some(vec![1u8, 2, 3]));
    let other = PublicKey::new(vec![1u8, 2, 3]);
    assert_ne!(pk.id, other.id, "fresh identifiers must differ");
}

#[test]
fn from_base64_generates_uuid_id() {
    let pk = PublicKey::from_base64(String::from("AQID")).expect("valid base64");
    assert_eq!(pk.id.len(), 36);
    assert_eq!(pk.public_key, Some(vec![1u8, 2, 3]));
}
