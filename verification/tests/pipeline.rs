//! End-to-end scenarios over the write pipeline: a local node accepts a
//! signed write and a peer node, fed the broadcast payload, converges to
//! the same stored value.

use base64::Engine;
use ring::signature::Ed25519KeyPair;
use ring::signature::KeyPair;

use dna_store::api::dna_sequence::dna;
use dna_store::api::dna_sequence::insert_dna_sequence;
use dna_store::api::dna_sequence::share_dna_sequence;
use dna_store::api::dna_sequence::share_patch;
use dna_store::api::dna_sequence::ClientId;
use dna_store::api::dna_sequence::DbDnaSequenceError;
use dna_store::api::dna_sequence::SubmitDnaSequence;
use dna_store::api::dna_sequence::SubmitPatch;
use dna_store::api::public_key::insert_public_key;
use dna_store::api::public_key::share_public_key;
use dna_store::api::public_key::DbPublicKeyError;
use dna_store::api::public_key::SubmitPublicKey;
use dna_store::model::dna_sequence::DnaSequence;
use dna_store::model::public_key::WrongSignatureError;
use dna_store::repository::db::DbHandle;
use dna_store::sender::BroadcastPayload;

fn keypair() -> Ed25519KeyPair {
    let rng = ring::rand::SystemRandom::new();
    let pkcs8 = Ed25519KeyPair::generate_pkcs8(&rng).expect("key generation");
    Ed25519KeyPair::from_pkcs8(pkcs8.as_ref()).expect("key parsing")
}

fn b64(bytes: &[u8]) -> String {
    base64::engine::general_purpose::STANDARD.encode(bytes)
}

fn register(db: &mut DbHandle, id: &str, kp: &Ed25519KeyPair) {
    let request = SubmitPublicKey {
        id: String::from(id),
        public_key: b64(kp.public_key().as_ref()),
    };
    let stored = share_public_key(db, &request).expect("key registration");
    assert_eq!(stored, id);
}

fn read(db: &DbHandle, id: &str) -> Result<String, DbDnaSequenceError> {
    dna(db, &ClientId { id: String::from(id) })
}

/// Register `U1` with `K1`, submit `"TACG"` signed by `K1`: the local
/// store holds it, and a peer receiving the broadcast full record arrives
/// at the same value.
#[test]
fn scenario_full_record_propagates() {
    let k1 = keypair();
    let mut node1 = DbHandle::new();
    let mut node2 = DbHandle::new();
    register(&mut node1, "U1", &k1);
    register(&mut node2, "U1", &k1);

    let request = SubmitDnaSequence {
        id: String::from("U1"),
        dna_sequence: String::from("TACG"),
        signature: b64(k1.sign(b"TACG").as_ref()),
    };
    let outcome = insert_dna_sequence(&mut node1, &request).expect("signed write accepted");
    assert_eq!(outcome.id, "U1");
    assert_eq!(read(&node1, "U1").unwrap(), "TACG");

    match outcome.broadcast {
        BroadcastPayload::NewSequence(record, signature) => {
            let shared = SubmitDnaSequence {
                id: record.id,
                dna_sequence: record.dna_sequence,
                signature,
            };
            share_dna_sequence(&mut node2, &shared).expect("peer accepts the full record");
        },
        _ => panic!("a first write broadcasts the full record"),
    }
    assert_eq!(read(&node2, "U1").unwrap(), "TACG");
}

/// With `{U1: "TACG"}` present, submit `"TCCG"` signed by `K1`: the
/// response names `U1`, the generated patch applied to `"TACG"` yields
/// `"TCCG"`, and a peer applying the broadcast patch converges.
#[test]
fn scenario_patch_propagates() {
    let k1 = keypair();
    let mut node1 = DbHandle::new();
    let mut node2 = DbHandle::new();
    register(&mut node1, "U1", &k1);
    register(&mut node2, "U1", &k1);

    let first = SubmitDnaSequence {
        id: String::from("U1"),
        dna_sequence: String::from("TACG"),
        signature: b64(k1.sign(b"TACG").as_ref()),
    };
    insert_dna_sequence(&mut node1, &first).expect("first write accepted");
    share_dna_sequence(
        &mut node2,
        &SubmitDnaSequence {
            id: String::from("U1"),
            dna_sequence: String::from("TACG"),
            signature: b64(k1.sign(b"TACG").as_ref()),
        },
    )
    .expect("peer holds the base value");

    let second = SubmitDnaSequence {
        id: String::from("U1"),
        dna_sequence: String::from("TCCG"),
        signature: b64(k1.sign(b"TCCG").as_ref()),
    };
    let outcome = insert_dna_sequence(&mut node1, &second).expect("second write accepted");
    assert_eq!(outcome.id, "U1");
    assert_eq!(read(&node1, "U1").unwrap(), "TCCG");

    match outcome.broadcast {
        BroadcastPayload::NewPatch(patch, signature) => {
            // The patch itself rewrites the old value into the new one.
            let parsed = dna_store::codec::parse_patch(&patch.patch_txt).expect("patch parses");
            let (patched, flags) = dna_store::apply::apply_patch(&parsed, "TACG");
            assert_eq!(patched, "TCCG");
            assert!(flags.iter().all(|&f| f));

            let shared = SubmitPatch { id: patch.id, patch_txt: patch.patch_txt, signature };
            share_patch(&mut node2, &shared).expect("peer applies the patch");
        },
        _ => panic!("a write over an existing record broadcasts a patch"),
    }
    assert_eq!(read(&node2, "U1").unwrap(), "TCCG");
}

/// A sequence submitted for an id with no registered key is rejected with
/// `NoPublicKey` and creates no record.
#[test]
fn scenario_unknown_identity_rejected() {
    let k1 = keypair();
    let mut node = DbHandle::new();
    let request = SubmitDnaSequence {
        id: String::from("U9"),
        dna_sequence: String::from("TACG"),
        signature: b64(k1.sign(b"TACG").as_ref()),
    };
    let err = insert_dna_sequence(&mut node, &request).unwrap_err();
    assert_eq!(
        err,
        DbDnaSequenceError::SignatureVerificationFailed(WrongSignatureError::NoPublicKey)
    );
    assert!(read(&node, "U9").is_err(), "no record may be created");
}

/// A patch whose context no longer matches the stored base is rejected
/// with `PatchFailed` and the stored value stays unchanged.
#[test]
fn scenario_drifted_patch_rejected() {
    let k1 = keypair();
    let mut node1 = DbHandle::new();
    let mut node2 = DbHandle::new();
    register(&mut node1, "U1", &k1);
    register(&mut node2, "U1", &k1);

    let first = SubmitDnaSequence {
        id: String::from("U1"),
        dna_sequence: String::from("TACG"),
        signature: b64(k1.sign(b"TACG").as_ref()),
    };
    insert_dna_sequence(&mut node1, &first).expect("first write accepted");
    // The peer's copy has drifted: it holds a different base.
    share_dna_sequence(
        &mut node2,
        &SubmitDnaSequence {
            id: String::from("U1"),
            dna_sequence: String::from("GGCA"),
            signature: b64(k1.sign(b"GGCA").as_ref()),
        },
    )
    .expect("peer holds the drifted value");

    let second = SubmitDnaSequence {
        id: String::from("U1"),
        dna_sequence: String::from("TCCG"),
        signature: b64(k1.sign(b"TCCG").as_ref()),
    };
    let outcome = insert_dna_sequence(&mut node1, &second).expect("second write accepted");
    match outcome.broadcast {
        BroadcastPayload::NewPatch(patch, signature) => {
            let shared = SubmitPatch { id: patch.id, patch_txt: patch.patch_txt, signature };
            let err = share_patch(&mut node2, &shared).unwrap_err();
            assert_eq!(err, DbDnaSequenceError::PatchFailed);
        },
        _ => panic!("a write over an existing record broadcasts a patch"),
    }
    assert_eq!(read(&node2, "U1").unwrap(), "GGCA", "the stored value stays unchanged");
}

/// A patch signed by the wrong key is rejected at the signature gate,
/// which runs over the patched result.
#[test]
fn patch_with_wrong_signature_rejected() {
    let k1 = keypair();
    let intruder = keypair();
    let mut node1 = DbHandle::new();
    let mut node2 = DbHandle::new();
    register(&mut node1, "U1", &k1);
    register(&mut node2, "U1", &k1);

    let first = SubmitDnaSequence {
        id: String::from("U1"),
        dna_sequence: String::from("TACG"),
        signature: b64(k1.sign(b"TACG").as_ref()),
    };
    insert_dna_sequence(&mut node1, &first).expect("first write accepted");
    share_dna_sequence(
        &mut node2,
        &SubmitDnaSequence {
            id: String::from("U1"),
            dna_sequence: String::from("TACG"),
            signature: b64(k1.sign(b"TACG").as_ref()),
        },
    )
    .expect("peer holds the base value");

    // The intruder forges a patch towards "TCCG" but cannot sign it as K1.
    let second = SubmitDnaSequence {
        id: String::from("U1"),
        dna_sequence: String::from("TCCG"),
        signature: b64(k1.sign(b"TCCG").as_ref()),
    };
    let outcome = insert_dna_sequence(&mut node1, &second).expect("owner write accepted");
    match outcome.broadcast {
        BroadcastPayload::NewPatch(patch, _) => {
            let forged = SubmitPatch {
                id: patch.id,
                patch_txt: patch.patch_txt,
                signature: b64(intruder.sign(b"TCCG").as_ref()),
            };
            let err = share_patch(&mut node2, &forged).unwrap_err();
            assert_eq!(
                err,
                DbDnaSequenceError::SignatureVerificationFailed(
                    WrongSignatureError::VerificationFailed
                )
            );
        },
        _ => panic!("a write over an existing record broadcasts a patch"),
    }
    assert_eq!(read(&node2, "U1").unwrap(), "TACG", "the stored value stays unchanged");
}

#[test]
fn locally_registered_key_gets_fresh_id_and_broadcast() {
    let k1 = keypair();
    let mut node = DbHandle::new();
    let request = SubmitPublicKey {
        id: String::new(),
        public_key: b64(k1.public_key().as_ref()),
    };
    let outcome = insert_public_key(&mut node, &request).expect("registration accepted");
    assert_eq!(outcome.id.len(), 36);
    match outcome.broadcast {
        BroadcastPayload::NewIdentity(pk) => {
            assert_eq!(pk.id, outcome.id);
            assert_eq!(pk.public_key, Some(k1.public_key().as_ref().to_vec()));
        },
        _ => panic!("a registration broadcasts the identity"),
    }
    // The key is on file under the fresh id: a signed write with it passes.
    let write = SubmitDnaSequence {
        id: outcome.id.clone(),
        dna_sequence: String::from("TACG"),
        signature: b64(k1.sign(b"TACG").as_ref()),
    };
    insert_dna_sequence(&mut node, &write).expect("signed write accepted");
    assert_eq!(read(&node, &outcome.id).unwrap(), "TACG");
}

#[test]
fn undecodable_key_registration_rejected() {
    let mut node = DbHandle::new();
    let request = SubmitPublicKey {
        id: String::from("U1"),
        public_key: String::from("*not base64*"),
    };
    assert!(matches!(
        share_public_key(&mut node, &request),
        Err(DbPublicKeyError::DecodeFailed(_))
    ));
    assert!(matches!(
        insert_public_key(&mut node, &request),
        Err(DbPublicKeyError::DecodeFailed(_))
    ));
}

#[test]
fn reads_and_replacement() {
    let mut db = DbHandle::new();
    assert!(matches!(
        read(&db, "U1"),
        Err(DbDnaSequenceError::DnaSequenceNotFound(_))
    ));
    db.push_dna_sequence(&DnaSequence::new(String::from("U1"), String::from("AAA")))
        .expect("push accepted");
    db.push_dna_sequence(&DnaSequence::new(String::from("U2"), String::from("CCC")))
        .expect("push accepted");
    db.push_dna_sequence(&DnaSequence::new(String::from("U1"), String::from("GGG")))
        .expect("push accepted");
    assert_eq!(read(&db, "U1").unwrap(), "GGG", "a later push replaces the value");
    assert_eq!(read(&db, "U2").unwrap(), "CCC");
}

#[test]
fn patch_for_unknown_id_rejected() {
    let mut node = DbHandle::new();
    let request = SubmitPatch {
        id: String::from("U1"),
        patch_txt: String::from("P4:4@1:1:1:1:2:TACCG"),
        signature: String::from("sig"),
    };
    let err = share_patch(&mut node, &request).unwrap_err();
    assert!(matches!(err, DbDnaSequenceError::DnaSequenceNotFound(_)));
}

#[test]
fn malformed_patch_text_rejected() {
    let k1 = keypair();
    let mut node = DbHandle::new();
    register(&mut node, "U1", &k1);
    let first = SubmitDnaSequence {
        id: String::from("U1"),
        dna_sequence: String::from("TACG"),
        signature: b64(k1.sign(b"TACG").as_ref()),
    };
    insert_dna_sequence(&mut node, &first).expect("first write accepted");
    let request = SubmitPatch {
        id: String::from("U1"),
        patch_txt: String::from("not a patch"),
        signature: b64(k1.sign(b"TACG").as_ref()),
    };
    let err = share_patch(&mut node, &request).unwrap_err();
    assert_eq!(err, DbDnaSequenceError::PatchFailed);
    assert_eq!(read(&node, "U1").unwrap(), "TACG", "the stored value stays unchanged");
}
