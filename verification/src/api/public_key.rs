//! Identity registration: storing a verification key under an id and
//! broadcasting it to the peers.

use vstd::prelude::*;

use crate::model::public_key::PublicKey;
use crate::model::public_key::PublicKeyFromBase64Error;
use crate::model::public_key::b64_decoded;
use crate::repository::db::DbHandle;
use crate::repository::db::QuerryError;
use crate::sender::BroadcastPayload;

verus! {

/// Errors of the key registration operations.
#[derive(Debug)]
pub enum DbPublicKeyError {
    /// The store refused the write.
    PushFailed(QuerryError),
    /// The submitted key text is not valid base64.
    DecodeFailed(PublicKeyFromBase64Error),
}

/// An inbound key registration: the id it is for and the base64-encoded
/// key bytes.
#[derive(Debug, Clone)]
pub struct SubmitPublicKey {
    pub id: String,
    pub public_key: String,
}

/// A locally accepted registration: the id the key is stored under and the
/// payload to fan out to the peers.
#[derive(Debug)]
pub struct InsertKeyOutcome {
    pub id: String,
    pub broadcast: BroadcastPayload,
}

/// Stores the key a peer broadcast under the id the peer chose. A key text
/// that is not valid base64 is rejected with `DecodeFailed` and the store
/// is left unchanged.
pub fn share_public_key(db: &mut DbHandle, request: &SubmitPublicKey) -> (r: Result<
    String,
    DbPublicKeyError,
>)
    ensures
        b64_decoded(request.public_key@) matches Some(v) ==> (r matches Ok(id) && id@
            == request.id@ && final(db).key_map() == old(db).key_map().insert(
            request.id@,
            Some(v),
        ) && final(db).seq_map() == old(db).seq_map()),
        b64_decoded(request.public_key@) is None ==> (r matches Err(e) && (e matches
            DbPublicKeyError::DecodeFailed(_)) && final(db).key_map() == old(db).key_map()
            && final(db).seq_map() == old(db).seq_map()),
{
    let public_key = match PublicKey::from_raw(request.id.clone(), request.public_key.clone()) {
        Ok(p) => p,
        Err(e) => {
            return Err(DbPublicKeyError::DecodeFailed(e));
        },
    };
    match db.push_public_key(&public_key) {
        Ok(id) => Ok(id),
        Err(e) => Err(DbPublicKeyError::PushFailed(e)),
    }
}

/// Registers a key submitted locally: stores it under a freshly generated
/// id and hands back the `NewIdentity` payload to broadcast. A key text
/// that is not valid base64 is rejected with `DecodeFailed` and the store
/// is left unchanged.
pub fn insert_public_key(db: &mut DbHandle, request: &SubmitPublicKey) -> (r: Result<
    InsertKeyOutcome,
    DbPublicKeyError,
>)
    ensures
        b64_decoded(request.public_key@) matches Some(v) ==> (r matches Ok(out) && out.id@.len()
            == 36 && final(db).key_map() == old(db).key_map().insert(out.id@, Some(v)) && final(db).seq_map() == old(db).seq_map() && (out.broadcast matches BroadcastPayload::NewIdentity(p)
            && p.id@ == out.id@ && p.key_view() == Some(v))),
        b64_decoded(request.public_key@) is None ==> (r matches Err(e) && (e matches
            DbPublicKeyError::DecodeFailed(_)) && final(db).key_map() == old(db).key_map()
            && final(db).seq_map() == old(db).seq_map()),
{
    let public_key = match PublicKey::from_base64(request.public_key.clone()) {
        Ok(p) => p,
        Err(e) => {
            return Err(DbPublicKeyError::DecodeFailed(e));
        },
    };
    let id = public_key.id.clone();
    match db.push_public_key(&public_key) {
        Ok(_) => Ok(InsertKeyOutcome { id, broadcast: BroadcastPayload::NewIdentity(public_key) }),
        Err(e) => Err(DbPublicKeyError::PushFailed(e)),
    }
}

} // verus!
