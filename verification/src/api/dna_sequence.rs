//! Sequence writes: the verify → diff → persist pipeline for local writes,
//! the apply path for patches received from peers, and reads.

use vstd::prelude::*;

use crate::model::dna_sequence::DnaSequence;
use crate::model::patch::Patch;
use crate::model::public_key::PublicKey;
use crate::model::public_key::WrongSignatureError;
use crate::model::public_key::spec_check_signature;
use crate::repository::db::DbHandle;
use crate::repository::db::QuerryError;
use crate::repository::db::EmptyTableError;
use crate::sender::BroadcastPayload;
use crate::diff::diff;
use crate::diff::spec_diff;
use crate::diff::lemma_diff_reads_back;
use crate::hunk::spec_patch;
use crate::codec::make_patch;
use crate::codec::parse_patch;
use crate::codec::spec_encode;
use crate::codec::spec_parse;
use crate::apply::apply_patch;
use crate::apply::spec_apply;

verus! {

/// Errors of the sequence operations.
#[derive(Debug, Clone, PartialEq, Eq, Structural)]
pub enum DbDnaSequenceError {
    /// No record on file for the id.
    DnaSequenceNotFound(QuerryError),
    /// The store refused the write.
    PushFailed(QuerryError),
    /// The signature does not authenticate the write.
    SignatureVerificationFailed(WrongSignatureError),
    /// The patch is malformed or some hunk failed to apply: the whole
    /// write is rejected.
    PatchFailed,
}

/// An inbound full-sequence write.
#[derive(Debug, Clone)]
pub struct SubmitDnaSequence {
    pub id: String,
    pub dna_sequence: String,
    pub signature: String,
}

/// An inbound patch write.
#[derive(Debug, Clone)]
pub struct SubmitPatch {
    pub id: String,
    pub patch_txt: String,
    pub signature: String,
}

/// An id-only request.
#[derive(Debug, Clone)]
pub struct ClientId {
    pub id: String,
}

/// A locally accepted write: the id it went to and the payload to fan out
/// to the peers.
#[derive(Debug)]
pub struct InsertDnaOutcome {
    pub id: String,
    pub broadcast: BroadcastPayload,
}

/// The signature gate over the store's key map: fails closed for an id
/// with no key on file, otherwise checks the signature as
/// `spec_check_signature` describes.
pub open spec fn spec_gate(
    keys: Map<Seq<char>, Option<Seq<u8>>>,
    id: Seq<char>,
    signature: Seq<char>,
    message: Seq<char>,
) -> Result<(), WrongSignatureError> {
    if !keys.contains_key(id) {
        Err(WrongSignatureError::NoPublicKey)
    } else {
        spec_check_signature(keys[id], signature, message)
    }
}

/// Whether every hunk of a patch application succeeded.
pub open spec fn all_flags_true(flags: Seq<bool>) -> bool {
    forall|k: int| 0 <= k < flags.len() ==> flags[k]
}

/// The patch text a local write generates: the encoded patch of the diff
/// from the stored value to the new one.
pub open spec fn spec_patch_between(old_text: Seq<char>, new_text: Seq<char>) -> Seq<char> {
    spec_encode(spec_patch(spec_diff(old_text, new_text)))
}

/// What a patch write received from a peer does to a store: rejected when
/// the id has no record, the patch text is malformed, any hunk fails, or
/// the signature over the patched result fails; otherwise the patched
/// result becomes the value on file.
pub open spec fn spec_share_patch(
    seqs: Map<Seq<char>, Seq<char>>,
    keys: Map<Seq<char>, Option<Seq<u8>>>,
    id: Seq<char>,
    patch_txt: Seq<char>,
    signature: Seq<char>,
) -> Result<Seq<char>, DbDnaSequenceError> {
    if !seqs.contains_key(id) {
        Err(
            DbDnaSequenceError::DnaSequenceNotFound(
                QuerryError::EmptyTableErrorW(EmptyTableError::NoDnaSequences),
            ),
        )
    } else {
        match spec_parse(patch_txt) {
            Option::None => Err(DbDnaSequenceError::PatchFailed),
            Option::Some(pm) => {
                let applied = spec_apply(pm, seqs[id]);
                if !all_flags_true(applied.1) {
                    Err(DbDnaSequenceError::PatchFailed)
                } else {
                    match spec_gate(keys, id, signature, applied.0) {
                        Result::Err(e) => Err(DbDnaSequenceError::SignatureVerificationFailed(e)),
                        Result::Ok(_) => Ok(applied.0),
                    }
                }
            },
        }
    }
}

/// Whether every flag of `flags` is set.
fn all_true(flags: &Vec<bool>) -> (b: bool)
    ensures
        b == all_flags_true(flags@),
{
    let n = flags.len();
    let mut k: usize = 0;
    while k < n
        invariant
            n == flags@.len(),
            k <= n,
            forall|t: int| 0 <= t < k ==> flags@[t],
        decreases n - k,
    {
        if !flags[k] {
            return false;
        }
        k = k + 1;
    }
    true
}

/// The sequence on file for an id.
pub fn dna(db: &DbHandle, request: &ClientId) -> (r: Result<String, DbDnaSequenceError>)
    ensures
        db.seq_map().contains_key(request.id@) ==> (r matches Ok(s) && s@ == db.seq_map()[
            request.id@
        ]),
        !db.seq_map().contains_key(request.id@) ==> r == Err::<String, DbDnaSequenceError>(
            DbDnaSequenceError::DnaSequenceNotFound(
                QuerryError::EmptyTableErrorW(EmptyTableError::NoDnaSequences),
            ),
        ),
{
    match db.get_dna_sequence(request.id.as_str()) {
        Ok(read_seq) => Ok(read_seq.dna_sequence),
        Err(e) => Err(DbDnaSequenceError::DnaSequenceNotFound(e)),
    }
}

/// Applies a patch a peer broadcast, as `spec_share_patch` describes: the
/// patched result is stored only when every hunk applied and the signature
/// over the patched result verifies; any failure leaves the store
/// unchanged.
pub fn share_patch(db: &mut DbHandle, request: &SubmitPatch) -> (r: Result<
    String,
    DbDnaSequenceError,
>)
    ensures
        spec_share_patch(
            old(db).seq_map(),
            old(db).key_map(),
            request.id@,
            request.patch_txt@,
            request.signature@,
        ) matches Ok(v) ==> (r matches Ok(id) && id@ == request.id@ && final(db).seq_map() == old(db).seq_map().insert(request.id@, v) && final(db).key_map() == old(db).key_map()),
        spec_share_patch(
            old(db).seq_map(),
            old(db).key_map(),
            request.id@,
            request.patch_txt@,
            request.signature@,
        ) matches Err(e) ==> (r == Err::<String, DbDnaSequenceError>(e) && final(db).seq_map()
            == old(db).seq_map() && final(db).key_map() == old(db).key_map()),
{
    let dna_sequence = match db.get_dna_sequence(request.id.as_str()) {
        Ok(d) => d,
        Err(_) => {
            return Err(
                DbDnaSequenceError::DnaSequenceNotFound(
                    QuerryError::EmptyTableErrorW(EmptyTableError::NoDnaSequences),
                ),
            );
        },
    };
    let patch = match parse_patch(request.patch_txt.as_str()) {
        Ok(p) => p,
        Err(_) => {
            return Err(DbDnaSequenceError::PatchFailed);
        },
    };
    let (patched_sequence, ops) = apply_patch(&patch, dna_sequence.dna_sequence.as_str());
    if !all_true(&ops) {
        return Err(DbDnaSequenceError::PatchFailed);
    }
    let public_key = match db.get_public_key(request.id.as_str()) {
        Ok(p) => p,
        Err(_) => {
            return Err(
                DbDnaSequenceError::SignatureVerificationFailed(WrongSignatureError::NoPublicKey),
            );
        },
    };
    match PublicKey::check_signature(
        request.signature.clone(),
        public_key,
        patched_sequence.clone(),
    ) {
        Ok(_) => {},
        Err(e) => {
            return Err(DbDnaSequenceError::SignatureVerificationFailed(e));
        },
    }
    let new_sequence = DnaSequence::new(request.id.clone(), patched_sequence);
    match db.push_dna_sequence(&new_sequence) {
        Ok(id) => Ok(id),
        Err(e) => Err(DbDnaSequenceError::PushFailed(e)),
    }
}

/// Stores a full sequence a peer broadcast, once its signature verifies
/// against the key on file for the id; a failed gate leaves the store
/// unchanged.
pub fn share_dna_sequence(db: &mut DbHandle, request: &SubmitDnaSequence) -> (r: Result<
    String,
    DbDnaSequenceError,
>)
    ensures
        spec_gate(
            old(db).key_map(),
            request.id@,
            request.signature@,
            request.dna_sequence@,
        ) matches Err(e) ==> (r == Err::<String, DbDnaSequenceError>(
            DbDnaSequenceError::SignatureVerificationFailed(e),
        ) && final(db).seq_map() == old(db).seq_map() && final(db).key_map() == old(db).key_map()),
        spec_gate(old(db).key_map(), request.id@, request.signature@, request.dna_sequence@)
            is Ok ==> (r matches Ok(id) && id@ == request.id@ && final(db).seq_map() == old(db).seq_map().insert(request.id@, request.dna_sequence@) && final(db).key_map() == old(db).key_map()),
{
    let dna_sequence = DnaSequence::new(request.id.clone(), request.dna_sequence.clone());
    let public_key = match db.get_public_key(request.id.as_str()) {
        Ok(p) => p,
        Err(_) => {
            return Err(
                DbDnaSequenceError::SignatureVerificationFailed(WrongSignatureError::NoPublicKey),
            );
        },
    };
    match PublicKey::check_signature(
        request.signature.clone(),
        public_key,
        request.dna_sequence.clone(),
    ) {
        Ok(_) => {},
        Err(e) => {
            return Err(DbDnaSequenceError::SignatureVerificationFailed(e));
        },
    }
    match db.push_dna_sequence(&dna_sequence) {
        Ok(id) => Ok(id),
        Err(e) => Err(DbDnaSequenceError::PushFailed(e)),
    }
}

/// The local write pipeline: verify the signature against the key on file,
/// persist the new value, and hand back what to broadcast — the full
/// record where the id was new, or the patch from the stored value to the
/// new one where a record existed. A failed gate leaves the store
/// unchanged.
pub fn insert_dna_sequence(db: &mut DbHandle, request: &SubmitDnaSequence) -> (r: Result<
    InsertDnaOutcome,
    DbDnaSequenceError,
>)
    ensures
        spec_gate(
            old(db).key_map(),
            request.id@,
            request.signature@,
            request.dna_sequence@,
        ) matches Err(e) ==> (r matches Err(e2) && e2
            == DbDnaSequenceError::SignatureVerificationFailed(e) && final(db).seq_map() == old(db).seq_map() && final(db).key_map() == old(db).key_map()),
        spec_gate(old(db).key_map(), request.id@, request.signature@, request.dna_sequence@)
            is Ok ==> (r matches Ok(out) && out.id@ == request.id@ && final(db).seq_map() == old(db).seq_map().insert(request.id@, request.dna_sequence@) && final(db).key_map() == old(db).key_map() && (old(db).seq_map().contains_key(request.id@) ==> (out.broadcast matches
            BroadcastPayload::NewPatch(p, sig) && p.id@ == request.id@ && sig@
            == request.signature@ && p.patch_txt@ == spec_patch_between(
            old(db).seq_map()[request.id@],
            request.dna_sequence@,
        ))) && (!old(db).seq_map().contains_key(request.id@) ==> (out.broadcast matches
            BroadcastPayload::NewSequence(d, sig) && d.id@ == request.id@ && d.dna_sequence@
            == request.dna_sequence@ && sig@ == request.signature@))),
{
    let public_key = match db.get_public_key(request.id.as_str()) {
        Ok(p) => p,
        Err(_) => {
            return Err(
                DbDnaSequenceError::SignatureVerificationFailed(WrongSignatureError::NoPublicKey),
            );
        },
    };
    match PublicKey::check_signature(
        request.signature.clone(),
        public_key,
        request.dna_sequence.clone(),
    ) {
        Ok(_) => {},
        Err(e) => {
            return Err(DbDnaSequenceError::SignatureVerificationFailed(e));
        },
    }
    let dna_sequence = DnaSequence::new(request.id.clone(), request.dna_sequence.clone());
    match db.get_dna_sequence(request.id.as_str()) {
        Ok(old_sequence) => {
            let ops = diff(old_sequence.dna_sequence.as_str(), request.dna_sequence.as_str());
            proof {
                lemma_diff_reads_back(old_sequence.dna_sequence@, request.dna_sequence@);
            }
            let patch_txt = make_patch(&ops);
            match db.push_dna_sequence(&dna_sequence) {
                Ok(_) => {
                    let patch = Patch::new(request.id.clone(), patch_txt);
                    Ok(
                        InsertDnaOutcome {
                            id: request.id.clone(),
                            broadcast: BroadcastPayload::NewPatch(
                                patch,
                                request.signature.clone(),
                            ),
                        },
                    )
                },
                Err(e) => Err(DbDnaSequenceError::PushFailed(e)),
            }
        },
        Err(_) => {
            match db.push_dna_sequence(&dna_sequence) {
                Ok(_) => Ok(
                    InsertDnaOutcome {
                        id: request.id.clone(),
                        broadcast: BroadcastPayload::NewSequence(
                            dna_sequence,
                            request.signature.clone(),
                        ),
                    },
                ),
                Err(e) => Err(DbDnaSequenceError::PushFailed(e)),
            }
        },
    }
}

/// Same-id serialization law: a write holds the store exclusively through
/// its whole verify → diff → persist critical section, so when two writes
/// to one id run, the later one reads the value the earlier one persisted.
/// Its diff base is therefore the earlier write's value `v1`, never the
/// stale value both writers started from.
pub proof fn lemma_same_id_serialization(
    seqs: Map<Seq<char>, Seq<char>>,
    id: Seq<char>,
    v1: Seq<char>,
    v2: Seq<char>,
)
    ensures
        seqs.insert(id, v1).contains_key(id),
        seqs.insert(id, v1)[id] == v1,
        spec_patch_between(seqs.insert(id, v1)[id], v2) == spec_patch_between(v1, v2),
{
}

} // verus!
