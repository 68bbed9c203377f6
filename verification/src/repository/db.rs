//! The record store: sequences and public keys, each keyed by an opaque
//! string id.
//!
//! The store is an append log read back-to-front, so the value on file for
//! an id is the one most recently pushed — exactly the `insert` of the
//! map models that the contracts speak of. Callers hold the store behind
//! `&mut`, which serializes writes to the same id: a writer's read of the
//! stored value and its own push happen with no other writer in between.

use vstd::prelude::*;

use crate::model::dna_sequence::DnaSequence;
use crate::model::public_key::PublicKey;

verus! {

/// A lookup that found no row for the id.
#[derive(Debug, Clone, PartialEq, Eq, Structural)]
pub enum EmptyTableError {
    NoDnaSequences,
    NoPublicKeys,
}

/// Errors a store operation can report.
#[derive(Debug, Clone, PartialEq, Eq, Structural)]
pub enum QuerryError {
    EmptyTableErrorW(EmptyTableError),
}

/// The store: all pushed sequence records and key records, in push order.
#[derive(Debug)]
pub struct DbHandle {
    sequences: Vec<DnaSequence>,
    keys: Vec<PublicKey>,
}

/// The sequence value on file per id: later pushes win.
pub open spec fn seq_entries_map(s: Seq<DnaSequence>) -> Map<Seq<char>, Seq<char>>
    decreases s.len(),
{
    if s.len() == 0 {
        Map::empty()
    } else {
        seq_entries_map(s.drop_last()).insert(s.last().id@, s.last().dna_sequence@)
    }
}

/// The key value on file per id: later pushes win.
pub open spec fn key_entries_map(s: Seq<PublicKey>) -> Map<Seq<char>, Option<Seq<u8>>>
    decreases s.len(),
{
    if s.len() == 0 {
        Map::empty()
    } else {
        key_entries_map(s.drop_last()).insert(s.last().id@, s.last().key_view())
    }
}

/// The id whose entry the map keeps is the last-pushed one with that id.
proof fn lemma_seq_map_found(s: Seq<DnaSequence>, i: int, id: Seq<char>)
    requires
        0 <= i < s.len(),
        s[i].id@ == id,
        forall|j: int| i < j < s.len() ==> (#[trigger] s[j]).id@ != id,
    ensures
        seq_entries_map(s).contains_key(id),
        seq_entries_map(s)[id] == s[i].dna_sequence@,
    decreases s.len(),
{
    if i == s.len() - 1 {
    } else {
        lemma_seq_map_found(s.drop_last(), i, id);
        assert(s.last().id@ != id);
    }
}

/// An id pushed by no entry is absent from the map.
proof fn lemma_seq_map_absent(s: Seq<DnaSequence>, id: Seq<char>)
    requires
        forall|j: int| 0 <= j < s.len() ==> (#[trigger] s[j]).id@ != id,
    ensures
        !seq_entries_map(s).contains_key(id),
    decreases s.len(),
{
    if s.len() > 0 {
        lemma_seq_map_absent(s.drop_last(), id);
        assert(s.last().id@ != id);
    }
}

proof fn lemma_key_map_found(s: Seq<PublicKey>, i: int, id: Seq<char>)
    requires
        0 <= i < s.len(),
        s[i].id@ == id,
        forall|j: int| i < j < s.len() ==> (#[trigger] s[j]).id@ != id,
    ensures
        key_entries_map(s).contains_key(id),
        key_entries_map(s)[id] == s[i].key_view(),
    decreases s.len(),
{
    if i == s.len() - 1 {
    } else {
        lemma_key_map_found(s.drop_last(), i, id);
        assert(s.last().id@ != id);
    }
}

proof fn lemma_key_map_absent(s: Seq<PublicKey>, id: Seq<char>)
    requires
        forall|j: int| 0 <= j < s.len() ==> (#[trigger] s[j]).id@ != id,
    ensures
        !key_entries_map(s).contains_key(id),
    decreases s.len(),
{
    if s.len() > 0 {
        lemma_key_map_absent(s.drop_last(), id);
        assert(s.last().id@ != id);
    }
}

/// Whether two strings hold the same characters.
fn str_eq(a: &str, b: &str) -> (r: bool)
    ensures
        r == (a@ == b@),
{
    let n = a.unicode_len();
    let m = b.unicode_len();
    if n != m {
        return false;
    }
    let mut k: usize = 0;
    while k < n
        invariant
            n == a@.len(),
            n == b@.len(),
            k <= n,
            forall|t: int| 0 <= t < k ==> a@[t] == b@[t],
        decreases n - k,
    {
        if a.get_char(k) != b.get_char(k) {
            return false;
        }
        k = k + 1;
    }
    proof {
        assert(a@ =~= b@);
    }
    true
}

impl DbHandle {
    /// The sequence value on file per id.
    pub closed spec fn seq_map(self) -> Map<Seq<char>, Seq<char>> {
        seq_entries_map(self.sequences@)
    }

    /// The key value on file per id.
    pub closed spec fn key_map(self) -> Map<Seq<char>, Option<Seq<u8>>> {
        key_entries_map(self.keys@)
    }

    /// An empty store.
    pub fn new() -> (r: DbHandle)
        ensures
            r.seq_map() == Map::<Seq<char>, Seq<char>>::empty(),
            r.key_map() == Map::<Seq<char>, Option<Seq<u8>>>::empty(),
    {
        DbHandle { sequences: Vec::new(), keys: Vec::new() }
    }

    /// Stores `dna_sequence` as the value on file for its id, replacing any
    /// earlier value, and returns the id.
    pub fn push_dna_sequence(&mut self, dna_sequence: &DnaSequence) -> (r: Result<
        String,
        QuerryError,
    >)
        ensures
            r matches Ok(id) && id@ == dna_sequence.id@,
            final(self).seq_map() == old(self).seq_map().insert(
                dna_sequence.id@,
                dna_sequence.dna_sequence@,
            ),
            final(self).key_map() == old(self).key_map(),
    {
        let entry = DnaSequence {
            id: dna_sequence.id.clone(),
            dna_sequence: dna_sequence.dna_sequence.clone(),
        };
        self.sequences.push(entry);
        proof {
            assert(self.sequences@.drop_last() =~= old(self).sequences@);
        }
        Ok(dna_sequence.id.clone())
    }

    /// Stores `public_key` as the key on file for its id, replacing any
    /// earlier key, and returns the id.
    pub fn push_public_key(&mut self, public_key: &PublicKey) -> (r: Result<String, QuerryError>)
        ensures
            r matches Ok(id) && id@ == public_key.id@,
            final(self).key_map() == old(self).key_map().insert(
                public_key.id@,
                public_key.key_view(),
            ),
            final(self).seq_map() == old(self).seq_map(),
    {
        let key = match &public_key.public_key {
            Some(v) => Some(v.clone()),
            None => None,
        };
        let entry = PublicKey { id: public_key.id.clone(), public_key: key };
        proof {
            assert(entry.key_view() == public_key.key_view());
        }
        self.keys.push(entry);
        proof {
            assert(self.keys@.drop_last() =~= old(self).keys@);
        }
        Ok(public_key.id.clone())
    }

    /// The key record on file for `id`, or `NoPublicKeys` where none is.
    pub fn get_public_key(&self, id: &str) -> (r: Result<PublicKey, QuerryError>)
        ensures
            self.key_map().contains_key(id@) ==> (r matches Ok(p) && p.id@ == id@
                && p.key_view() == self.key_map()[id@]),
            !self.key_map().contains_key(id@) ==> r == Err::<PublicKey, QuerryError>(
                QuerryError::EmptyTableErrorW(EmptyTableError::NoPublicKeys),
            ),
    {
        let n = self.keys.len();
        let mut k: usize = n;
        while k > 0
            invariant
                n == self.keys@.len(),
                k <= n,
                forall|j: int| k <= j < n ==> (#[trigger] self.keys@[j]).id@ != id@,
            decreases k,
        {
            k = k - 1;
            let entry = &self.keys[k];
            if str_eq(entry.id.as_str(), id) {
                proof {
                    lemma_key_map_found(self.keys@, k as int, id@);
                }
                let key = match &entry.public_key {
                    Some(v) => Some(v.clone()),
                    None => None,
                };
                let found = PublicKey { id: entry.id.clone(), public_key: key };
                proof {
                    assert(found.key_view() == self.keys@[k as int].key_view());
                }
                return Ok(found);
            }
        }
        proof {
            lemma_key_map_absent(self.keys@, id@);
        }
        Err(QuerryError::EmptyTableErrorW(EmptyTableError::NoPublicKeys))
    }

    /// The sequence record on file for `id`, or `NoDnaSequences` where none
    /// is.
    pub fn get_dna_sequence(&self, id: &str) -> (r: Result<DnaSequence, QuerryError>)
        ensures
            self.seq_map().contains_key(id@) ==> (r matches Ok(d) && d.id@ == id@
                && d.dna_sequence@ == self.seq_map()[id@]),
            !self.seq_map().contains_key(id@) ==> r == Err::<DnaSequence, QuerryError>(
                QuerryError::EmptyTableErrorW(EmptyTableError::NoDnaSequences),
            ),
    {
        let n = self.sequences.len();
        let mut k: usize = n;
        while k > 0
            invariant
                n == self.sequences@.len(),
                k <= n,
                forall|j: int| k <= j < n ==> (#[trigger] self.sequences@[j]).id@ != id@,
            decreases k,
        {
            k = k - 1;
            let entry = &self.sequences[k];
            if str_eq(entry.id.as_str(), id) {
                proof {
                    lemma_seq_map_found(self.sequences@, k as int, id@);
                }
                return Ok(DnaSequence {
                    id: entry.id.clone(),
                    dna_sequence: entry.dna_sequence.clone(),
                });
            }
        }
        proof {
            lemma_seq_map_absent(self.sequences@, id@);
        }
        Err(QuerryError::EmptyTableErrorW(EmptyTableError::NoDnaSequences))
    }
}

} // verus!
