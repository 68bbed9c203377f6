//! A DNA sequence record: an opaque string id and the sequence text.

use vstd::prelude::*;

verus! {

/// One stored record: the current sequence text for an id.
#[derive(Debug, Clone)]
pub struct DnaSequence {
    pub id: String,
    pub dna_sequence: String,
}

impl DnaSequence {
    /// A record with the given id and sequence text.
    pub fn new(id: String, dna_sequence: String) -> (r: DnaSequence)
        ensures
            r.id@ == id@,
            r.dna_sequence@ == dna_sequence@,
    {
        DnaSequence { id, dna_sequence }
    }
}

} // verus!
