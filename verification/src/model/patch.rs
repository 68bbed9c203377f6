//! A patch in transit: the id of the record it targets and the encoded
//! patch text.

use vstd::prelude::*;

verus! {

/// A patch addressed to one record, carrying the textual patch encoding.
#[derive(Debug, Clone)]
pub struct Patch {
    pub id: String,
    pub patch_txt: String,
}

impl Patch {
    /// A patch with the given target id and patch text.
    pub fn new(id: String, patch_txt: String) -> (r: Patch)
        ensures
            r.id@ == id@,
            r.patch_txt@ == patch_txt@,
    {
        Patch { id, patch_txt }
    }
}

} // verus!
