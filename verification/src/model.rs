//! Data model: sequence records, patches in transit, and the identity key
//! that gates writes.

pub mod dna_sequence;
pub mod patch;
pub mod public_key;
