//! The write pipeline: the operations the node exposes, each verifying a
//! signature before it touches the store and handing back what must be
//! broadcast to the peers.

pub mod dna_sequence;
pub mod public_key;
