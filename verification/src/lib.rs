//! A peer-replicated store of identity-bound DNA sequence records.
//!
//! Each record is a mutable UTF-8 text owned by a cryptographic identity.
//! Writes are accepted only when signed by the owner's registered key, and
//! accepted writes are propagated to a fixed peer set either as full records
//! or as context-bearing textual patches, with a Byzantine-style quorum of
//! acknowledgements marking a broadcast as complete.

pub mod text;
pub mod diff;
pub mod hunk;
pub mod codec;
pub mod apply;
pub mod laws;
pub mod model;
pub mod repository;
pub mod api;
pub mod sender;
