//! Persistence layer: the record store the write pipeline runs against.

pub mod db;
