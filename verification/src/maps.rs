//! Backends of the map abstraction.
pub mod btree;
