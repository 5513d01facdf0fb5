//! Storage core of a bidirectional map: one value reachable from two indexes
//! without being stored twice.
//!
//! - `mem` splits the ownership of a heap value into two halves, which read
//!   the same value and give it back when reunited, and holds the wrapper
//!   type under which a borrowed probe is compared.
//! - `traits` is the map abstraction: the operations of a backend, each with
//!   its contract over one model, a finite map from keys to pairs of halves.
//! - `maps::btree` is the ordered-tree backend with its owned, double-ended
//!   iteration sequence.
//! - `history` states what holds of a map after any run of changes.
pub mod history;
pub mod maps;
pub mod mem;
pub mod traits;
