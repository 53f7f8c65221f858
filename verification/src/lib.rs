//! Efficient, type-safe diffing of values.
//!
//! `diff` compares a base value with a target and yields one of three
//! states: nothing changed, a patch that describes only the parts that
//! changed, or a reference to the whole target. `apply` consumes such a
//! diff and turns the base into the target in place, collecting every
//! mismatch between patch and value instead of stopping at the first.
//!
//! The contracts are relations: `Diffable::diffs` says which diffs are
//! correct for a pair of values, `Apply::applies` says what applying a
//! patch may do to a value and which errors it reports. The module `laws`
//! proves from them that diffing a value against itself reports no change
//! and that applying a diff reproduces the target.

pub mod error;
pub mod traits;
pub mod diffs;
pub mod laws;
pub mod maps;
pub mod hash_maps;
pub mod btree_maps;
pub mod leaves;
pub mod vectors;
pub mod options;
pub mod boxes;
pub mod tuples;
pub mod uuids;

pub use crate::diffs::{AtomicDiff, DeepDiff, Id, KvDiff};
pub use crate::error::ApplyError;
pub use crate::traits::{Apply, Diffable, Replace};
