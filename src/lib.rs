//! A size-bounded Bloom filter: a set-membership record that may report
//! false positives but never false negatives.
pub mod errors;
pub mod hashing;
pub mod instructions;
pub mod laws;
pub mod state;
