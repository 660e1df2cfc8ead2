use vstd::prelude::*;

verus! {

/// Why an operation on a filter was refused.
#[derive(Debug, Clone, Copy, PartialEq, Eq, Structural)]
pub enum BloomFilterError {
    /// Some bit that the element hashes to is clear: it was never added.
    ElementNotFound,
    /// The requested size or number of hash functions is zero.
    InvalidParameters,
    /// The requested size exceeds the largest bit array a filter may hold.
    FilterTooLarge,
}

} // verus!
