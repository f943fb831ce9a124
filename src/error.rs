//! Failures that the library reports to its immediate caller.
use vstd::prelude::*;

verus! {

/// A data-contract violation detected before any hashing work is done.
#[derive(Debug, Clone, Copy, PartialEq, Eq, Structural)]
pub enum EthashError {
    /// The epoch index is too large for its sizes to be represented.
    InvalidEpoch,
    /// A cache buffer whose length is not the one its epoch requires.
    InvalidCacheSize,
    /// A dataset size or cache that cannot feed the mixer.
    InvalidDatasetParameters,
}

} // verus!
