use vstd::prelude::*;

verus! {

/// Why a sequence of entries could not be read as a mapping.
#[derive(Clone, Copy, Debug, PartialEq, Eq)]
pub enum ConstructionError {
    /// The entry at this position repeats the key of an earlier entry.
    DuplicateKey(usize),
}

} // verus!
