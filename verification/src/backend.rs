//! The read-only persisted storage backend capability.

use crate::Error;
use vstd::prelude::*;

verus! {

/// A persisted key-value store, consulted only for keys the overlay does not
/// resolve. It is never mutated by this crate.
pub trait Backend {
    /// Error type of a failed lookup.
    type Error: Error;

    /// The persisted mapping this backend answers lookups from: the bytes a
    /// lookup of `key` resolves whenever it succeeds. An absent key resolves
    /// to whatever the store reports for it, conventionally empty bytes.
    spec fn storage_at(&self, key: Seq<u8>) -> Seq<u8>;

    /// Look up the value stored for `key`. A lookup may fail, but a
    /// successful one returns exactly the persisted view's bytes.
    fn storage(&self, key: &[u8]) -> (r: Result<Vec<u8>, Self::Error>)
        ensures
            r matches Ok(v) ==> v@ == self.storage_at(key@),
    ;

    /// The currently stored code blob.
    fn code(&self) -> Vec<u8>;
}

} // verus!
