//! What happens when a keyed collection repeats a key.
use crate::error::{duplicate_key, spec_duplicate_key, ReadError, ReadResult};
use crate::schema::containers::sealed::Sealed;
use vstd::prelude::*;

verus! {

/// How a keyed collection reacts when the encoded sequence repeats a key.
pub trait DuplicateKeyPolicy: Sealed {
    /// Whether a repeated key ends the read with an error.
    spec fn rejects() -> bool;

    /// Whether a repeated key ends the read with an error.
    fn reject_duplicates() -> (b: bool)
        ensures
            b == Self::rejects(),
    ;

    /// Fails the read if the entry that was just read repeats the key of an earlier one, and that
    /// is not allowed.
    fn check(collided: bool) -> (r: ReadResult<()>)
        ensures
            r == (if Self::rejects() && collided {
                Err::<(), ReadError>(spec_duplicate_key())
            } else {
                Ok(())
            }),
    {
        if Self::reject_duplicates() && collided {
            return Err(duplicate_key());
        }
        Ok(())
    }
}

/// An entry replaces an earlier one with the same key: the last one wins.
pub struct AllowDuplicateKeys;

/// A repeated key ends the read with an error. This bears on reading alone: a collection that is
/// keyed already cannot hold a key twice.
pub struct CheckUniqueKeys;

impl Sealed for AllowDuplicateKeys {

}

impl Sealed for CheckUniqueKeys {

}

impl DuplicateKeyPolicy for AllowDuplicateKeys {
    open spec fn rejects() -> bool {
        false
    }

    fn reject_duplicates() -> (b: bool) {
        false
    }
}

impl DuplicateKeyPolicy for CheckUniqueKeys {
    open spec fn rejects() -> bool {
        true
    }

    fn reject_duplicates() -> (b: bool) {
        true
    }
}

} // verus!
