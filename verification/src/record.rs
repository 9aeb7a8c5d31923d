//! The record interface the query engine works over.
//!
//! A record is an immutable snapshot entity with a stable identity key;
//! the key decides deduplication when filter branches are unioned.

use vstd::prelude::*;

verus! {

/// A snapshot record with a stable identity key.
pub trait Record: Sized {
    /// The mathematical type of the identity key.
    type Key;

    /// The identity key: records with equal keys count as the same
    /// record for deduplication.
    spec fn spec_key(&self) -> Self::Key;

    /// Decides key equality.
    fn key_eq(&self, other: &Self) -> (r: bool)
        ensures
            r == (self.spec_key() == other.spec_key()),
    ;
}

/// Whether some record in `s` has the key of `x`.
pub open spec fn spec_has_key<R: Record>(s: Seq<R>, x: R) -> bool {
    exists|i: int| 0 <= i < s.len() && (#[trigger] s[i]).spec_key() == x.spec_key()
}

/// All records in `s` have pairwise distinct identity keys, as the
/// records of one snapshot do.
pub open spec fn distinct_keys<R: Record>(s: Seq<R>) -> bool {
    forall|i: int, j: int|
        0 <= i < j < s.len() ==> (#[trigger] s[i]).spec_key() != (#[trigger] s[j]).spec_key()
}

} // verus!
