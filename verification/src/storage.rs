//! The backing store of a name's bytes: a `smallvec::SmallVec`, kept inline
//! for short names. The store is opaque to verification; its contents are
//! named by [`store_bytes`], and the two wrappers below are the only
//! operations the library needs from it.

use vstd::prelude::*;

verus! {

/// An owned byte store backed by `smallvec::SmallVec`, inline up to 36 bytes.
#[derive(Debug)]
#[verifier::external_body]
pub struct ByteStore {
    data: smallvec::SmallVec<[u8; 36]>,
}

/// The byte sequence a store holds.
pub uninterp spec fn store_bytes(v: ByteStore) -> Seq<u8>;

/// Relies on `SmallVec::from_slice`: the new vector holds exactly the
/// slice's elements, in order.
#[verifier::external_body]
pub(crate) fn store_from_slice(data: &[u8]) -> (r: ByteStore)
    ensures
        store_bytes(r) == data@,
{
    ByteStore { data: smallvec::SmallVec::from_slice(data) }
}

/// Relies on `SmallVec::as_ref`: it exposes the stored elements, in order.
#[verifier::external_body]
pub(crate) fn store_as_slice(v: &ByteStore) -> (r: &[u8])
    ensures
        r@ == store_bytes(*v),
{
    v.data.as_ref()
}

} // verus!
