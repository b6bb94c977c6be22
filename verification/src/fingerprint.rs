//! Fingerprints: the keys of a collection's index partition.
//!
//! A fingerprint is any byte string that the application derives from a
//! document. The default one is the eight bytes, in the machine's own byte
//! order, of a fast hash of a field.

use vstd::prelude::*;
use crate::layout::is_native_encoding;
use crate::layout::native_order;

verus! {

/// A fingerprint under which a document can be looked up.
pub type HashIndex = Vec<u8>;

/// The digest that `seahash::hash` computes for a buffer.
pub uninterp spec fn seahash_of(bytes: Seq<u8>) -> u64;

/// Whether `fingerprint` is the default fingerprint of a field with the
/// bytes `field`.
pub open spec fn is_fingerprint_of(fingerprint: Seq<u8>, field: Seq<u8>) -> bool {
    is_native_encoding(fingerprint, seahash_of(field))
}

/// Calls `seahash::hash`, which hashes the buffer with the crate's fixed
/// seed. The digest depends on the bytes alone: the crate reads its input
/// as little-endian words on every machine. Nothing more is claimed of it.
#[verifier::external_body]
fn seahash(bytes: &[u8]) -> (digest: u64)
    ensures
        digest == seahash_of(bytes@),
{
    seahash::hash(bytes)
}

/// The default fingerprint of a field: its hash, in native byte order.
pub fn fingerprint(field: &[u8]) -> (fp: HashIndex)
    ensures
        is_fingerprint_of(fp@, field@),
        fp@.len() == 8,
{
    native_order(seahash(field))
}

} // verus!
