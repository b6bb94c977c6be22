//! How a collection is laid out in the engine: the names of its two
//! partitions and the key under which a document's relation ledger is kept.

use vstd::prelude::*;
use vstd::bytes::spec_u64_to_le_bytes;
use vstd::bytes::lemma_auto_spec_u64_to_from_le_bytes;

verus! {

/// The reserved marker that turns an identifier into the key of its ledger.
pub const RELATION_KEY: [u8; 2] = [0, 1];

/// The reserved marker that turns a collection name into the name of its
/// index partition.
pub const INDEXES_KEY: [u8; 2] = [0, 2];

/// The reserved ledger marker as a sequence.
pub open spec fn relation_marker() -> Seq<u8> {
    seq![0u8, 1u8]
}

/// The reserved index marker as a sequence.
pub open spec fn indexes_marker() -> Seq<u8> {
    seq![0u8, 2u8]
}

/// The name of the partition that holds the records of a collection.
pub open spec fn primary_partition_of(collection: Seq<char>) -> Seq<u8> {
    vstd::utf8::encode_utf8(collection)
}

/// The name of the partition that holds the index of a collection.
pub open spec fn index_partition_of(collection: Seq<char>) -> Seq<u8> {
    vstd::utf8::encode_utf8(collection) + indexes_marker()
}

/// The key of the ledger that belongs to the document `id`.
pub open spec fn ledger_key_of(id: Seq<u8>) -> Seq<u8> {
    id + relation_marker()
}

/// Whether `key` ends in the reserved ledger marker.
pub open spec fn is_ledger_key_of(key: Seq<u8>) -> bool {
    key.len() >= 2 && key[key.len() - 2] == 0 && key[key.len() - 1] == 1
}

/// Copies `head` and appends the two bytes of `marker`.
fn with_marker(head: &[u8], marker: &[u8; 2]) -> (out: Vec<u8>)
    ensures
        out@ == head@ + marker@,
{
    let mut out: Vec<u8> = Vec::new();
    let mut i: usize = 0;
    while i < head.len()
        invariant
            i <= head.len(),
            out@ == head@.take(i as int),
        decreases head.len() - i,
    {
        out.push(head[i]);
        i += 1;
    }
    out.push(marker[0]);
    out.push(marker[1]);
    assert(out@ =~= head@ + marker@);
    out
}

/// The name of the primary partition of `collection`.
pub fn primary_partition(collection: &str) -> (name: Vec<u8>)
    ensures
        name@ == primary_partition_of(collection@),
{
    collection.as_bytes_vec()
}

/// The name of the index partition of `collection`.
pub fn index_partition(collection: &str) -> (name: Vec<u8>)
    ensures
        name@ == index_partition_of(collection@),
{
    let name = with_marker(collection.as_bytes(), &INDEXES_KEY);
    assert(INDEXES_KEY@ =~= indexes_marker());
    name
}

/// The key under which the ledger of the document `id` is stored.
pub fn ledger_key(id: &[u8]) -> (key: Vec<u8>)
    ensures
        key@ == ledger_key_of(id@),
{
    let key = with_marker(id, &RELATION_KEY);
    assert(RELATION_KEY@ =~= relation_marker());
    key
}

/// Tells a ledger entry from a document record by its key.
pub fn is_ledger_key(key: &[u8]) -> (yes: bool)
    ensures
        yes == is_ledger_key_of(key@),
{
    let n = key.len();
    n >= 2 && key[n - 2] == 0 && key[n - 1] == 1
}

/// Every document has a ledger key of its own, and each ledger key is
/// known for one by its last two bytes.
pub proof fn lemma_ledger_keys_are_apart(first: Seq<u8>, second: Seq<u8>)
    ensures
        is_ledger_key_of(ledger_key_of(first)),
        ledger_key_of(first) == ledger_key_of(second) ==> first == second,
{
    if ledger_key_of(first) == ledger_key_of(second) {
        assert(ledger_key_of(first).take(first.len() as int) =~= first);
        assert(ledger_key_of(second).take(second.len() as int) =~= second);
    }
}

/// The index partition of a collection is not its primary partition.
pub proof fn lemma_partitions_differ(collection: Seq<char>)
    ensures
        index_partition_of(collection) != primary_partition_of(collection),
{
    assert(index_partition_of(collection).len() == primary_partition_of(collection).len() + 2);
}

/// Collections with different names have different primary partitions
/// and different index partitions.
pub proof fn lemma_partitions_are_apart(first: Seq<char>, second: Seq<char>)
    requires
        first != second,
    ensures
        primary_partition_of(first) != primary_partition_of(second),
        index_partition_of(first) != index_partition_of(second),
{
    vstd::utf8::encode_utf8_decode_utf8(first);
    vstd::utf8::encode_utf8_decode_utf8(second);
    let a = vstd::utf8::encode_utf8(first);
    let b = vstd::utf8::encode_utf8(second);
    assert(a != b);
    if index_partition_of(first) == index_partition_of(second) {
        assert(index_partition_of(first).take(a.len() as int) =~= a);
        assert(index_partition_of(second).take(b.len() as int) =~= b);
    }
}

/// Whether `bytes` are the eight bytes of `value` in one of the two byte
/// orders a machine can have.
pub open spec fn is_native_encoding(bytes: Seq<u8>, value: u64) -> bool {
    bytes == spec_u64_to_le_bytes(value) || bytes == spec_u64_to_le_bytes(value).reverse()
}

/// Calls `u64::to_ne_bytes`. The result is the value's memory
/// representation, so it is the little-endian encoding on one kind of
/// machine and its reverse on the other; which one is not claimed.
#[verifier::external_body]
fn native_bytes(value: u64) -> (bytes: [u8; 8])
    ensures
        is_native_encoding(bytes@, value),
{
    value.to_ne_bytes()
}

/// The eight bytes of `value` in the machine's own byte order: the form
/// in which a generated identifier and a hash are stored.
pub fn native_order(value: u64) -> (out: Vec<u8>)
    ensures
        is_native_encoding(out@, value),
        out@.len() == 8,
{
    let bytes = native_bytes(value);
    proof {
        lemma_auto_spec_u64_to_from_le_bytes();
        assert(spec_u64_to_le_bytes(value).len() == 8);
    }
    let mut out: Vec<u8> = Vec::new();
    let mut i: usize = 0;
    while i < 8
        invariant
            i <= 8,
            bytes@.len() == 8,
            out@ == bytes@.take(i as int),
        decreases 8 - i,
    {
        out.push(bytes[i]);
        i += 1;
    }
    assert(out@ =~= bytes@);
    out
}

/// Whether `first` and `second` encode their values in the same byte
/// order, as any two encodings made on one machine do.
pub open spec fn in_same_order(first: Seq<u8>, a: u64, second: Seq<u8>, b: u64) -> bool {
    ||| first == spec_u64_to_le_bytes(a) && second == spec_u64_to_le_bytes(b)
    ||| first == spec_u64_to_le_bytes(a).reverse() && second == spec_u64_to_le_bytes(b).reverse()
}

/// Distinct counters give distinct identifiers: two values that differ
/// have different encodings in one byte order.
pub proof fn lemma_distinct_counters_distinct_identifiers(
    first: Seq<u8>,
    a: u64,
    second: Seq<u8>,
    b: u64,
)
    requires
        a != b,
        in_same_order(first, a, second, b),
    ensures
        first != second,
{
    lemma_auto_spec_u64_to_from_le_bytes();
    let x = spec_u64_to_le_bytes(a);
    let y = spec_u64_to_le_bytes(b);
    assert(vstd::bytes::spec_u64_from_le_bytes(x) == a);
    assert(vstd::bytes::spec_u64_from_le_bytes(y) == b);
    assert(x != y);
    if x.reverse() == y.reverse() {
        assert(x.reverse().reverse() =~= x);
        assert(y.reverse().reverse() =~= y);
    }
}

} // verus!
