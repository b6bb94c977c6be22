//! The secondary index of a collection: a tree from fingerprint to
//! identifier.
//!
//! A fingerprint has at most one owner, the document that wrote it last.
//! Indexing a document only adds and overwrites. A rebuild replaces the
//! whole tree by what the present documents produce, so that afterwards
//! a fingerprint resolves exactly when some present document produces it.

use vstd::prelude::*;
use crate::engine::Tree;
use crate::engine::inserted_all;
use crate::engine::value_at;

verus! {

/// A record as the index sees it: its identifier and the fingerprints it
/// produces.
pub type Produced = (Seq<u8>, Seq<Seq<u8>>);

/// The index entries of one document: each of its fingerprints, in order,
/// with its identifier.
pub open spec fn index_entries(id: Seq<u8>, fingerprints: Seq<Seq<u8>>) -> Seq<(Seq<u8>, Seq<u8>)> {
    Seq::new(fingerprints.len(), |i: int| (fingerprints[i], id))
}

/// The index entries of `records`: those of the first record, then those
/// of the second, and so on.
pub open spec fn rebuilt_entries(records: Seq<Produced>) -> Seq<(Seq<u8>, Seq<u8>)>
    decreases records.len(),
{
    if records.len() == 0 {
        Seq::empty()
    } else {
        rebuilt_entries(records.drop_last()) + index_entries(
            records.last().0,
            records.last().1,
        )
    }
}

/// The index tree that a rebuild from `records` leaves.
pub open spec fn rebuilt_index(records: Seq<Produced>) -> Tree {
    inserted_all(Map::empty(), rebuilt_entries(records))
}

/// Inserting one list of entries and then another is inserting the two
/// lists laid end to end.
pub proof fn lemma_inserted_all_concat(
    tree: Tree,
    head: Seq<(Seq<u8>, Seq<u8>)>,
    tail: Seq<(Seq<u8>, Seq<u8>)>,
)
    ensures
        inserted_all(tree, head + tail) == inserted_all(inserted_all(tree, head), tail),
    decreases tail.len(),
{
    if tail.len() == 0 {
        assert(head + tail =~= head);
    } else {
        let all = head + tail;
        assert(all.drop_last() =~= head + tail.drop_last());
        assert(all.last() == tail.last());
        lemma_inserted_all_concat(tree, head, tail.drop_last());
    }
}

/// Indexing a document upserts: afterwards each of its fingerprints
/// resolves to its identifier, and every other fingerprint resolves as it
/// did before. Nothing is removed.
pub proof fn lemma_index_upserts(
    tree: Tree,
    id: Seq<u8>,
    fingerprints: Seq<Seq<u8>>,
    fingerprint: Seq<u8>,
)
    ensures
        value_at(inserted_all(tree, index_entries(id, fingerprints)), fingerprint) == if fingerprints.contains(
            fingerprint,
        ) {
            Some(id)
        } else {
            value_at(tree, fingerprint)
        },
    decreases fingerprints.len(),
{
    let entries = index_entries(id, fingerprints);
    if fingerprints.len() > 0 {
        let head = fingerprints.drop_last();
        assert(entries.drop_last() =~= index_entries(id, head));
        assert(entries.last() == (fingerprints.last(), id));
        lemma_index_upserts(tree, id, head, fingerprint);
        if fingerprints.contains(fingerprint) {
            let i = choose|i: int| 0 <= i < fingerprints.len() && fingerprints[i] == fingerprint;
            if i < head.len() {
                assert(head[i] == fingerprint);
            }
        } else {
            if head.contains(fingerprint) {
                let i = choose|i: int| 0 <= i < head.len() && head[i] == fingerprint;
                assert(fingerprints[i] == fingerprint);
            }
        }
    }
}

/// Indexing is idempotent: indexing a document a second time changes
/// nothing.
pub proof fn lemma_index_idempotent(tree: Tree, id: Seq<u8>, fingerprints: Seq<Seq<u8>>)
    ensures
        inserted_all(
            inserted_all(tree, index_entries(id, fingerprints)),
            index_entries(id, fingerprints),
        ) == inserted_all(tree, index_entries(id, fingerprints)),
{
    let once = inserted_all(tree, index_entries(id, fingerprints));
    let twice = inserted_all(once, index_entries(id, fingerprints));
    assert forall|f: Seq<u8>| value_at(twice, f) == value_at(once, f) by {
        lemma_index_upserts(tree, id, fingerprints, f);
        lemma_index_upserts(once, id, fingerprints, f);
    }
    assert forall|f: Seq<u8>| twice.contains_key(f) == once.contains_key(f) by {
        assert(value_at(twice, f) == value_at(once, f));
    }
    assert forall|f: Seq<u8>| twice.contains_key(f) implies twice[f] == once[f] by {
        assert(value_at(twice, f) == value_at(once, f));
    }
    assert(twice =~= once);
}

/// After a rebuild, a fingerprint resolves to the identifier of the last
/// record that produces it. So every fingerprint of a present document
/// resolves to that document, unless a later document produces the same
/// fingerprint and owns it instead.
pub proof fn lemma_rebuilt_resolves(records: Seq<Produced>, i: int, fingerprint: Seq<u8>)
    requires
        0 <= i < records.len(),
        records[i].1.contains(fingerprint),
        forall|k: int| i < k < records.len() ==> !records[k].1.contains(fingerprint),
    ensures
        value_at(rebuilt_index(records), fingerprint) == Some(records[i].0),
    decreases records.len(),
{
    let head = records.drop_last();
    let last = records.last();
    lemma_inserted_all_concat(Map::empty(), rebuilt_entries(head), index_entries(last.0, last.1));
    lemma_index_upserts(rebuilt_index(head), last.0, last.1, fingerprint);
    if i < records.len() - 1 {
        assert(head[i] == records[i]);
        assert forall|k: int| i < k < head.len() implies !head[k].1.contains(fingerprint) by {
            assert(head[k] == records[k]);
        }
        lemma_rebuilt_resolves(head, i, fingerprint);
    }
}

/// After a rebuild, a fingerprint that no present record produces does
/// not resolve: what a replaced or removed document left in the index is
/// gone.
pub proof fn lemma_rebuilt_drops_stale(records: Seq<Produced>, fingerprint: Seq<u8>)
    requires
        forall|k: int| 0 <= k < records.len() ==> !records[k].1.contains(fingerprint),
    ensures
        value_at(rebuilt_index(records), fingerprint) is None,
    decreases records.len(),
{
    if records.len() > 0 {
        let head = records.drop_last();
        let last = records.last();
        lemma_inserted_all_concat(
            Map::empty(),
            rebuilt_entries(head),
            index_entries(last.0, last.1),
        );
        lemma_index_upserts(rebuilt_index(head), last.0, last.1, fingerprint);
        assert forall|k: int| 0 <= k < head.len() implies !head[k].1.contains(fingerprint) by {
            assert(head[k] == records[k]);
        }
        lemma_rebuilt_drops_stale(head, fingerprint);
    }
}

} // verus!
