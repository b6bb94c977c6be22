//! The document capability: what a type has to provide to take part in
//! the store, and the operations every such type then has.

use vstd::prelude::*;
use crate::collection::Collection;
use crate::collection::indexes_document;
use crate::engine::Lookup;
use crate::engine::Replacement;
use crate::engine::Write;
use crate::error::StoreError;
use crate::fingerprint::HashIndex;
use crate::index::Produced;
use crate::index::rebuilt_entries;
use crate::layout::index_partition_of;
use crate::layout::ledger_key_of;
use crate::layout::primary_partition_of;
use crate::ledger::Attachment;
use crate::ledger::Relation;
use crate::ledger::decoded_ledger;
use crate::ledger::links_of;
use crate::ledger::named;
use crate::ledger::selected;
use crate::ledger::targets_of;
use crate::resolution::Resolution;
use crate::views::lemma_deep_view_push;

verus! {

/// How to look a document up.
#[derive(Clone, Debug, PartialEq, Eq)]
pub enum Filter {
    /// By a fingerprint in the collection's index.
    Index(HashIndex),
}

/// A type whose values are documents of one collection.
///
/// An implementor provides `collection`, `indexes` and `id`, and with
/// them promises what their contracts say: that the collection never
/// changes, that the identifier depends on the value alone, and which
/// fingerprints the value may produce. Everything else follows from
/// these three.
pub trait Document: Sized {
    /// The name of the collection, the same for every value and at every
    /// call.
    spec fn collection_name() -> Seq<char>;

    /// The identifier of this document: a function of the value alone.
    spec fn identifier(&self) -> Seq<u8>;

    /// Whether `fingerprints` is a list that `indexes` may give for this
    /// document.
    spec fn produces(&self, fingerprints: Seq<Seq<u8>>) -> bool;

    /// The name of the collection the type's documents live in.
    fn collection() -> (name: &'static str)
        ensures
            name@ == Self::collection_name(),
    ;

    /// The fingerprints under which this document is to be found, in
    /// order; there may be none.
    fn indexes(&self) -> (fingerprints: Vec<HashIndex>)
        ensures
            self.produces(fingerprints.deep_view()),
    ;

    /// The identifier of this document.
    fn id(&self) -> (id: Vec<u8>)
        ensures
            id@ == self.identifier(),
    ;

    /// The write that saves this document: its serialized `body` under
    /// its identifier, in place of whatever the identifier held.
    fn save(&self, body: Vec<u8>) -> (write: Write)
        ensures
            write.partition@ == primary_partition_of(Self::collection_name()),
            write.key@ == self.identifier(),
            write.value@ == body@,
    {
        Write {
            partition: Collection::new(Self::collection()).primary(),
            key: self.id(),
            value: body,
        }
    }

    /// The first read of a lookup by `filter`: who owns the fingerprint?
    /// The collection's `located` takes the answer and `found` the answer
    /// to the read that follows.
    fn find(filter: Filter) -> (lookup: Lookup)
        ensures
            lookup.partition@ == index_partition_of(Self::collection_name()),
            filter matches Filter::Index(fingerprint) && lookup.key@ == fingerprint@,
    {
        match filter {
            Filter::Index(fingerprint) => Collection::new(Self::collection()).search(fingerprint),
        }
    }

    /// The writes that bring the index up to this document: each of its
    /// fingerprints is made to resolve to its identifier. What earlier
    /// states of the document left in the index stays there.
    fn index(&self) -> (writes: Vec<Write>)
        ensures
            exists|fingerprints: Seq<Seq<u8>>|
                self.produces(fingerprints) && indexes_document(
                    writes@,
                    Self::collection_name(),
                    self.identifier(),
                    fingerprints,
                ),
    {
        let fingerprints = self.indexes();
        let id = self.id();
        Collection::new(Self::collection()).index(id.as_slice(), &fingerprints)
    }

    /// The replacement that rebuilds the collection's index from all of
    /// its present documents, each given with the key it is stored under.
    /// The whole index is replaced at once by what the documents produce:
    /// nothing stale survives, and no reader sees the index half built.
    fn reindex(records: &Vec<(Vec<u8>, Self)>) -> (replacement: Replacement)
        ensures
            replacement.partition@ == index_partition_of(Self::collection_name()),
            exists|produced: Seq<Produced>|
                {
                    &&& replacement.entries.deep_view() == rebuilt_entries(produced)
                    &&& produced.len() == records.len()
                    &&& forall|i: int|
                        0 <= i < records.len() ==> {
                            &&& (#[trigger] produced[i]).0 == records[i].0@
                            &&& records[i].1.produces(produced[i].1)
                        }
                },
    {
        let mut produced: Vec<(Vec<u8>, Vec<HashIndex>)> = Vec::new();
        let mut i: usize = 0;
        while i < records.len()
            invariant
                i <= records.len(),
                produced.len() == i,
                forall|k: int|
                    0 <= k < i ==> {
                        &&& (#[trigger] produced.deep_view()[k]).0 == records[k].0@
                        &&& records[k].1.produces(produced.deep_view()[k].1)
                    },
            decreases records.len() - i,
        {
            let ghost before = produced;
            let key = records[i].0.clone();
            let fingerprints = records[i].1.indexes();
            let ghost pair = (key, fingerprints);
            assert(key.deep_view() =~= records[i as int].0@);
            produced.push((key, fingerprints));
            proof {
                lemma_deep_view_push(before, produced, pair);
            }
            i += 1;
        }
        let replacement = Collection::new(Self::collection()).rebuild(&produced);
        let ghost witness = produced.deep_view();
        assert(replacement.entries.deep_view() == rebuilt_entries(witness));
        replacement
    }

    /// Starts to attach the relation `name` from this document to each of
    /// `relations`.
    fn make_relation(&self, name: &str, relations: &Vec<Relation>) -> (attachment: Attachment)
        ensures
            attachment.ledger.partition@ == primary_partition_of(Self::collection_name()),
            attachment.ledger.key@ == ledger_key_of(self.identifier()),
            links_of(attachment.additions@) == named(name@, targets_of(relations@)),
    {
        let id = self.id();
        Collection::new(Self::collection()).relate(id.as_slice(), name, relations)
    }

    /// The read that fetches this document's ledger, from which its
    /// relations are resolved.
    fn relation(&self) -> (lookup: Lookup)
        ensures
            lookup.partition@ == primary_partition_of(Self::collection_name()),
            lookup.key@ == ledger_key_of(self.identifier()),
    {
        let id = self.id();
        Collection::new(Self::collection()).ledger(id.as_slice())
    }

    /// Starts to resolve the relation `name` from a source document's
    /// stored ledger to documents of this type: the targets are those
    /// edges of that name that point into this type's collection.
    fn resolve(stored: Option<&[u8]>, name: &str) -> (out: Result<Resolution, StoreError>)
        ensures
            match out {
                Ok(resolution) => {
                    &&& stored matches Some(bytes)
                    &&& decoded_ledger(bytes@) matches Some(links)
                    &&& resolution.wf()
                    &&& resolution.partition() == primary_partition_of(Self::collection_name())
                    &&& resolution.targets() == selected(links, name@, Self::collection_name())
                    &&& resolution.answers() == Seq::<Option<Seq<u8>>>::empty()
                },
                Err(StoreError::NotFound) => stored is None,
                Err(StoreError::DeserializationError) => {
                    &&& stored matches Some(bytes)
                    &&& decoded_ledger(bytes@) is None
                },
                Err(_) => false,
            },
    {
        Resolution::begin(stored, name, Self::collection())
    }
}

impl<D: Document> From<&D> for Relation {
    /// The relation that points at `doc`.
    fn from(doc: &D) -> (relation: Relation)
        ensures
            relation@ == (D::collection_name(), doc.identifier()),
    {
        Relation::new(D::collection().to_owned(), doc.id())
    }
}

impl<D: Document> vstd::std_specs::convert::FromSpecImpl<&D> for Relation {
    /// The conversion is described by the contract of `from` itself, over
    /// the relation's view; no relation is singled out here.
    open spec fn obeys_from_spec() -> bool {
        false
    }

    open spec fn from_spec(doc: &D) -> Relation {
        arbitrary()
    }
}

} // verus!
