//! A collection: a name bound to a primary partition and an index
//! partition, and the primitive operations on the two.
//!
//! Each operation hands back the request to make of the engine, or takes
//! the engine's answer and says what it means.

use vstd::prelude::*;
use crate::engine::EngineState;
use crate::engine::Lookup;
use crate::engine::Replacement;
use crate::engine::Write;
use crate::engine::answer_of;
use crate::engine::apply_all;
use crate::engine::lemma_writes_to_one_partition;
use crate::error::StoreError;
use crate::fingerprint::HashIndex;
use crate::index::index_entries;
use crate::index::Produced;
use crate::index::lemma_index_upserts;
use crate::index::lemma_rebuilt_drops_stale;
use crate::index::lemma_rebuilt_resolves;
use crate::index::rebuilt_entries;
use crate::layout::index_partition;
use crate::layout::index_partition_of;
use crate::layout::is_ledger_key;
use crate::layout::is_ledger_key_of;
use crate::layout::is_native_encoding;
use crate::layout::ledger_key;
use crate::layout::ledger_key_of;
use crate::layout::lemma_partitions_differ;
use crate::layout::native_order;
use crate::layout::primary_partition;
use crate::layout::primary_partition_of;
use crate::ledger::Attachment;
use crate::ledger::Relation;
use crate::ledger::links_of;
use crate::ledger::name_all;
use crate::ledger::named;
use crate::ledger::targets_of;
use crate::views::lemma_deep_view_push;

verus! {

/// A named collection of documents.
#[derive(Clone, Debug, PartialEq, Eq)]
pub struct Collection {
    name: String,
}

impl View for Collection {
    type V = Seq<char>;

    closed spec fn view(&self) -> Seq<char> {
        self.name@
    }
}

/// A put that still waits for its identifier.
#[derive(Clone, Debug, PartialEq, Eq)]
pub struct Unidentified {
    partition: Vec<u8>,
    body: Vec<u8>,
}

/// What a put needs next.
#[derive(Clone, Debug, PartialEq, Eq)]
pub enum Put {
    /// The identifier is known: this write stores the body.
    Ready(Write),
    /// No identifier was supplied: the store has to generate one before
    /// anything is written.
    AwaitingId(Unidentified),
}

impl Unidentified {
    /// The partition the body will be written to.
    pub closed spec fn partition(&self) -> Seq<u8> {
        self.partition@
    }

    /// The body that will be written.
    pub closed spec fn body(&self) -> Seq<u8> {
        self.body@
    }

    /// The write that stores the body under the generated identifier: the
    /// eight bytes of `counter` in native byte order.
    pub fn identified(self, counter: u64) -> (write: Write)
        ensures
            write.partition@ == self.partition(),
            is_native_encoding(write.key@, counter),
            write.value@ == self.body(),
    {
        Write { partition: self.partition, key: native_order(counter), value: self.body }
    }
}

/// What a read of a document means: the body where the engine has one,
/// `NotFound` where it has none.
pub open spec fn found_or_not(answer: Option<Seq<u8>>) -> Result<Seq<u8>, StoreError> {
    match answer {
        Some(body) => Ok(body),
        None => Err(StoreError::NotFound),
    }
}

/// What `get` gives for the document `id` of `collection` on `engine`.
pub open spec fn get_outcome(engine: EngineState, collection: Seq<char>, id: Seq<u8>) -> Result<
    Seq<u8>,
    StoreError,
> {
    found_or_not(engine.get(primary_partition_of(collection), id))
}

/// What `search` gives for `fingerprint` in `collection` on `engine`: the
/// body of the document that owns the fingerprint. It is `NotFound` where
/// nothing owns the fingerprint, and also where the owner is no longer in
/// the collection.
pub open spec fn search_outcome(
    engine: EngineState,
    collection: Seq<char>,
    fingerprint: Seq<u8>,
) -> Result<Seq<u8>, StoreError> {
    match engine.get(index_partition_of(collection), fingerprint) {
        Some(id) => get_outcome(engine, collection, id),
        None => Err(StoreError::NotFound),
    }
}

/// The records among `entries`: the entries of a primary partition that
/// are no ledgers, in order.
pub open spec fn records_among(entries: Seq<(Seq<u8>, Seq<u8>)>) -> Seq<(Seq<u8>, Seq<u8>)> {
    entries.filter_map(record_only())
}

/// The outcome of a read of a document as a plain value.
pub open spec fn outcome_of(out: Result<Vec<u8>, StoreError>) -> Result<Seq<u8>, StoreError> {
    match out {
        Ok(body) => Ok(body@),
        Err(e) => Err(e),
    }
}

/// Whether `writes` make each of `fingerprints` resolve to `id` in the
/// index of `collection`: one write for each fingerprint, in order.
pub open spec fn indexes_document(
    writes: Seq<Write>,
    collection: Seq<char>,
    id: Seq<u8>,
    fingerprints: Seq<Seq<u8>>,
) -> bool {
    &&& writes.len() == fingerprints.len()
    &&& forall|i: int|
        0 <= i < writes.len() ==> {
            &&& (#[trigger] writes[i]).partition@ == index_partition_of(collection)
            &&& writes[i].key@ == fingerprints[i]
            &&& writes[i].value@ == id
        }
}

/// Takes the engine's answer to a read of a document: the body, or
/// `NotFound` where the engine has nothing under the key.
pub fn found(answer: Option<Vec<u8>>) -> (out: Result<Vec<u8>, StoreError>)
    ensures
        outcome_of(out) == found_or_not(answer_of(answer)),
{
    match answer {
        Some(body) => Ok(body),
        None => Err(StoreError::NotFound),
    }
}

impl Collection {
    /// The collection called `name`.
    pub fn new(name: &str) -> (collection: Collection)
        ensures
            collection@ == name@,
    {
        Collection { name: name.to_owned() }
    }

    /// The name of the collection.
    pub fn name(&self) -> (name: &str)
        ensures
            name@ == self@,
    {
        self.name.as_str()
    }

    /// The name of the partition that holds the records.
    pub fn primary(&self) -> (partition: Vec<u8>)
        ensures
            partition@ == primary_partition_of(self@),
    {
        primary_partition(self.name.as_str())
    }

    /// The name of the partition that holds the index.
    pub fn indexes(&self) -> (partition: Vec<u8>)
        ensures
            partition@ == index_partition_of(self@),
    {
        index_partition(self.name.as_str())
    }

    /// Stores `body`. With an identifier the write is ready, and replaces
    /// whatever the identifier held. Without one, an identifier has to be
    /// generated first.
    pub fn put(&self, body: Vec<u8>, existing_id: Option<Vec<u8>>) -> (put: Put)
        ensures
            match put {
                Put::Ready(write) => {
                    &&& existing_id matches Some(id)
                    &&& write.partition@ == primary_partition_of(self@)
                    &&& write.key@ == id@
                    &&& write.value@ == body@
                },
                Put::AwaitingId(pending) => {
                    &&& existing_id is None
                    &&& pending.partition() == primary_partition_of(self@)
                    &&& pending.body() == body@
                },
            },
    {
        match existing_id {
            Some(id) => Put::Ready(Write { partition: self.primary(), key: id, value: body }),
            None => Put::AwaitingId(Unidentified { partition: self.primary(), body }),
        }
    }

    /// The read that fetches the document `id`; `found` takes the answer.
    pub fn get(&self, id: Vec<u8>) -> (lookup: Lookup)
        ensures
            lookup.partition@ == primary_partition_of(self@),
            lookup.key@ == id@,
    {
        Lookup { partition: self.primary(), key: id }
    }

    /// The writes that make each of `fingerprints` resolve to `id`, one
    /// for each fingerprint, in order.
    pub fn index(&self, id: &[u8], fingerprints: &Vec<HashIndex>) -> (writes: Vec<Write>)
        ensures
            indexes_document(writes@, self@, id@, fingerprints.deep_view()),
    {
        let mut writes: Vec<Write> = Vec::new();
        let mut i: usize = 0;
        while i < fingerprints.len()
            invariant
                i <= fingerprints.len(),
                writes.len() == i,
                forall|k: int|
                    0 <= k < i ==> {
                        &&& (#[trigger] writes[k]).partition@ == index_partition_of(self@)
                        &&& writes[k].key@ == fingerprints[k]@
                        &&& writes[k].value@ == id@
                    },
            decreases fingerprints.len() - i,
        {
            writes.push(
                Write {
                    partition: self.indexes(),
                    key: fingerprints[i].clone(),
                    value: vstd::slice::slice_to_vec(id),
                },
            );
            i += 1;
        }
        assert(indexes_document(writes@, self@, id@, fingerprints.deep_view())) by {
            assert forall|k: int| 0 <= k < writes.len() implies (#[trigger] writes[k]).key@
                == fingerprints.deep_view()[k] by {
                assert(fingerprints.deep_view()[k] =~= fingerprints[k]@);
            }
        }
        writes
    }

    /// The first read of a search: who owns `fingerprint`? `located`
    /// takes the answer.
    pub fn search(&self, fingerprint: Vec<u8>) -> (lookup: Lookup)
        ensures
            lookup.partition@ == index_partition_of(self@),
            lookup.key@ == fingerprint@,
    {
        Lookup { partition: self.indexes(), key: fingerprint }
    }

    /// Takes the index's answer to a search. Where the fingerprint has an
    /// owner, the second read fetches the owner's body, and `found` takes
    /// its answer; where it has none, the search ends with `NotFound`.
    pub fn located(&self, owner: Option<Vec<u8>>) -> (out: Result<Lookup, StoreError>)
        ensures
            match out {
                Ok(lookup) => {
                    &&& owner matches Some(id)
                    &&& lookup.partition@ == primary_partition_of(self@)
                    &&& lookup.key@ == id@
                },
                Err(e) => owner is None && e == StoreError::NotFound,
            },
    {
        match owner {
            Some(id) => Ok(self.get(id)),
            None => Err(StoreError::NotFound),
        }
    }

    /// The read that fetches the ledger of the document `id`.
    pub fn ledger(&self, id: &[u8]) -> (lookup: Lookup)
        ensures
            lookup.partition@ == primary_partition_of(self@),
            lookup.key@ == ledger_key_of(id@),
    {
        Lookup { partition: self.primary(), key: ledger_key(id) }
    }

    /// Starts to attach the relation `name` from the document `id` to
    /// each of `targets`: the edges are appended to the document's ledger,
    /// behind whatever it holds under this name or another.
    pub fn relate(&self, id: &[u8], name: &str, targets: &Vec<Relation>) -> (attachment: Attachment)
        ensures
            attachment.ledger.partition@ == primary_partition_of(self@),
            attachment.ledger.key@ == ledger_key_of(id@),
            links_of(attachment.additions@) == named(name@, targets_of(targets@)),
    {
        Attachment { ledger: self.ledger(id), additions: name_all(name, targets) }
    }

    /// The replacement that rebuilds the index from `records`, each with
    /// its identifier and the fingerprints it produces.
    pub fn rebuild(&self, records: &Vec<(Vec<u8>, Vec<HashIndex>)>) -> (replacement: Replacement)
        ensures
            replacement.partition@ == index_partition_of(self@),
            replacement.entries.deep_view() == rebuilt_entries(records.deep_view()),
    {
        let ghost all = records.deep_view();
        let mut entries: Vec<(Vec<u8>, Vec<u8>)> = Vec::new();
        let mut i: usize = 0;
        assert(all.take(0) =~= Seq::empty());
        assert(entries.deep_view() =~= Seq::empty());
        while i < records.len()
            invariant
                i <= records.len(),
                all == records.deep_view(),
                entries.deep_view() == rebuilt_entries(all.take(i as int)),
            decreases records.len() - i,
        {
            let ghost now = all.take(i as int + 1);
            assert(now.drop_last() =~= all.take(i as int));
            assert(now.last() == all[i as int]);
            let ghost before = entries.deep_view();
            let id = &records[i].0;
            let fingerprints = &records[i].1;
            assert(id.deep_view() == all[i as int].0);
            assert(fingerprints.deep_view() == all[i as int].1);
            let mut j: usize = 0;
            assert(index_entries(id.deep_view(), fingerprints.deep_view().take(0)) =~= Seq::empty());
            assert(before + Seq::empty() =~= before);
            while j < fingerprints.len()
                invariant
                    j <= fingerprints.len(),
                    entries.deep_view() == before + index_entries(
                        id.deep_view(),
                        fingerprints.deep_view().take(j as int),
                    ),
                decreases fingerprints.len() - j,
            {
                let ghost so_far = entries;
                let key = fingerprints[j].clone();
                let value = id.clone();
                let ghost pair = (key, value);
                assert(key.deep_view() =~= fingerprints.deep_view()[j as int]);
                assert(value.deep_view() =~= id.deep_view());
                entries.push((key, value));
                proof {
                    lemma_deep_view_push(so_far, entries, pair);
                }
                assert(index_entries(id.deep_view(), fingerprints.deep_view().take(j as int + 1))
                    =~= index_entries(id.deep_view(), fingerprints.deep_view().take(j as int)).push(
                    (fingerprints.deep_view()[j as int], id.deep_view()),
                ));
                j += 1;
            }
            assert(fingerprints.deep_view().take(j as int) =~= fingerprints.deep_view());
            i += 1;
        }
        assert(all.take(i as int) =~= all);
        Replacement { partition: self.indexes(), entries }
    }
}

/// The choice that a rebuild makes of one entry of the primary partition:
/// a ledger is passed over, a record is kept.
pub open spec fn record_only() -> spec_fn((Seq<u8>, Seq<u8>)) -> Option<(Seq<u8>, Seq<u8>)> {
    |entry: (Seq<u8>, Seq<u8>)|
        if is_ledger_key_of(entry.0) {
            None
        } else {
            Some(entry)
        }
}

/// The records among the entries of a primary partition: the ledgers that
/// are stored beside the documents are left out, the order is kept.
pub fn records(entries: Vec<(Vec<u8>, Vec<u8>)>) -> (out: Vec<(Vec<u8>, Vec<u8>)>)
    ensures
        out.deep_view() == records_among(entries.deep_view()),
{
    let ghost all = entries.deep_view();
    let mut out: Vec<(Vec<u8>, Vec<u8>)> = Vec::new();
    let mut i: usize = 0;
    assert(all.take(0) =~= Seq::empty());
    assert(out.deep_view() =~= Seq::empty());
    while i < entries.len()
        invariant
            i <= entries.len(),
            all == entries.deep_view(),
            out.deep_view() == records_among(all.take(i as int)),
        decreases entries.len() - i,
    {
        let ghost now = all.take(i as int + 1);
        assert(now.drop_last() =~= all.take(i as int));
        assert(now.last() == all[i as int]);
        assert(entries[i as int].0.deep_view() =~= entries[i as int].0@);
        if !is_ledger_key(entries[i].0.as_slice()) {
            let ghost before = out;
            let entry = (entries[i].0.clone(), entries[i].1.clone());
            assert(entry.0.deep_view() =~= all[i as int].0);
            assert(entry.1.deep_view() =~= all[i as int].1);
            out.push(entry);
            proof {
                lemma_deep_view_push(before, out, entry);
            }
        }
        i += 1;
    }
    assert(all.take(i as int) =~= all);
    out
}

/// Carrying `get` out gives `get_outcome`: the answer to its read, taken
/// by `found`, is the document's body or `NotFound`.
pub proof fn lemma_get_runs(engine: EngineState, lookup: Lookup, collection: Seq<char>)
    requires
        lookup.partition@ == primary_partition_of(collection),
    ensures
        found_or_not(lookup.answer(engine)) == get_outcome(engine, collection, lookup.key@),
{
}

/// Carrying `search` out gives `search_outcome`: where the first read
/// finds no owner the search has ended with `NotFound`, and where it finds
/// one the answer to the second read decides.
pub proof fn lemma_search_runs(
    engine: EngineState,
    first: Lookup,
    second: Lookup,
    collection: Seq<char>,
)
    requires
        first.partition@ == index_partition_of(collection),
        first.answer(engine) matches Some(id) ==> second.partition@ == primary_partition_of(
            collection,
        ) && second.key@ == id,
    ensures
        search_outcome(engine, collection, first.key@) == match first.answer(engine) {
            Some(_) => found_or_not(second.answer(engine)),
            None => Err(StoreError::NotFound),
        },
{
}

/// Carrying `index` out upserts: afterwards each of the document's
/// fingerprints is owned by the document, every other fingerprint has the
/// owner it had, and nothing outside the index has changed.
pub proof fn lemma_index_runs(
    engine: EngineState,
    writes: Seq<Write>,
    collection: Seq<char>,
    id: Seq<u8>,
    fingerprints: Seq<Seq<u8>>,
)
    requires
        indexes_document(writes, collection, id, fingerprints),
    ensures
        forall|fingerprint: Seq<u8>|
            #[trigger] apply_all(writes, engine).get(index_partition_of(collection), fingerprint)
                == if fingerprints.contains(fingerprint) {
                Some(id)
            } else {
                engine.get(index_partition_of(collection), fingerprint)
            },
        forall|other: Seq<u8>|
            other != index_partition_of(collection) ==> apply_all(writes, engine).tree(other)
                == engine.tree(other),
{
    let partition = index_partition_of(collection);
    let entries = index_entries(id, fingerprints);
    lemma_writes_to_one_partition(writes, engine, partition, entries);
    assert forall|fingerprint: Seq<u8>|
        #[trigger] apply_all(writes, engine).get(partition, fingerprint) == if fingerprints.contains(
            fingerprint,
        ) {
            Some(id)
        } else {
            engine.get(partition, fingerprint)
        } by {
        lemma_index_upserts(engine.tree(partition), id, fingerprints, fingerprint);
    }
}

/// What was put is what `get` gives back: after a write of `body` under
/// `id` in the collection's primary partition, reading `id` gives `body`.
pub proof fn lemma_get_after_put(engine: EngineState, write: Write, collection: Seq<char>)
    requires
        write.partition@ == primary_partition_of(collection),
    ensures
        get_outcome(write.apply(engine), collection, write.key@) == Ok::<Seq<u8>, StoreError>(
            write.value@,
        ),
{
}

/// After a document was indexed, a search for one of its fingerprints
/// gives what `get` gives for the document.
pub proof fn lemma_search_after_index(
    engine: EngineState,
    write: Write,
    collection: Seq<char>,
)
    requires
        write.partition@ == index_partition_of(collection),
    ensures
        search_outcome(write.apply(engine), collection, write.key@) == get_outcome(
            engine,
            collection,
            write.value@,
        ),
{
    lemma_partitions_differ(collection);
}

/// After a rebuild, a search for a fingerprint gives the document of the
/// last record that produces it.
pub proof fn lemma_search_after_rebuild(
    engine: EngineState,
    replacement: Replacement,
    collection: Seq<char>,
    records: Seq<Produced>,
    i: int,
    fingerprint: Seq<u8>,
)
    requires
        replacement.partition@ == index_partition_of(collection),
        replacement.entries.deep_view() == rebuilt_entries(records),
        0 <= i < records.len(),
        records[i].1.contains(fingerprint),
        forall|k: int| i < k < records.len() ==> !records[k].1.contains(fingerprint),
    ensures
        search_outcome(replacement.apply(engine), collection, fingerprint) == get_outcome(
            engine,
            collection,
            records[i].0,
        ),
{
    lemma_partitions_differ(collection);
    lemma_rebuilt_resolves(records, i, fingerprint);
}

/// After a rebuild, a search for a fingerprint that no present record
/// produces finds nothing.
pub proof fn lemma_search_after_rebuild_stale(
    engine: EngineState,
    replacement: Replacement,
    collection: Seq<char>,
    records: Seq<Produced>,
    fingerprint: Seq<u8>,
)
    requires
        replacement.partition@ == index_partition_of(collection),
        replacement.entries.deep_view() == rebuilt_entries(records),
        forall|k: int| 0 <= k < records.len() ==> !records[k].1.contains(fingerprint),
    ensures
        search_outcome(replacement.apply(engine), collection, fingerprint) == Err::<
            Seq<u8>,
            StoreError,
        >(StoreError::NotFound),
{
    lemma_rebuilt_drops_stale(records, fingerprint);
}

} // verus!
