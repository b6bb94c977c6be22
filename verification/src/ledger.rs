//! Relations and the ledger that records them.
//!
//! A relation is a directed, named edge from a source document to a target
//! in some collection. Each source document has one ledger: the list of
//! its edges, in the order in which they were attached. Nothing is ever
//! taken out of a ledger. It is stored, serialized, beside the document.

use vstd::prelude::*;
use crate::engine::Lookup;
use crate::engine::Write;
use crate::error::StoreError;
use crate::views::lemma_deep_view_push;

verus! {

/// The target of a relation: a collection and the identifier of a document
/// in it.
#[derive(Clone, Debug, PartialEq, Eq)]
pub struct Relation(String, Vec<u8>);

impl View for Relation {
    type V = (Seq<char>, Seq<u8>);

    closed spec fn view(&self) -> (Seq<char>, Seq<u8>) {
        (self.0@, self.1@)
    }
}

impl Relation {
    /// The relation that points at the document `id` of `collection`.
    pub fn new(collection: String, id: Vec<u8>) -> (relation: Relation)
        ensures
            relation@ == (collection@, id@),
    {
        Relation(collection, id)
    }

    /// The collection of the target.
    pub fn collection(&self) -> (name: &str)
        ensures
            name@ == self@.0,
    {
        self.0.as_str()
    }

    /// The identifier of the target.
    pub fn id(&self) -> (id: &Vec<u8>)
        ensures
            id@ == self@.1,
    {
        &self.1
    }

    /// A second relation with the same target.
    pub fn duplicate(&self) -> (copy: Relation)
        ensures
            copy@ == self@,
    {
        Relation(self.0.clone(), self.1.clone())
    }
}

/// One edge of a ledger: the name of the relation and its target.
#[derive(Clone, Debug, PartialEq, Eq)]
pub struct LedgerEntry {
    /// The name of the relation.
    pub name: String,
    /// The document the edge points at.
    pub target: Relation,
}

/// An edge as a plain value: the relation's name, the target's collection
/// and the target's identifier.
pub type Link = (Seq<char>, Seq<char>, Seq<u8>);

impl LedgerEntry {
    /// The edge called `name` that points at `target`.
    pub fn new(name: &str, target: Relation) -> (entry: LedgerEntry)
        ensures
            entry@ == (name@, target@.0, target@.1),
    {
        LedgerEntry { name: name.to_owned(), target }
    }

    /// A second edge with the same name and target.
    pub fn duplicate(&self) -> (copy: LedgerEntry)
        ensures
            copy@ == self@,
    {
        LedgerEntry { name: self.name.clone(), target: self.target.duplicate() }
    }
}

impl View for LedgerEntry {
    type V = Link;

    open spec fn view(&self) -> Link {
        (self.name@, self.target@.0, self.target@.1)
    }
}

/// The edges of a ledger as plain values.
pub open spec fn links_of(entries: Seq<LedgerEntry>) -> Seq<Link> {
    Seq::new(entries.len(), |i: int| entries[i]@)
}

/// The bytes that `bincode::serialize` gives for a list of edges, each
/// written as a tuple of two strings and a byte vector; nothing where it
/// reports an error.
pub uninterp spec fn encoded_ledger(links: Seq<(Seq<char>, Seq<char>, Seq<u8>)>) -> Option<
    Seq<u8>,
>;

/// The list of edges that `bincode::deserialize` reads from `bytes`;
/// nothing where it reports an error.
pub uninterp spec fn decoded_ledger(bytes: Seq<u8>) -> Option<
    Seq<(Seq<char>, Seq<char>, Seq<u8>)>,
>;

/// `bincode::ErrorKind`, the failure that bincode reports. It is carried
/// through unread: nothing is claimed of what it holds.
#[verifier::external_type_specification]
#[verifier::external_body]
pub struct ExBincodeErrorKind(bincode::ErrorKind);

/// Calls `bincode::serialize` on the edges, each handed over as a tuple of
/// name, collection and identifier. The bytes depend on the edges alone.
/// What it wrote `bincode::deserialize` reads back as the same edges: the
/// format writes each length and then the content, and reads them in the
/// same order.
#[verifier::external_body]
fn serialize_ledger(entries: &Vec<LedgerEntry>) -> (out: Result<Vec<u8>, bincode::Error>)
    ensures
        match out {
            Ok(bytes) => {
                &&& encoded_ledger(links_of(entries@)) == Some(bytes@)
                &&& decoded_ledger(bytes@) == Some(links_of(entries@))
            },
            Err(_) => encoded_ledger(links_of(entries@)) is None,
        },
{
    let plain: Vec<(&str, &str, &[u8])> = entries.iter().map(
        |e| (e.name.as_str(), e.target.0.as_str(), e.target.1.as_slice()),
    ).collect();
    bincode::serialize(&plain)
}

/// Calls `bincode::deserialize` for a list of tuples of name, collection
/// and identifier, and hands each tuple back as an edge. What it reads
/// depends on the bytes alone.
#[verifier::external_body]
fn deserialize_ledger(bytes: &[u8]) -> (out: Result<Vec<LedgerEntry>, bincode::Error>)
    ensures
        match out {
            Ok(entries) => decoded_ledger(bytes@) == Some(links_of(entries@)),
            Err(_) => decoded_ledger(bytes@) is None,
        },
{
    let plain: Vec<(String, String, Vec<u8>)> = bincode::deserialize(bytes)?;
    Ok(
        plain.into_iter().map(
            |(name, collection, id)| LedgerEntry { name, target: Relation(collection, id) },
        ).collect(),
    )
}

/// The edges a stored ledger holds: none where no ledger is stored yet,
/// and nothing at all where the stored bytes are no ledger.
pub open spec fn stored_links(stored: Option<Seq<u8>>) -> Option<Seq<Link>> {
    match stored {
        None => Some(Seq::empty()),
        Some(bytes) => decoded_ledger(bytes),
    }
}

/// The bytes of `stored`, where there are any.
pub open spec fn stored_bytes(stored: Option<&[u8]>) -> Option<Seq<u8>> {
    match stored {
        None => None,
        Some(bytes) => Some(bytes@),
    }
}

/// Whether `bytes` is a ledger that holds what `stored` held, followed by
/// `additions`.
pub open spec fn is_merged(stored: Option<Seq<u8>>, additions: Seq<Link>, bytes: Seq<u8>) -> bool {
    &&& stored_links(stored) matches Some(prior)
    &&& encoded_ledger(prior + additions) == Some(bytes)
    &&& decoded_ledger(bytes) == Some(prior + additions)
}

/// The ledger that holds what `stored` holds, followed by `additions`.
///
/// This is the read-modify-write step of attaching relations; the caller
/// runs it inside the engine's atomic update of the ledger's key, so that
/// two attachers never lose each other's edges. Stored bytes that are no
/// ledger are an error and are not replaced.
pub fn merge_ledger(stored: Option<&[u8]>, additions: &Vec<LedgerEntry>) -> (out: Result<
    Vec<u8>,
    StoreError,
>)
    ensures
        match out {
            Ok(bytes) => is_merged(stored_bytes(stored), links_of(additions@), bytes@),
            Err(StoreError::DeserializationError) => stored_links(stored_bytes(stored)) is None,
            Err(StoreError::SerializationError) => {
                &&& stored_links(stored_bytes(stored)) matches Some(prior)
                &&& encoded_ledger(prior + links_of(additions@)) is None
            },
            Err(_) => false,
        },
{
    let mut ledger: Vec<LedgerEntry> = match stored {
        None => Vec::new(),
        Some(bytes) => match deserialize_ledger(bytes) {
            Ok(entries) => entries,
            Err(_) => {
                return Err(StoreError::DeserializationError);
            },
        },
    };
    let ghost prior = links_of(ledger@);
    assert(stored_links(stored_bytes(stored)) == Some(prior)) by {
        if stored is None {
            assert(prior =~= Seq::<Link>::empty());
        }
    }
    let mut i: usize = 0;
    assert(links_of(additions@).take(0) =~= Seq::<Link>::empty());
    assert(prior + Seq::<Link>::empty() =~= prior);
    while i < additions.len()
        invariant
            i <= additions.len(),
            links_of(ledger@) == prior + links_of(additions@).take(i as int),
        decreases additions.len() - i,
    {
        let ghost before = links_of(ledger@);
        let entry = additions[i].duplicate();
        ledger.push(entry);
        assert(links_of(ledger@) =~= before.push(entry@));
        assert(links_of(additions@).take(i as int + 1) =~= links_of(additions@).take(
            i as int,
        ).push(entry@));
        i += 1;
    }
    assert(links_of(additions@).take(i as int) =~= links_of(additions@));
    match serialize_ledger(&ledger) {
        Ok(bytes) => Ok(bytes),
        Err(_) => Err(StoreError::SerializationError),
    }
}

/// The choice that resolving a relation makes of one edge: the target's
/// identifier where the edge has the wanted name and points into the
/// wanted collection.
pub open spec fn target_in(name: Seq<char>, collection: Seq<char>) -> spec_fn(Link) -> Option<
    Seq<u8>,
> {
    |link: Link|
        if link.0 == name && link.1 == collection {
            Some(link.2)
        } else {
            None
        }
}

/// The identifiers of the targets that `links` records under `name` in
/// `collection`, in ledger order.
pub open spec fn selected(links: Seq<Link>, name: Seq<char>, collection: Seq<char>) -> Seq<
    Seq<u8>,
> {
    links.filter_map(target_in(name, collection))
}

/// Selecting from two ledgers laid end to end gives what each gives, laid
/// end to end.
pub proof fn lemma_selected_concat(
    head: Seq<Link>,
    tail: Seq<Link>,
    name: Seq<char>,
    collection: Seq<char>,
)
    ensures
        selected(head + tail, name, collection) == selected(head, name, collection) + selected(
            tail,
            name,
            collection,
        ),
    decreases tail.len(),
{
    if tail.len() == 0 {
        assert(head + tail =~= head);
        assert(selected(tail, name, collection) =~= Seq::<Seq<u8>>::empty());
        assert(selected(head, name, collection) + selected(tail, name, collection) =~= selected(
            head,
            name,
            collection,
        ));
    } else {
        let all = head + tail;
        assert(all.drop_last() =~= head + tail.drop_last());
        assert(all.last() == tail.last());
        lemma_selected_concat(head, tail.drop_last(), name, collection);
        assert(selected(all, name, collection) =~= selected(head, name, collection) + selected(
            tail,
            name,
            collection,
        ));
    }
}

/// Reads a stored ledger. A document to which nothing was ever attached
/// has none, which is `NotFound`; stored bytes that are no ledger are a
/// `DeserializationError`.
pub fn read_ledger(stored: Option<&[u8]>) -> (out: Result<Vec<LedgerEntry>, StoreError>)
    ensures
        match out {
            Ok(entries) => {
                &&& stored matches Some(bytes)
                &&& decoded_ledger(bytes@) == Some(links_of(entries@))
            },
            Err(StoreError::NotFound) => stored is None,
            Err(StoreError::DeserializationError) => {
                &&& stored matches Some(bytes)
                &&& decoded_ledger(bytes@) is None
            },
            Err(_) => false,
        },
{
    match stored {
        None => Err(StoreError::NotFound),
        Some(bytes) => match deserialize_ledger(bytes) {
            Ok(entries) => Ok(entries),
            Err(_) => Err(StoreError::DeserializationError),
        },
    }
}

/// The identifiers of the targets that `ledger` records under `name` in
/// `collection`, in ledger order.
pub fn targets(ledger: &Vec<LedgerEntry>, name: &str, collection: &str) -> (ids: Vec<Vec<u8>>)
    ensures
        ids.deep_view() == selected(links_of(ledger@), name@, collection@),
{
    let wanted_name = name.to_owned();
    let wanted_collection = collection.to_owned();
    let ghost links = links_of(ledger@);
    let mut ids: Vec<Vec<u8>> = Vec::new();
    let mut i: usize = 0;
    assert(links.take(0) =~= Seq::<Link>::empty());
    assert(ids.deep_view() =~= Seq::<Seq<u8>>::empty());
    while i < ledger.len()
        invariant
            i <= ledger.len(),
            links == links_of(ledger@),
            wanted_name@ == name@,
            wanted_collection@ == collection@,
            ids.deep_view() == selected(links.take(i as int), name@, collection@),
        decreases ledger.len() - i,
    {
        let ghost now = links.take(i as int + 1);
        assert(now.drop_last() =~= links.take(i as int));
        assert(now.last() == ledger[i as int]@);
        let entry = &ledger[i];
        let ghost before = ids;
        if entry.name == wanted_name && entry.target.0 == wanted_collection {
            let id = entry.target.1.clone();
            assert(id.deep_view() =~= entry@.2);
            ids.push(id);
            proof {
                lemma_deep_view_push(before, ids, id);
                assert(before.deep_view().push(entry@.2) =~= before.deep_view() + seq![entry@.2]);
            }
        }
        i += 1;
    }
    assert(links.take(i as int) =~= links);
    ids
}

/// The edges called `name` to each of `targets`, in the order of
/// `targets`.
pub open spec fn named(name: Seq<char>, targets: Seq<(Seq<char>, Seq<u8>)>) -> Seq<Link> {
    Seq::new(targets.len(), |i: int| (name, targets[i].0, targets[i].1))
}

/// The targets of `relations` as plain values.
pub open spec fn targets_of(relations: Seq<Relation>) -> Seq<(Seq<char>, Seq<u8>)> {
    Seq::new(relations.len(), |i: int| relations[i]@)
}

/// The edges called `name` to each of `relations`, in order.
pub fn name_all(name: &str, relations: &Vec<Relation>) -> (entries: Vec<LedgerEntry>)
    ensures
        links_of(entries@) == named(name@, targets_of(relations@)),
{
    let mut entries: Vec<LedgerEntry> = Vec::new();
    let mut i: usize = 0;
    while i < relations.len()
        invariant
            i <= relations.len(),
            entries.len() == i,
            forall|k: int| 0 <= k < i ==> (#[trigger] entries[k])@ == (
                name@,
                relations[k]@.0,
                relations[k]@.1,
            ),
        decreases relations.len() - i,
    {
        entries.push(LedgerEntry::new(name, relations[i].duplicate()));
        i += 1;
    }
    assert(links_of(entries@) =~= named(name@, targets_of(relations@)));
    entries
}

/// An attachment under way: the ledger to update and the edges to add to
/// it.
#[derive(Clone, Debug, PartialEq, Eq)]
pub struct Attachment {
    /// The read that fetches the stored ledger.
    pub ledger: Lookup,
    /// The edges to append.
    pub additions: Vec<LedgerEntry>,
}

impl Attachment {
    /// The write that puts the merged ledger in place of the stored one.
    ///
    /// The caller reads the ledger, merges and writes back as one atomic
    /// update of the ledger's key, and merges again where the engine says
    /// that the ledger has changed in between. Stored bytes that are no
    /// ledger are an error, and nothing is written.
    pub fn merge(&self, stored: Option<&[u8]>) -> (out: Result<Write, StoreError>)
        ensures
            match out {
                Ok(write) => {
                    &&& write.partition@ == self.ledger.partition@
                    &&& write.key@ == self.ledger.key@
                    &&& is_merged(stored_bytes(stored), links_of(self.additions@), write.value@)
                },
                Err(StoreError::DeserializationError) => stored_links(stored_bytes(stored))
                    is None,
                Err(StoreError::SerializationError) => {
                    &&& stored_links(stored_bytes(stored)) matches Some(prior)
                    &&& encoded_ledger(prior + links_of(self.additions@)) is None
                },
                Err(_) => false,
            },
    {
        match merge_ledger(stored, &self.additions) {
            Ok(value) => Ok(
                Write { partition: self.ledger.partition.clone(), key: self.ledger.key.clone(), value },
            ),
            Err(e) => Err(e),
        }
    }
}

} // verus!
