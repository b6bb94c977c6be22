//! The requests the store makes of its engine, and a model of what the
//! engine does with them.
//!
//! The engine is an ordered key-value store with named, independent
//! partitions. The store never touches it: an operation hands back a
//! request, the caller carries it out and hands back what the engine
//! answered. The model below says what each request means, so that the
//! contracts of the operations can speak of the engine before and after.

use vstd::prelude::*;

verus! {

/// A read of one key in one partition.
#[derive(Clone, Debug, PartialEq, Eq)]
pub struct Lookup {
    /// The partition to read.
    pub partition: Vec<u8>,
    /// The key to read.
    pub key: Vec<u8>,
}

/// A write of one key in one partition; what the key held before is
/// overwritten.
#[derive(Clone, Debug, PartialEq, Eq)]
pub struct Write {
    /// The partition to write to.
    pub partition: Vec<u8>,
    /// The key to write.
    pub key: Vec<u8>,
    /// The value to store under the key.
    pub value: Vec<u8>,
}

/// A wholesale replacement of one partition: everything in it goes, and
/// the entries are inserted in order, all as one batch that readers see
/// entirely or not at all.
#[derive(Clone, Debug, PartialEq, Eq)]
pub struct Replacement {
    /// The partition to replace.
    pub partition: Vec<u8>,
    /// The entries, as pairs of key and value; of two entries with one
    /// key the later one stays.
    pub entries: Vec<(Vec<u8>, Vec<u8>)>,
}

/// The content of one partition.
pub type Tree = Map<Seq<u8>, Seq<u8>>;

/// `tree` after the pairs of `entries` were inserted in order.
pub open spec fn inserted_all(tree: Tree, entries: Seq<(Seq<u8>, Seq<u8>)>) -> Tree
    decreases entries.len(),
{
    if entries.len() == 0 {
        tree
    } else {
        inserted_all(tree, entries.drop_last()).insert(entries.last().0, entries.last().1)
    }
}

/// What `tree` holds under `key`.
pub open spec fn value_at(tree: Tree, key: Seq<u8>) -> Option<Seq<u8>> {
    if tree.contains_key(key) {
        Some(tree[key])
    } else {
        None
    }
}

/// An answer of the engine to a read, as a plain value: the bytes under
/// the key, or nothing.
pub open spec fn answer_of(answer: Option<Vec<u8>>) -> Option<Seq<u8>> {
    match answer {
        Some(bytes) => Some(bytes@),
        None => None,
    }
}

/// The state of an engine: the content of each of its partitions. A
/// partition that was never written is empty.
pub struct EngineState {
    /// The partitions that hold something, by name.
    pub partitions: Map<Seq<u8>, Tree>,
}

impl EngineState {
    /// An engine that holds nothing.
    pub open spec fn empty() -> EngineState {
        EngineState { partitions: Map::empty() }
    }

    /// The content of the partition `name`.
    pub open spec fn tree(self, name: Seq<u8>) -> Tree {
        if self.partitions.contains_key(name) {
            self.partitions[name]
        } else {
            Map::empty()
        }
    }

    /// The engine with the partition `name` set to `tree`.
    pub open spec fn with_tree(self, name: Seq<u8>, tree: Tree) -> EngineState {
        EngineState { partitions: self.partitions.insert(name, tree) }
    }

    /// What the partition `name` holds under `key`.
    pub open spec fn get(self, name: Seq<u8>, key: Seq<u8>) -> Option<Seq<u8>> {
        value_at(self.tree(name), key)
    }
}

impl Lookup {
    /// What `engine` answers to this read.
    pub open spec fn answer(self, engine: EngineState) -> Option<Seq<u8>> {
        engine.get(self.partition@, self.key@)
    }
}

impl Write {
    /// The engine after this write.
    pub open spec fn apply(self, engine: EngineState) -> EngineState {
        engine.with_tree(
            self.partition@,
            engine.tree(self.partition@).insert(self.key@, self.value@),
        )
    }
}

/// The engine after each of `writes`, in order.
pub open spec fn apply_all(writes: Seq<Write>, engine: EngineState) -> EngineState
    decreases writes.len(),
{
    if writes.len() == 0 {
        engine
    } else {
        writes.last().apply(apply_all(writes.drop_last(), engine))
    }
}

impl Replacement {
    /// The engine after this replacement.
    pub open spec fn apply(self, engine: EngineState) -> EngineState {
        engine.with_tree(
            self.partition@,
            inserted_all(Map::empty(), self.entries.deep_view()),
        )
    }
}

/// A write is read back: the key it wrote holds the value it wrote.
pub proof fn lemma_read_own_write(engine: EngineState, write: Write, lookup: Lookup)
    requires
        lookup.partition@ == write.partition@,
        lookup.key@ == write.key@,
    ensures
        lookup.answer(write.apply(engine)) == Some(write.value@),
{
}

/// A write leaves every other key, and every other partition, as it was.
pub proof fn lemma_read_other_write(engine: EngineState, write: Write, lookup: Lookup)
    requires
        lookup.partition@ != write.partition@ || lookup.key@ != write.key@,
    ensures
        lookup.answer(write.apply(engine)) == lookup.answer(engine),
{
}

/// A replacement leaves every other partition as it was.
pub proof fn lemma_replacement_is_local(
    engine: EngineState,
    replacement: Replacement,
    name: Seq<u8>,
)
    requires
        name != replacement.partition@,
    ensures
        replacement.apply(engine).tree(name) == engine.tree(name),
{
}

/// Writes that all go to one partition insert their pairs of key and
/// value into it, in order, and leave the other partitions as they were.
pub proof fn lemma_writes_to_one_partition(
    writes: Seq<Write>,
    engine: EngineState,
    partition: Seq<u8>,
    entries: Seq<(Seq<u8>, Seq<u8>)>,
)
    requires
        entries.len() == writes.len(),
        forall|i: int|
            0 <= i < writes.len() ==> (#[trigger] writes[i]).partition@ == partition && entries[i]
                == (writes[i].key@, writes[i].value@),
    ensures
        apply_all(writes, engine).tree(partition) == inserted_all(engine.tree(partition), entries),
        forall|other: Seq<u8>|
            other != partition ==> apply_all(writes, engine).tree(other) == engine.tree(other),
    decreases writes.len(),
{
    if writes.len() > 0 {
        lemma_writes_to_one_partition(
            writes.drop_last(),
            engine,
            partition,
            entries.drop_last(),
        );
        assert(entries.last() == (writes.last().key@, writes.last().value@));
    }
}

} // verus!
