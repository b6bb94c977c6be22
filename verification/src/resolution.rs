//! Resolving a relation: from a document's ledger to the bodies of the
//! targets that are still there.
//!
//! Resolution alternates with the engine. It starts from the stored
//! ledger, asks for one target after the other in ledger order, and keeps
//! the bodies that the engine has. A target that is gone is passed over:
//! a dangling relation is no failure.

use vstd::prelude::*;
use crate::engine::Lookup;
use crate::engine::Tree;
use crate::engine::answer_of;
use crate::engine::value_at;
use crate::error::StoreError;
use crate::layout::primary_partition;
use crate::layout::primary_partition_of;
use crate::ledger::Link;
use crate::ledger::decoded_ledger;
use crate::ledger::is_merged;
use crate::ledger::lemma_selected_concat;
use crate::ledger::stored_links;
use crate::ledger::read_ledger;
use crate::ledger::selected;
use crate::ledger::targets;
use crate::views::lemma_deep_view_push;

verus! {

/// The bodies among `answers`, in order.
pub open spec fn kept(answers: Seq<Option<Seq<u8>>>) -> Seq<Seq<u8>> {
    answers.filter_map(|answer: Option<Seq<u8>>| answer)
}

/// What `tree` answers for each of `ids`, in order.
pub open spec fn answers_of(ids: Seq<Seq<u8>>, tree: Tree) -> Seq<Option<Seq<u8>>> {
    Seq::new(ids.len(), |i: int| value_at(tree, ids[i]))
}

/// The bodies of those of `ids` that `tree` holds, in the order of `ids`.
pub open spec fn present_bodies(ids: Seq<Seq<u8>>, tree: Tree) -> Seq<Seq<u8>> {
    kept(answers_of(ids, tree))
}

/// A resolution under way: the targets to ask for and what the engine has
/// answered so far.
pub struct Resolution {
    partition: Vec<u8>,
    pending: Vec<Vec<u8>>,
    answered: usize,
    found: Vec<Vec<u8>>,
    answers: Ghost<Seq<Option<Seq<u8>>>>,
}

impl Resolution {
    /// Whether the resolution is in a state that its own operations lead
    /// to.
    pub closed spec fn wf(&self) -> bool {
        &&& self.answered <= self.pending.len()
        &&& self.answers@.len() == self.answered
        &&& self.found.deep_view() == kept(self.answers@)
    }

    /// The partition the targets are read from.
    pub closed spec fn partition(&self) -> Seq<u8> {
        self.partition@
    }

    /// The identifiers of all targets, in ledger order.
    pub closed spec fn targets(&self) -> Seq<Seq<u8>> {
        self.pending.deep_view()
    }

    /// What the engine has answered so far, one answer for each target
    /// asked for.
    pub closed spec fn answers(&self) -> Seq<Option<Seq<u8>>> {
        self.answers@
    }

    /// Starts to resolve the relation `name` into `collection` from the
    /// stored ledger of the source document.
    ///
    /// Fails with `NotFound` when the document has no ledger at all, and
    /// with `DeserializationError` when what is stored is no ledger.
    pub fn begin(stored: Option<&[u8]>, name: &str, collection: &str) -> (out: Result<
        Resolution,
        StoreError,
    >)
        ensures
            match out {
                Ok(resolution) => {
                    &&& stored matches Some(bytes)
                    &&& decoded_ledger(bytes@) matches Some(links)
                    &&& resolution.wf()
                    &&& resolution.partition() == primary_partition_of(collection@)
                    &&& resolution.targets() == selected(links, name@, collection@)
                    &&& resolution.answers() == Seq::<Option<Seq<u8>>>::empty()
                },
                Err(StoreError::NotFound) => stored is None,
                Err(StoreError::DeserializationError) => {
                    &&& stored matches Some(bytes)
                    &&& decoded_ledger(bytes@) is None
                },
                Err(_) => false,
            },
    {
        let ledger = match read_ledger(stored) {
            Ok(ledger) => ledger,
            Err(e) => {
                return Err(e);
            },
        };
        let pending = targets(&ledger, name, collection);
        let found: Vec<Vec<u8>> = Vec::new();
        assert(found.deep_view() =~= Seq::<Seq<u8>>::empty());
        Ok(
            Resolution {
                partition: primary_partition(collection),
                pending,
                answered: 0,
                found,
                answers: Ghost(Seq::empty()),
            },
        )
    }

    /// The next read to make of the engine: the first target that was not
    /// asked for yet. There is none once every target has its answer.
    pub fn next(&self) -> (lookup: Option<Lookup>)
        requires
            self.wf(),
        ensures
            match lookup {
                Some(lookup) => {
                    &&& self.answers().len() < self.targets().len()
                    &&& lookup.partition@ == self.partition()
                    &&& lookup.key@ == self.targets()[self.answers().len() as int]
                },
                None => self.answers().len() == self.targets().len(),
            },
    {
        if self.answered < self.pending.len() {
            let key = self.pending[self.answered].clone();
            assert(key@ =~= self.pending.deep_view()[self.answered as int]);
            Some(Lookup { partition: self.partition.clone(), key })
        } else {
            None
        }
    }

    /// Takes the engine's answer to the read that `next` asked for: the
    /// body of the target, or nothing where the target is gone. An answer
    /// that was not asked for is dropped.
    pub fn supply(&mut self, body: Option<Vec<u8>>)
        requires
            old(self).wf(),
        ensures
            final(self).wf(),
            final(self).partition() == old(self).partition(),
            final(self).targets() == old(self).targets(),
            final(self).answers() == if old(self).answers().len() < old(self).targets().len() {
                old(self).answers().push(answer_of(body))
            } else {
                old(self).answers()
            },
    {
        if self.answered < self.pending.len() {
            let ghost before = self.answers@;
            let ghost found_before = self.found;
            proof {
                let now = before.push(answer_of(body));
                assert(now.drop_last() =~= before);
                assert(now.last() == answer_of(body));
            }
            self.answers = Ghost(before.push(answer_of(body)));
            self.answered = self.answered + 1;
            match body {
                Some(bytes) => {
                    assert(bytes.deep_view() =~= bytes@);
                    self.found.push(bytes);
                    proof {
                        lemma_deep_view_push(found_before, self.found, bytes);
                        assert(found_before.deep_view().push(bytes@) =~= found_before.deep_view()
                            + seq![bytes@]);
                    }
                },
                None => {},
            }
        }
    }

    /// Ends the resolution: the bodies that the engine had, in ledger
    /// order.
    pub fn finish(self) -> (bodies: Vec<Vec<u8>>)
        requires
            self.wf(),
        ensures
            bodies.deep_view() == kept(self.answers()),
    {
        self.found
    }
}

/// Relations are only ever appended, and their order is kept: after two
/// attachments to one ledger, the ledger holds what it held before, then
/// the edges of the first attachment, then those of the second, and
/// resolving any relation gives its targets in that order.
pub proof fn lemma_attachments_append(
    stored: Option<Seq<u8>>,
    first: Seq<Link>,
    second: Seq<Link>,
    once: Seq<u8>,
    twice: Seq<u8>,
    name: Seq<char>,
    collection: Seq<char>,
)
    requires
        is_merged(stored, first, once),
        is_merged(Some(once), second, twice),
    ensures
        stored_links(stored) matches Some(prior) && decoded_ledger(twice) matches Some(links)
            && links == prior + first + second && selected(links, name, collection) == selected(
            prior,
            name,
            collection,
        ) + selected(first, name, collection) + selected(second, name, collection),
{
    let prior = stored_links(stored).unwrap();
    lemma_selected_concat(prior, first, name, collection);
    lemma_selected_concat(prior + first, second, name, collection);
}

/// Resolving a relation sees only its own edges: edges under another name,
/// or into another collection, change nothing wherever they stand in the
/// ledger.
pub proof fn lemma_selection_ignores_others(
    head: Seq<Link>,
    others: Seq<Link>,
    tail: Seq<Link>,
    name: Seq<char>,
    collection: Seq<char>,
)
    requires
        forall|i: int| 0 <= i < others.len() ==> others[i].0 != name || others[i].1 != collection,
    ensures
        selected(head + others + tail, name, collection) == selected(
            head + tail,
            name,
            collection,
        ),
{
    lemma_selected_nothing(others, name, collection);
    lemma_selected_concat(head, others, name, collection);
    lemma_selected_concat(head + others, tail, name, collection);
    lemma_selected_concat(head, tail, name, collection);
    assert(selected(head, name, collection) + Seq::<Seq<u8>>::empty() =~= selected(
        head,
        name,
        collection,
    ));
}

/// A ledger without an edge of the wanted kind resolves to nothing.
proof fn lemma_selected_nothing(links: Seq<Link>, name: Seq<char>, collection: Seq<char>)
    requires
        forall|i: int| 0 <= i < links.len() ==> links[i].0 != name || links[i].1 != collection,
    ensures
        selected(links, name, collection) == Seq::<Seq<u8>>::empty(),
    decreases links.len(),
{
    if links.len() > 0 {
        lemma_selected_nothing(links.drop_last(), name, collection);
    }
}

/// The identifiers in `ids` other than `gone`, in order.
pub open spec fn others_than(ids: Seq<Seq<u8>>, gone: Seq<u8>) -> Seq<Seq<u8>> {
    ids.filter(|id: Seq<u8>| id != gone)
}

/// A dangling relation is tolerated: when a target is removed from its
/// collection, resolution gives the bodies of the remaining targets, in
/// the same order.
pub proof fn lemma_removed_target_is_skipped(ids: Seq<Seq<u8>>, tree: Tree, gone: Seq<u8>)
    ensures
        present_bodies(ids, tree.remove(gone)) == present_bodies(others_than(ids, gone), tree),
    decreases ids.len(),
{
    reveal(Seq::filter);
    let after = tree.remove(gone);
    if ids.len() == 0 {
        assert(answers_of(ids, after) =~= answers_of(others_than(ids, gone), tree));
    } else {
        let head = ids.drop_last();
        let last = ids.last();
        lemma_removed_target_is_skipped(head, tree, gone);
        assert(answers_of(ids, after).drop_last() =~= answers_of(head, after));
        assert(answers_of(ids, after).last() == value_at(after, last));
        if last == gone {
            assert(others_than(ids, gone) == others_than(head, gone));
        } else {
            let rest = others_than(head, gone);
            assert(others_than(ids, gone) == rest.push(last));
            assert(answers_of(rest.push(last), tree).drop_last() =~= answers_of(rest, tree));
            assert(answers_of(rest.push(last), tree).last() == value_at(tree, last));
            assert(value_at(after, last) == value_at(tree, last));
        }
    }
}

} // verus!
