//! A fact about the deep view of a vector that the loops of this crate
//! share.

use vstd::prelude::*;

verus! {

/// Pushing onto a vector pushes the element's deep view onto the vector's
/// deep view.
pub proof fn lemma_deep_view_push<T: DeepView>(before: Vec<T>, after: Vec<T>, last: T)
    requires
        after@ == before@.push(last),
    ensures
        after.deep_view() == before.deep_view().push(last.deep_view()),
{
    assert forall|k: int| 0 <= k < after.deep_view().len() implies after.deep_view()[k]
        == before.deep_view().push(last.deep_view())[k] by {
        assert(after.deep_view()[k] == after@[k].deep_view());
        if k < before@.len() {
            assert(before.deep_view()[k] == before@[k].deep_view());
        }
    }
    assert(after.deep_view() =~= before.deep_view().push(last.deep_view()));
}

} // verus!
