//! Facts about vectors and their deep views that several modules rely on.

use vstd::prelude::*;

verus! {

/// Pushing an element onto a vector pushes the element's view onto the
/// vector's deep view.
pub proof fn lemma_deep_view_push<T: DeepView>(before: Vec<T>, after: Vec<T>, last: T)
    requires
        after@ == before@.push(last),
    ensures
        after.deep_view() == before.deep_view().push(last.deep_view()),
{
    assert(after.deep_view() =~= before.deep_view().push(last.deep_view()));
}

/// The deep view of a part of a slice is that part of the slice's deep view.
pub proof fn lemma_deep_view_subrange<T: DeepView>(whole: &[T], part: &[T], from: int, to: int)
    requires
        0 <= from <= to <= whole@.len(),
        part@ == whole@.subrange(from, to),
    ensures
        part.deep_view() == whole.deep_view().subrange(from, to),
{
    assert(part.deep_view() =~= whole.deep_view().subrange(from, to));
}

} // verus!
