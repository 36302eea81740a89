//! Facts about the deep views of vectors and slices.

use vstd::prelude::*;

verus! {

/// The deep view of a byte slice is its view.
pub broadcast proof fn lemma_bytes_deep_view(b: &[u8])
    ensures
        #[trigger] b.deep_view() == b@,
{
    assert(b.deep_view() =~= b@);
}

/// The deep view of a vector of bytes is its view.
pub broadcast proof fn lemma_byte_vec_deep_view(v: Vec<u8>)
    ensures
        #[trigger] v.deep_view() == v@,
{
    assert(v.deep_view() =~= v@);
}

/// The deep view of a vector of code units is its view.
pub broadcast proof fn lemma_unit_vec_deep_view(v: Vec<u16>)
    ensures
        #[trigger] v.deep_view() == v@,
{
    assert(v.deep_view() =~= v@);
}

/// The deep view of an empty vector is the empty sequence.
pub proof fn lemma_deep_view_empty<T: DeepView>(v: Vec<T>)
    requires
        v@.len() == 0,
    ensures
        v.deep_view() == Seq::<T::V>::empty(),
{
    assert(v.deep_view() =~= Seq::<T::V>::empty());
}

/// Pushing an element onto a vector pushes its deep view onto the vector's.
pub proof fn lemma_deep_view_push<T: DeepView>(before: Vec<T>, after: Vec<T>, x: T)
    requires
        after@ == before@.push(x),
    ensures
        after.deep_view() == before.deep_view().push(x.deep_view()),
{
    assert(after.deep_view() =~= before.deep_view().push(x.deep_view()));
}

pub broadcast group group_plain_deep_views {
    lemma_bytes_deep_view,
    lemma_byte_vec_deep_view,
    lemma_unit_vec_deep_view,
}

} // verus!
