use vstd::prelude::*;

use ndarray::{Array1, Axis, Slice};

verus! {

/// A one-dimensional `ndarray` array of 64-bit integers (particle ids, or offsets
/// into the particle order), as read from a snapshot's array files.
#[verifier::external_body]
pub struct IdArray {
    inner: Array1<i64>,
}

/// The elements of an [`IdArray`], in index order.
pub uninterp spec fn id_array_items(a: IdArray) -> Seq<i64>;

impl View for IdArray {
    type V = Seq<i64>;

    open spec fn view(&self) -> Seq<i64> {
        id_array_items(*self)
    }
}

impl IdArray {
    /// Relies on `ndarray::Array1::from_vec`: an array holding the vector's elements in
    /// order. It panics on more than `isize::MAX` elements.
    #[verifier::external_body]
    pub(crate) fn from_vec(v: Vec<i64>) -> (r: IdArray)
        requires
            v@.len() <= isize::MAX,
        ensures
            id_array_items(r) == v@,
    {
        IdArray { inner: Array1::from_vec(v) }
    }

    /// Relies on `ndarray::ArrayBase::len`: the number of elements of the array.
    #[verifier::external_body]
    pub(crate) fn len(&self) -> (r: usize)
        ensures
            r == id_array_items(*self).len(),
    {
        self.inner.len()
    }

    /// Relies on indexing an `ndarray::Array1` by `usize`: the element at that index.
    #[verifier::external_body]
    pub(crate) fn get(&self, i: usize) -> (r: i64)
        requires
            i < id_array_items(*self).len(),
        ensures
            r == id_array_items(*self)[i as int],
    {
        self.inner[i]
    }

    /// Relies on `ndarray::ArrayBase::slice_axis` along the only axis, then `to_vec`:
    /// the elements at indices `lo..hi`, in order.
    #[verifier::external_body]
    pub(crate) fn run(&self, lo: usize, hi: usize) -> (r: Vec<i64>)
        requires
            lo <= hi <= id_array_items(*self).len(),
        ensures
            r@ == id_array_items(*self).subrange(lo as int, hi as int),
    {
        self.inner.slice_axis(Axis(0), Slice::from(lo..hi)).to_vec()
    }
}

} // verus!
