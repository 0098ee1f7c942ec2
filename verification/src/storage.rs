//! Flat element storage.

use vstd::prelude::*;

verus! {

/// Raw data storage for tensor elements: a flat owned buffer.
///
/// The interpretation of the data (shape, strides) is handled by
/// [`crate::Tensor`]; storage itself is agnostic to dimensionality. Its
/// length is fixed at creation and never changes afterwards.
#[derive(Clone, Debug)]
pub struct Storage<T> {
    data: Vec<T>,
}

impl<T> View for Storage<T> {
    type V = Seq<T>;

    closed spec fn view(&self) -> Seq<T> {
        self.data@
    }
}

impl<T: Copy> Storage<T> {
    /// Create storage of `size` elements, each equal to `fill` (the zero
    /// of the element type).
    pub fn zeros(size: usize, fill: T) -> (s: Storage<T>)
        ensures
            s@.len() == size,
            forall|i: int| 0 <= i < size ==> s@[i] == fill,
    {
        let mut data: Vec<T> = Vec::new();
        let mut i: usize = 0;
        while i < size
            invariant
                i <= size,
                data@.len() == i,
                forall|k: int| 0 <= k < i ==> data@[k] == fill,
            decreases size - i,
        {
            data.push(fill);
            i = i + 1;
        }
        Storage { data }
    }

    /// Create storage from an existing vector, taking ownership without
    /// copying.
    pub fn from_vec(data: Vec<T>) -> (s: Storage<T>)
        ensures
            s@ == data@,
    {
        Storage { data }
    }

    /// An immutable view of the underlying elements.
    pub fn as_slice(&self) -> (r: &[T])
        ensures
            r@ == self@,
    {
        self.data.as_slice()
    }

    /// The element at flat position `i`.
    pub fn get(&self, i: usize) -> (r: T)
        requires
            i < self@.len(),
        ensures
            r == self@[i as int],
    {
        self.data[i]
    }

    /// Overwrite the element at flat position `i`; the in-place write used
    /// by a tensor's `set`.
    pub fn set(&mut self, i: usize, value: T)
        requires
            i < old(self)@.len(),
        ensures
            final(self)@ == old(self)@.update(i as int, value),
    {
        self.data[i] = value;
    }

    /// Number of elements in storage.
    pub fn len(&self) -> (r: usize)
        ensures
            r == self@.len(),
    {
        self.data.len()
    }

    /// True when the storage holds no elements.
    pub fn is_empty(&self) -> (r: bool)
        ensures
            r <==> self@.len() == 0,
    {
        self.data.len() == 0
    }
}

} // verus!
