use vstd::prelude::*;

verus! {

/// A value of any type in a single field.
pub struct GenericStruct<T> {
    pub field: T,
}

impl<T> GenericStruct<T> {
    pub fn new(value: T) -> (r: Self)
        ensures
            r.field == value,
    {
        GenericStruct { field: value }
    }
}

/// A fixed-size array whose length is part of its type.
pub struct ConstGenericStruct<T, const N: usize> {
    pub array: [T; N],
}

impl<T, const N: usize> ConstGenericStruct<T, N> {
    /// The number of elements, `N`.
    pub fn len(&self) -> (r: usize)
        ensures
            r == N,
    {
        N
    }
}

} // verus!
