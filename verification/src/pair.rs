//! Pair cells: the building block of proper and improper lists.

use vstd::prelude::*;

verus! {

/// A pair cell.  `Empty` is the empty list `()`; a proper list is a chain of
/// `Cons` cells whose last cdr wraps `Empty`.
#[derive(Debug, Clone, PartialEq)]
pub enum GenericPair<T> {
    Cons(T, T),
    Empty,
}

impl<T> Default for GenericPair<T> {
    fn default() -> (r: Self)
        ensures
            r == GenericPair::<T>::Empty,
    {
        GenericPair::Empty
    }
}

} // verus!
