//! A reference-counted handle, so that clauses and proof steps can share a
//! value without copying it.

use std::sync::Arc;
use vstd::prelude::*;

verus! {

/// `Arc::clone`: another pointer to the same allocation, so the value behind
/// the result is the value behind `handle`.
#[verifier::external_body]
pub(crate) fn arc_clone<T>(handle: &Arc<T>) -> (res: Arc<T>)
    ensures
        *res == **handle,
{
    handle.clone()
}

/// A shared, immutable `T`.
#[derive(Debug, PartialEq, Eq, Hash)]
pub struct PyArcItem<T> {
    pub item: Arc<T>,
}

impl<T> PyArcItem<T> {
    pub fn new(item: T) -> (res: Self)
        ensures
            *res.item == item,
    {
        PyArcItem { item: Arc::new(item) }
    }
}

impl<T> Clone for PyArcItem<T> {
    fn clone(&self) -> (res: Self)
        ensures
            res == *self,
    {
        PyArcItem { item: arc_clone(&self.item) }
    }
}

} // verus!
