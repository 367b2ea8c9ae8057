//! Failures: the structural errors of lists, and the top-level error that
//! also carries a failure of the backing store unchanged.
use crate::record::Tag;
use vstd::prelude::*;

verus! {

/// A structural error of a list, whatever store holds it.
#[derive(Clone, Debug, PartialEq, Eq)]
pub enum ListError {
    /// A record of another kind than the one expected.
    BadType { expected: Tag, actual: Tag },
    /// A list metadata record whose payload has the wrong size.
    InvalidMeta { payload: Vec<u8> },
}

/// An error of a list operation over a store whose own failures are `E`.
#[derive(Clone, Debug)]
pub enum Error<E> {
    /// A structural error of the list.
    List(ListError),
    /// A failure of the store, passed on as it came.
    Store(E),
}

impl<E> From<ListError> for Error<E> {
    fn from(e: ListError) -> (r: Error<E>) {
        Error::List(e)
    }
}

impl<E> vstd::std_specs::convert::FromSpecImpl<ListError> for Error<E> {
    open spec fn obeys_from_spec() -> bool {
        true
    }

    open spec fn from_spec(e: ListError) -> Error<E> {
        Error::List(e)
    }
}

} // verus!
