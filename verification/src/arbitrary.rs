//! Reading values out of raw bytes.

use crate::unstructured::{Error, Unstructured};
use vstd::prelude::*;

verus! {

/// Types whose values stand for mathematical values.
pub trait Modelled: Sized {
    /// The mathematical values.
    type Model;

    /// The mathematical value that this value stands for.
    spec fn model(&self) -> Self::Model;
}

/// A read value by its model.
pub open spec fn modelled<T: Modelled>(r: Result<T, Error>) -> Result<T::Model, Error> {
    match r {
        Ok(v) => Ok(v.model()),
        Err(e) => Err(e),
    }
}

/// Types whose values can be taken out of raw bytes.
pub trait Arbitrary: Modelled {
    /// What `size_hint` answers.
    spec fn hint(depth: usize) -> (usize, Option<usize>);

    /// What is read from `data` at separator depth `depth`, and what is left of
    /// `data` then.
    spec fn read(data: Seq<u8>, depth: u8) -> (Result<Self::Model, Error>, Seq<u8>);

    /// What is read from `data` when it is all for this value.
    open spec fn read_rest(data: Seq<u8>, depth: u8) -> Result<Self::Model, Error> {
        Self::read(data, depth).0
    }

    /// Takes a value from the reader.
    fn arbitrary(u: &mut Unstructured<'_>) -> (r: Result<Self, Error>)
        ensures
            final(u).depth() == old(u).depth(),
            final(u)@ == Self::read(old(u)@, old(u).depth()).1,
            modelled(r) == Self::read(old(u)@, old(u).depth()).0,
    ;

    /// Takes a value from all that the reader has left.
    fn arbitrary_take_rest(u: Unstructured<'_>) -> (r: Result<Self, Error>)
        ensures
            modelled(r) == Self::read_rest(u@, u.depth()),
    ;

    /// Bounds on the number of bytes that a value takes.
    fn size_hint(depth: usize) -> (hint: (usize, Option<usize>))
        ensures
            hint == Self::hint(depth),
    ;
}

} // verus!
