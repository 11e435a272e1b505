//! Pointers: the bytes of what they point to.

use crate::arbitrary::{Arbitrary, Modelled};
use crate::dearbitrary::Dearbitrary;
use crate::layout;
use crate::layout::Piece;
use crate::size_hint;
use crate::structured::Structured;
use crate::unstructured::{Error, Unstructured};
use std::rc::Rc;
use std::sync::Arc;
use vstd::prelude::*;

verus! {

impl<A: Modelled> Modelled for Box<A> {
    type Model = A::Model;

    open spec fn model(&self) -> A::Model {
        (**self).model()
    }
}

impl<A: Arbitrary> Arbitrary for Box<A> {
    open spec fn hint(depth: usize) -> (usize, Option<usize>) {
        if depth > size_hint::MAX_DEPTH {
            (0, None)
        } else {
            A::hint((depth + 1) as usize)
        }
    }

    open spec fn read(data: Seq<u8>, depth: u8) -> (Result<A::Model, Error>, Seq<u8>) {
        A::read(data, depth)
    }

    fn arbitrary(u: &mut Unstructured<'_>) -> (r: Result<Self, Error>) {
        match A::arbitrary(u) {
            Ok(v) => Ok(Box::new(v)),
            Err(e) => Err(e),
        }
    }

    fn arbitrary_take_rest(u: Unstructured<'_>) -> (r: Result<Self, Error>) {
        let mut u: Unstructured<'_> = u;
        Self::arbitrary(&mut u)
    }

    fn size_hint(depth: usize) -> (hint: (usize, Option<usize>)) {
        if depth > size_hint::MAX_DEPTH {
            (0, None)
        } else {
            A::size_hint(depth + 1)
        }
    }
}

impl<A: Dearbitrary> Dearbitrary for Box<A> {
    open spec fn pieces(&self, depth: u8) -> Seq<Piece> {
        (**self).pieces(depth)
    }

    open spec fn readable(&self, depth: u8) -> bool {
        (**self).readable(depth)
    }

    fn write_to(&self, s: &mut Structured) {
        (**self).write_to(s);
    }

    fn write_take_rest_to(&self, s: &mut Structured) {
        self.write_to(s)
    }

    proof fn reads_back(&self, depth: u8, data: Seq<u8>) {
        (**self).reads_back(depth, data);
    }

    proof fn rest_reads_back(&self, depth: u8, data: Seq<u8>) {
        self.reads_back(depth, data);
    }

    proof fn hint_holds(&self, depth: u8, hint_depth: usize) {
        if hint_depth <= size_hint::MAX_DEPTH {
            (**self).hint_holds(depth, (hint_depth + 1) as usize);
        }
    }

    proof fn depth_is_ignored(&self, hint_depth: usize, depth: u8, other: u8) {
        if hint_depth <= size_hint::MAX_DEPTH {
            (**self).depth_is_ignored((hint_depth + 1) as usize, depth, other);
        }
    }
}

impl<A: Modelled> Modelled for Rc<A> {
    type Model = A::Model;

    open spec fn model(&self) -> A::Model {
        (**self).model()
    }
}

impl<A: Arbitrary> Arbitrary for Rc<A> {
    open spec fn hint(depth: usize) -> (usize, Option<usize>) {
        if depth > size_hint::MAX_DEPTH {
            (0, None)
        } else {
            A::hint((depth + 1) as usize)
        }
    }

    open spec fn read(data: Seq<u8>, depth: u8) -> (Result<A::Model, Error>, Seq<u8>) {
        A::read(data, depth)
    }

    fn arbitrary(u: &mut Unstructured<'_>) -> (r: Result<Self, Error>) {
        match A::arbitrary(u) {
            Ok(v) => Ok(Rc::new(v)),
            Err(e) => Err(e),
        }
    }

    fn arbitrary_take_rest(u: Unstructured<'_>) -> (r: Result<Self, Error>) {
        let mut u: Unstructured<'_> = u;
        Self::arbitrary(&mut u)
    }

    fn size_hint(depth: usize) -> (hint: (usize, Option<usize>)) {
        if depth > size_hint::MAX_DEPTH {
            (0, None)
        } else {
            A::size_hint(depth + 1)
        }
    }
}

impl<A: Dearbitrary> Dearbitrary for Rc<A> {
    open spec fn pieces(&self, depth: u8) -> Seq<Piece> {
        (**self).pieces(depth)
    }

    open spec fn readable(&self, depth: u8) -> bool {
        (**self).readable(depth)
    }

    fn write_to(&self, s: &mut Structured) {
        (**self).write_to(s);
    }

    fn write_take_rest_to(&self, s: &mut Structured) {
        self.write_to(s)
    }

    proof fn reads_back(&self, depth: u8, data: Seq<u8>) {
        (**self).reads_back(depth, data);
    }

    proof fn rest_reads_back(&self, depth: u8, data: Seq<u8>) {
        self.reads_back(depth, data);
    }

    proof fn hint_holds(&self, depth: u8, hint_depth: usize) {
        if hint_depth <= size_hint::MAX_DEPTH {
            (**self).hint_holds(depth, (hint_depth + 1) as usize);
        }
    }

    proof fn depth_is_ignored(&self, hint_depth: usize, depth: u8, other: u8) {
        if hint_depth <= size_hint::MAX_DEPTH {
            (**self).depth_is_ignored((hint_depth + 1) as usize, depth, other);
        }
    }
}

impl<A: Modelled> Modelled for Arc<A> {
    type Model = A::Model;

    open spec fn model(&self) -> A::Model {
        (**self).model()
    }
}

impl<A: Arbitrary> Arbitrary for Arc<A> {
    open spec fn hint(depth: usize) -> (usize, Option<usize>) {
        if depth > size_hint::MAX_DEPTH {
            (0, None)
        } else {
            A::hint((depth + 1) as usize)
        }
    }

    open spec fn read(data: Seq<u8>, depth: u8) -> (Result<A::Model, Error>, Seq<u8>) {
        A::read(data, depth)
    }

    fn arbitrary(u: &mut Unstructured<'_>) -> (r: Result<Self, Error>) {
        match A::arbitrary(u) {
            Ok(v) => Ok(Arc::new(v)),
            Err(e) => Err(e),
        }
    }

    fn arbitrary_take_rest(u: Unstructured<'_>) -> (r: Result<Self, Error>) {
        let mut u: Unstructured<'_> = u;
        Self::arbitrary(&mut u)
    }

    fn size_hint(depth: usize) -> (hint: (usize, Option<usize>)) {
        if depth > size_hint::MAX_DEPTH {
            (0, None)
        } else {
            A::size_hint(depth + 1)
        }
    }
}

impl<A: Dearbitrary> Dearbitrary for Arc<A> {
    open spec fn pieces(&self, depth: u8) -> Seq<Piece> {
        (**self).pieces(depth)
    }

    open spec fn readable(&self, depth: u8) -> bool {
        (**self).readable(depth)
    }

    fn write_to(&self, s: &mut Structured) {
        (**self).write_to(s);
    }

    fn write_take_rest_to(&self, s: &mut Structured) {
        self.write_to(s)
    }

    proof fn reads_back(&self, depth: u8, data: Seq<u8>) {
        (**self).reads_back(depth, data);
    }

    proof fn rest_reads_back(&self, depth: u8, data: Seq<u8>) {
        self.reads_back(depth, data);
    }

    proof fn hint_holds(&self, depth: u8, hint_depth: usize) {
        if hint_depth <= size_hint::MAX_DEPTH {
            (**self).hint_holds(depth, (hint_depth + 1) as usize);
        }
    }

    proof fn depth_is_ignored(&self, hint_depth: usize, depth: u8, other: u8) {
        if hint_depth <= size_hint::MAX_DEPTH {
            (**self).depth_is_ignored((hint_depth + 1) as usize, depth, other);
        }
    }
}

} // verus!
