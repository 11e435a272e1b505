//! `Option` and `Result`: a `bool` that tells the variant, then the payload.

use crate::arbitrary::{Arbitrary, Modelled};
use crate::dearbitrary::Dearbitrary;
use crate::layout;
use crate::layout::Piece;
use crate::size_hint;
use crate::structured::Structured;
use crate::unstructured::{Error, Unstructured};
use vstd::prelude::*;

verus! {

impl<A: Modelled> Modelled for Option<A> {
    type Model = Option<A::Model>;

    open spec fn model(&self) -> Option<A::Model> {
        match *self {
            Some(v) => Some(v.model()),
            None => None,
        }
    }
}

impl<A: Arbitrary> Arbitrary for Option<A> {
    open spec fn hint(depth: usize) -> (usize, Option<usize>) {
        size_hint::both(bool::hint(depth), size_hint::either((0, Some(0)), A::hint(depth)))
    }

    open spec fn read(data: Seq<u8>, depth: u8) -> (Result<Option<A::Model>, Error>, Seq<u8>) {
        match bool::read(data, depth) {
            (Ok(true), rest) => match A::read(rest, depth) {
                (Ok(v), rest) => (Ok(Some(v)), rest),
                (Err(e), rest) => (Err(e), rest),
            },
            (Ok(false), rest) => (Ok(None), rest),
            (Err(e), rest) => (Err(e), rest),
        }
    }

    fn arbitrary(u: &mut Unstructured<'_>) -> (r: Result<Self, Error>) {
        match bool::arbitrary(u) {
            Ok(true) => match A::arbitrary(u) {
                Ok(v) => Ok(Some(v)),
                Err(e) => Err(e),
            },
            Ok(false) => Ok(None),
            Err(e) => Err(e),
        }
    }

    fn arbitrary_take_rest(u: Unstructured<'_>) -> (r: Result<Self, Error>) {
        let mut u: Unstructured<'_> = u;
        Self::arbitrary(&mut u)
    }

    fn size_hint(depth: usize) -> (hint: (usize, Option<usize>)) {
        size_hint::and(bool::size_hint(depth), size_hint::or((0, Some(0)), A::size_hint(depth)))
    }
}

impl<A: Dearbitrary> Dearbitrary for Option<A> {
    open spec fn pieces(&self, depth: u8) -> Seq<Piece> {
        match *self {
            Some(v) => true.pieces(depth) + v.pieces(depth),
            None => false.pieces(depth),
        }
    }

    open spec fn readable(&self, depth: u8) -> bool {
        match *self {
            Some(v) => v.readable(depth),
            None => true,
        }
    }

    fn write_to(&self, s: &mut Structured) {
        match self {
            Some(val) => {
                true.write_to(s);
                val.write_to(s);
                proof {
                    layout::lemma_pieces_append(true.pieces(old(s)@.depth), val.pieces(old(s)@.depth));
                    assert(s@ =~= old(s)@.with(self.pieces(old(s)@.depth)));
                }
            },
            None => {
                false.write_to(s);
            },
        }
    }

    fn write_take_rest_to(&self, s: &mut Structured) {
        self.write_to(s)
    }

    proof fn reads_back(&self, depth: u8, data: Seq<u8>) {
        match *self {
            Some(v) => {
                layout::lemma_take_append(true.pieces(depth), v.pieces(depth), data);
                true.reads_back(depth, data);
                v.reads_back(depth, layout::take_pieces(true.pieces(depth), data)->0);
            },
            None => {
                false.reads_back(depth, data);
            },
        }
    }

    proof fn rest_reads_back(&self, depth: u8, data: Seq<u8>) {
        self.reads_back(depth, data);
    }

    proof fn hint_holds(&self, depth: u8, hint_depth: usize) {
        let tag = (*self is Some);
        tag.hint_holds(depth, hint_depth);
        let t = tag.pieces(depth);
        let payload = size_hint::either((0, Some(0)), A::hint(hint_depth));
        match *self {
            Some(v) => {
                let p = v.pieces(depth);
                v.hint_holds(depth, hint_depth);
                layout::lemma_pieces_append(t, p);
                size_hint::lemma_either(
                    (0, Some(0)),
                    A::hint(hint_depth),
                    layout::sizes(p).len(),
                    layout::content(p).len(),
                );
                size_hint::lemma_both(
                    bool::hint(hint_depth),
                    payload,
                    layout::sizes(t).len(),
                    layout::content(t).len(),
                    layout::sizes(p).len(),
                    layout::content(p).len(),
                );
            },
            None => {
                size_hint::lemma_either((0, Some(0)), A::hint(hint_depth), 0, 0);
                size_hint::lemma_both(
                    bool::hint(hint_depth),
                    payload,
                    layout::sizes(t).len(),
                    layout::content(t).len(),
                    0,
                    0,
                );
            },
        }
    }

    proof fn depth_is_ignored(&self, hint_depth: usize, depth: u8, other: u8) {
        if let Some(v) = *self {
            v.depth_is_ignored(hint_depth, depth, other);
        }
    }
}

impl<A: Modelled, B: Modelled> Modelled for Result<A, B> {
    type Model = Result<A::Model, B::Model>;

    open spec fn model(&self) -> Result<A::Model, B::Model> {
        match *self {
            Ok(v) => Ok(v.model()),
            Err(v) => Err(v.model()),
        }
    }
}

impl<A: Arbitrary, B: Arbitrary> Arbitrary for Result<A, B> {
    open spec fn hint(depth: usize) -> (usize, Option<usize>) {
        size_hint::both(bool::hint(depth), size_hint::either(A::hint(depth), B::hint(depth)))
    }

    open spec fn read(data: Seq<u8>, depth: u8) -> (
        Result<Result<A::Model, B::Model>, Error>,
        Seq<u8>,
    ) {
        match bool::read(data, depth) {
            (Ok(true), rest) => match A::read(rest, depth) {
                (Ok(v), rest) => (Ok(Ok(v)), rest),
                (Err(e), rest) => (Err(e), rest),
            },
            (Ok(false), rest) => match B::read(rest, depth) {
                (Ok(v), rest) => (Ok(Err(v)), rest),
                (Err(e), rest) => (Err(e), rest),
            },
            (Err(e), rest) => (Err(e), rest),
        }
    }

    fn arbitrary(u: &mut Unstructured<'_>) -> (r: Result<Self, Error>) {
        match bool::arbitrary(u) {
            Ok(true) => match A::arbitrary(u) {
                Ok(v) => Ok(Ok(v)),
                Err(e) => Err(e),
            },
            Ok(false) => match B::arbitrary(u) {
                Ok(v) => Ok(Err(v)),
                Err(e) => Err(e),
            },
            Err(e) => Err(e),
        }
    }

    fn arbitrary_take_rest(u: Unstructured<'_>) -> (r: Result<Self, Error>) {
        let mut u: Unstructured<'_> = u;
        Self::arbitrary(&mut u)
    }

    fn size_hint(depth: usize) -> (hint: (usize, Option<usize>)) {
        size_hint::and(
            bool::size_hint(depth),
            size_hint::or(A::size_hint(depth), B::size_hint(depth)),
        )
    }
}

impl<A: Dearbitrary, B: Dearbitrary> Dearbitrary for Result<A, B> {
    open spec fn pieces(&self, depth: u8) -> Seq<Piece> {
        match *self {
            Ok(v) => true.pieces(depth) + v.pieces(depth),
            Err(v) => false.pieces(depth) + v.pieces(depth),
        }
    }

    open spec fn readable(&self, depth: u8) -> bool {
        match *self {
            Ok(v) => v.readable(depth),
            Err(v) => v.readable(depth),
        }
    }

    fn write_to(&self, s: &mut Structured) {
        match self {
            Ok(val) => {
                true.write_to(s);
                val.write_to(s);
                proof {
                    layout::lemma_pieces_append(true.pieces(old(s)@.depth), val.pieces(old(s)@.depth));
                }
            },
            Err(val) => {
                false.write_to(s);
                val.write_to(s);
                proof {
                    layout::lemma_pieces_append(
                        false.pieces(old(s)@.depth),
                        val.pieces(old(s)@.depth),
                    );
                }
            },
        }
        proof {
            assert(s@ =~= old(s)@.with(self.pieces(old(s)@.depth)));
        }
    }

    fn write_take_rest_to(&self, s: &mut Structured) {
        self.write_to(s)
    }

    proof fn reads_back(&self, depth: u8, data: Seq<u8>) {
        match *self {
            Ok(v) => {
                layout::lemma_take_append(true.pieces(depth), v.pieces(depth), data);
                true.reads_back(depth, data);
                v.reads_back(depth, layout::take_pieces(true.pieces(depth), data)->0);
            },
            Err(v) => {
                layout::lemma_take_append(false.pieces(depth), v.pieces(depth), data);
                false.reads_back(depth, data);
                v.reads_back(depth, layout::take_pieces(false.pieces(depth), data)->0);
            },
        }
    }

    proof fn rest_reads_back(&self, depth: u8, data: Seq<u8>) {
        self.reads_back(depth, data);
    }

    proof fn hint_holds(&self, depth: u8, hint_depth: usize) {
        let tag = (*self is Ok);
        tag.hint_holds(depth, hint_depth);
        let t = tag.pieces(depth);
        let p = match *self {
            Ok(v) => {
                v.hint_holds(depth, hint_depth);
                v.pieces(depth)
            },
            Err(v) => {
                v.hint_holds(depth, hint_depth);
                v.pieces(depth)
            },
        };
        layout::lemma_pieces_append(t, p);
        size_hint::lemma_either(
            A::hint(hint_depth),
            B::hint(hint_depth),
            layout::sizes(p).len(),
            layout::content(p).len(),
        );
        size_hint::lemma_both(
            bool::hint(hint_depth),
            size_hint::either(A::hint(hint_depth), B::hint(hint_depth)),
            layout::sizes(t).len(),
            layout::content(t).len(),
            layout::sizes(p).len(),
            layout::content(p).len(),
        );
    }

    proof fn depth_is_ignored(&self, hint_depth: usize, depth: u8, other: u8) {
        match *self {
            Ok(v) => v.depth_is_ignored(hint_depth, depth, other),
            Err(v) => v.depth_is_ignored(hint_depth, depth, other),
        }
    }
}

} // verus!
