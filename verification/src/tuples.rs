//! Tuples: the bytes of their parts in a row.

use crate::arbitrary::{Arbitrary, Modelled};
use crate::dearbitrary::Dearbitrary;
use crate::layout;
use crate::layout::Piece;
use crate::size_hint;
use crate::structured::Structured;
use crate::unstructured::{Error, Unstructured};
use vstd::prelude::*;

verus! {

impl<A: Modelled> Modelled for (A,) {
    type Model = (A::Model,);

    open spec fn model(&self) -> (A::Model,) {
        (self.0.model(),)
    }
}

impl<A: Arbitrary> Arbitrary for (A,) {
    open spec fn hint(depth: usize) -> (usize, Option<usize>) {
        A::hint(depth)
    }

    open spec fn read(data: Seq<u8>, depth: u8) -> (Result<(A::Model,), Error>, Seq<u8>) {
        match A::read(data, depth) {
            (Ok(a), rest) => (Ok((a,)), rest),
            (Err(e), rest) => (Err(e), rest),
        }
    }

    fn arbitrary(u: &mut Unstructured<'_>) -> (r: Result<Self, Error>) {
        match A::arbitrary(u) {
            Ok(a) => Ok((a,)),
            Err(e) => Err(e),
        }
    }

    fn arbitrary_take_rest(u: Unstructured<'_>) -> (r: Result<Self, Error>) {
        let mut u: Unstructured<'_> = u;
        Self::arbitrary(&mut u)
    }

    fn size_hint(depth: usize) -> (hint: (usize, Option<usize>)) {
        A::size_hint(depth)
    }
}

impl<A: Dearbitrary> Dearbitrary for (A,) {
    open spec fn pieces(&self, depth: u8) -> Seq<Piece> {
        self.0.pieces(depth)
    }

    open spec fn readable(&self, depth: u8) -> bool {
        self.0.readable(depth)
    }

    fn write_to(&self, s: &mut Structured) {
        self.0.write_to(s)
    }

    fn write_take_rest_to(&self, s: &mut Structured) {
        self.write_to(s)
    }

    proof fn reads_back(&self, depth: u8, data: Seq<u8>) {
        self.0.reads_back(depth, data);
    }

    proof fn rest_reads_back(&self, depth: u8, data: Seq<u8>) {
        self.reads_back(depth, data);
    }

    proof fn hint_holds(&self, depth: u8, hint_depth: usize) {
        self.0.hint_holds(depth, hint_depth);
    }

    proof fn depth_is_ignored(&self, hint_depth: usize, depth: u8, other: u8) {
        self.0.depth_is_ignored(hint_depth, depth, other);
    }
}

impl<A: Modelled, B: Modelled> Modelled for (A, B) {
    type Model = (A::Model, B::Model);

    open spec fn model(&self) -> (A::Model, B::Model) {
        (self.0.model(), self.1.model())
    }
}

impl<A: Arbitrary, B: Arbitrary> Arbitrary for (A, B) {
    open spec fn hint(depth: usize) -> (usize, Option<usize>) {
        size_hint::both(A::hint(depth), <(B,)>::hint(depth))
    }

    open spec fn read(data: Seq<u8>, depth: u8) -> (Result<(A::Model, B::Model), Error>, Seq<u8>) {
        match A::read(data, depth) {
            (Ok(a), rest) => match <(B,)>::read(rest, depth) {
                (Ok((b,)), rest) => (Ok((a, b)), rest),
                (Err(e), rest) => (Err(e), rest),
            },
            (Err(e), rest) => (Err(e), rest),
        }
    }

    fn arbitrary(u: &mut Unstructured<'_>) -> (r: Result<Self, Error>) {
        match A::arbitrary(u) {
            Ok(a) => match <(B,)>::arbitrary(u) {
                Ok((b,)) => Ok((a, b)),
                Err(e) => Err(e),
            },
            Err(e) => Err(e),
        }
    }

    fn arbitrary_take_rest(u: Unstructured<'_>) -> (r: Result<Self, Error>) {
        let mut u: Unstructured<'_> = u;
        Self::arbitrary(&mut u)
    }

    fn size_hint(depth: usize) -> (hint: (usize, Option<usize>)) {
        size_hint::and(A::size_hint(depth), <(B,)>::size_hint(depth))
    }
}

impl<A: Dearbitrary, B: Dearbitrary> Dearbitrary for (A, B) {
    open spec fn pieces(&self, depth: u8) -> Seq<Piece> {
        self.0.pieces(depth) + (self.1,).pieces(depth)
    }

    open spec fn readable(&self, depth: u8) -> bool {
        self.0.readable(depth) && (self.1,).readable(depth)
    }

    fn write_to(&self, s: &mut Structured) {
        let ghost depth = s@.depth;
        let ghost w0 = s@;
        self.0.write_to(s);
        self.1.write_to(s);
        proof {
            w0.lemma_with_append(self.0.pieces(depth), (self.1,).pieces(depth));
        }
    }

    fn write_take_rest_to(&self, s: &mut Structured) {
        self.write_to(s)
    }

    proof fn reads_back(&self, depth: u8, data: Seq<u8>) {
        let rest = (self.1,);
        layout::lemma_take_append(self.0.pieces(depth), rest.pieces(depth), data);
        self.0.reads_back(depth, data);
        rest.reads_back(depth, layout::take_pieces(self.0.pieces(depth), data)->0);
    }

    proof fn rest_reads_back(&self, depth: u8, data: Seq<u8>) {
        self.reads_back(depth, data);
    }

    proof fn hint_holds(&self, depth: u8, hint_depth: usize) {
        let rest = (self.1,);
        let p = self.0.pieces(depth);
        let q = rest.pieces(depth);
        self.0.hint_holds(depth, hint_depth);
        rest.hint_holds(depth, hint_depth);
        layout::lemma_pieces_append(p, q);
        size_hint::lemma_both(
            A::hint(hint_depth),
            <(B,)>::hint(hint_depth),
            layout::sizes(p).len(),
            layout::content(p).len(),
            layout::sizes(q).len(),
            layout::content(q).len(),
        );
    }

    proof fn depth_is_ignored(&self, hint_depth: usize, depth: u8, other: u8) {
        let rest = (self.1,);
        self.0.depth_is_ignored(hint_depth, depth, other);
        rest.depth_is_ignored(hint_depth, depth, other);
    }
}

impl<A: Modelled, B: Modelled, C: Modelled> Modelled for (A, B, C) {
    type Model = (A::Model, B::Model, C::Model);

    open spec fn model(&self) -> (A::Model, B::Model, C::Model) {
        (self.0.model(), self.1.model(), self.2.model())
    }
}

impl<A: Arbitrary, B: Arbitrary, C: Arbitrary> Arbitrary for (A, B, C) {
    open spec fn hint(depth: usize) -> (usize, Option<usize>) {
        size_hint::both(A::hint(depth), <(B, C)>::hint(depth))
    }

    open spec fn read(data: Seq<u8>, depth: u8) -> (Result<(A::Model, B::Model, C::Model), Error>, Seq<u8>) {
        match A::read(data, depth) {
            (Ok(a), rest) => match <(B, C)>::read(rest, depth) {
                (Ok((b, c)), rest) => (Ok((a, b, c)), rest),
                (Err(e), rest) => (Err(e), rest),
            },
            (Err(e), rest) => (Err(e), rest),
        }
    }

    fn arbitrary(u: &mut Unstructured<'_>) -> (r: Result<Self, Error>) {
        match A::arbitrary(u) {
            Ok(a) => match <(B, C)>::arbitrary(u) {
                Ok((b, c)) => Ok((a, b, c)),
                Err(e) => Err(e),
            },
            Err(e) => Err(e),
        }
    }

    fn arbitrary_take_rest(u: Unstructured<'_>) -> (r: Result<Self, Error>) {
        let mut u: Unstructured<'_> = u;
        Self::arbitrary(&mut u)
    }

    fn size_hint(depth: usize) -> (hint: (usize, Option<usize>)) {
        size_hint::and(A::size_hint(depth), <(B, C)>::size_hint(depth))
    }
}

impl<A: Dearbitrary, B: Dearbitrary, C: Dearbitrary> Dearbitrary for (A, B, C) {
    open spec fn pieces(&self, depth: u8) -> Seq<Piece> {
        self.0.pieces(depth) + (self.1, self.2).pieces(depth)
    }

    open spec fn readable(&self, depth: u8) -> bool {
        self.0.readable(depth) && (self.1, self.2).readable(depth)
    }

    fn write_to(&self, s: &mut Structured) {
        let ghost depth = s@.depth;
        let ghost w0 = s@;
        self.0.write_to(s);
        let ghost w1 = s@;
        self.1.write_to(s);
        self.2.write_to(s);
        proof {
            w1.lemma_with_append(self.1.pieces(depth), (self.2,).pieces(depth));
            w0.lemma_with_append(self.0.pieces(depth), (self.1, self.2).pieces(depth));
        }
    }

    fn write_take_rest_to(&self, s: &mut Structured) {
        self.write_to(s)
    }

    proof fn reads_back(&self, depth: u8, data: Seq<u8>) {
        let rest = (self.1, self.2);
        layout::lemma_take_append(self.0.pieces(depth), rest.pieces(depth), data);
        self.0.reads_back(depth, data);
        rest.reads_back(depth, layout::take_pieces(self.0.pieces(depth), data)->0);
    }

    proof fn rest_reads_back(&self, depth: u8, data: Seq<u8>) {
        self.reads_back(depth, data);
    }

    proof fn hint_holds(&self, depth: u8, hint_depth: usize) {
        let rest = (self.1, self.2);
        let p = self.0.pieces(depth);
        let q = rest.pieces(depth);
        self.0.hint_holds(depth, hint_depth);
        rest.hint_holds(depth, hint_depth);
        layout::lemma_pieces_append(p, q);
        size_hint::lemma_both(
            A::hint(hint_depth),
            <(B, C)>::hint(hint_depth),
            layout::sizes(p).len(),
            layout::content(p).len(),
            layout::sizes(q).len(),
            layout::content(q).len(),
        );
    }

    proof fn depth_is_ignored(&self, hint_depth: usize, depth: u8, other: u8) {
        let rest = (self.1, self.2);
        self.0.depth_is_ignored(hint_depth, depth, other);
        rest.depth_is_ignored(hint_depth, depth, other);
    }
}

impl<A: Modelled, B: Modelled, C: Modelled, D: Modelled> Modelled for (A, B, C, D) {
    type Model = (A::Model, B::Model, C::Model, D::Model);

    open spec fn model(&self) -> (A::Model, B::Model, C::Model, D::Model) {
        (self.0.model(), self.1.model(), self.2.model(), self.3.model())
    }
}

impl<A: Arbitrary, B: Arbitrary, C: Arbitrary, D: Arbitrary> Arbitrary for (A, B, C, D) {
    open spec fn hint(depth: usize) -> (usize, Option<usize>) {
        size_hint::both(A::hint(depth), <(B, C, D)>::hint(depth))
    }

    open spec fn read(data: Seq<u8>, depth: u8) -> (Result<(A::Model, B::Model, C::Model, D::Model), Error>, Seq<u8>) {
        match A::read(data, depth) {
            (Ok(a), rest) => match <(B, C, D)>::read(rest, depth) {
                (Ok((b, c, d)), rest) => (Ok((a, b, c, d)), rest),
                (Err(e), rest) => (Err(e), rest),
            },
            (Err(e), rest) => (Err(e), rest),
        }
    }

    fn arbitrary(u: &mut Unstructured<'_>) -> (r: Result<Self, Error>) {
        match A::arbitrary(u) {
            Ok(a) => match <(B, C, D)>::arbitrary(u) {
                Ok((b, c, d)) => Ok((a, b, c, d)),
                Err(e) => Err(e),
            },
            Err(e) => Err(e),
        }
    }

    fn arbitrary_take_rest(u: Unstructured<'_>) -> (r: Result<Self, Error>) {
        let mut u: Unstructured<'_> = u;
        Self::arbitrary(&mut u)
    }

    fn size_hint(depth: usize) -> (hint: (usize, Option<usize>)) {
        size_hint::and(A::size_hint(depth), <(B, C, D)>::size_hint(depth))
    }
}

impl<A: Dearbitrary, B: Dearbitrary, C: Dearbitrary, D: Dearbitrary> Dearbitrary for (A, B, C, D) {
    open spec fn pieces(&self, depth: u8) -> Seq<Piece> {
        self.0.pieces(depth) + (self.1, self.2, self.3).pieces(depth)
    }

    open spec fn readable(&self, depth: u8) -> bool {
        self.0.readable(depth) && (self.1, self.2, self.3).readable(depth)
    }

    fn write_to(&self, s: &mut Structured) {
        let ghost depth = s@.depth;
        let ghost w0 = s@;
        self.0.write_to(s);
        let ghost w1 = s@;
        self.1.write_to(s);
        let ghost w2 = s@;
        self.2.write_to(s);
        self.3.write_to(s);
        proof {
            w2.lemma_with_append(self.2.pieces(depth), (self.3,).pieces(depth));
            w1.lemma_with_append(self.1.pieces(depth), (self.2, self.3).pieces(depth));
            w0.lemma_with_append(self.0.pieces(depth), (self.1, self.2, self.3).pieces(depth));
        }
    }

    fn write_take_rest_to(&self, s: &mut Structured) {
        self.write_to(s)
    }

    proof fn reads_back(&self, depth: u8, data: Seq<u8>) {
        let rest = (self.1, self.2, self.3);
        layout::lemma_take_append(self.0.pieces(depth), rest.pieces(depth), data);
        self.0.reads_back(depth, data);
        rest.reads_back(depth, layout::take_pieces(self.0.pieces(depth), data)->0);
    }

    proof fn rest_reads_back(&self, depth: u8, data: Seq<u8>) {
        self.reads_back(depth, data);
    }

    proof fn hint_holds(&self, depth: u8, hint_depth: usize) {
        let rest = (self.1, self.2, self.3);
        let p = self.0.pieces(depth);
        let q = rest.pieces(depth);
        self.0.hint_holds(depth, hint_depth);
        rest.hint_holds(depth, hint_depth);
        layout::lemma_pieces_append(p, q);
        size_hint::lemma_both(
            A::hint(hint_depth),
            <(B, C, D)>::hint(hint_depth),
            layout::sizes(p).len(),
            layout::content(p).len(),
            layout::sizes(q).len(),
            layout::content(q).len(),
        );
    }

    proof fn depth_is_ignored(&self, hint_depth: usize, depth: u8, other: u8) {
        let rest = (self.1, self.2, self.3);
        self.0.depth_is_ignored(hint_depth, depth, other);
        rest.depth_is_ignored(hint_depth, depth, other);
    }
}

impl<A: Modelled, B: Modelled, C: Modelled, D: Modelled, E: Modelled> Modelled for (A, B, C, D, E) {
    type Model = (A::Model, B::Model, C::Model, D::Model, E::Model);

    open spec fn model(&self) -> (A::Model, B::Model, C::Model, D::Model, E::Model) {
        (self.0.model(), self.1.model(), self.2.model(), self.3.model(), self.4.model())
    }
}

impl<A: Arbitrary, B: Arbitrary, C: Arbitrary, D: Arbitrary, E: Arbitrary> Arbitrary for (A, B, C, D, E) {
    open spec fn hint(depth: usize) -> (usize, Option<usize>) {
        size_hint::both(A::hint(depth), <(B, C, D, E)>::hint(depth))
    }

    open spec fn read(data: Seq<u8>, depth: u8) -> (Result<(A::Model, B::Model, C::Model, D::Model, E::Model), Error>, Seq<u8>) {
        match A::read(data, depth) {
            (Ok(a), rest) => match <(B, C, D, E)>::read(rest, depth) {
                (Ok((b, c, d, e)), rest) => (Ok((a, b, c, d, e)), rest),
                (Err(e), rest) => (Err(e), rest),
            },
            (Err(e), rest) => (Err(e), rest),
        }
    }

    fn arbitrary(u: &mut Unstructured<'_>) -> (r: Result<Self, Error>) {
        match A::arbitrary(u) {
            Ok(a) => match <(B, C, D, E)>::arbitrary(u) {
                Ok((b, c, d, e)) => Ok((a, b, c, d, e)),
                Err(e) => Err(e),
            },
            Err(e) => Err(e),
        }
    }

    fn arbitrary_take_rest(u: Unstructured<'_>) -> (r: Result<Self, Error>) {
        let mut u: Unstructured<'_> = u;
        Self::arbitrary(&mut u)
    }

    fn size_hint(depth: usize) -> (hint: (usize, Option<usize>)) {
        size_hint::and(A::size_hint(depth), <(B, C, D, E)>::size_hint(depth))
    }
}

impl<A: Dearbitrary, B: Dearbitrary, C: Dearbitrary, D: Dearbitrary, E: Dearbitrary> Dearbitrary for (A, B, C, D, E) {
    open spec fn pieces(&self, depth: u8) -> Seq<Piece> {
        self.0.pieces(depth) + (self.1, self.2, self.3, self.4).pieces(depth)
    }

    open spec fn readable(&self, depth: u8) -> bool {
        self.0.readable(depth) && (self.1, self.2, self.3, self.4).readable(depth)
    }

    fn write_to(&self, s: &mut Structured) {
        let ghost depth = s@.depth;
        let ghost w0 = s@;
        self.0.write_to(s);
        let ghost w1 = s@;
        self.1.write_to(s);
        let ghost w2 = s@;
        self.2.write_to(s);
        let ghost w3 = s@;
        self.3.write_to(s);
        self.4.write_to(s);
        proof {
            w3.lemma_with_append(self.3.pieces(depth), (self.4,).pieces(depth));
            w2.lemma_with_append(self.2.pieces(depth), (self.3, self.4).pieces(depth));
            w1.lemma_with_append(self.1.pieces(depth), (self.2, self.3, self.4).pieces(depth));
            w0.lemma_with_append(self.0.pieces(depth), (self.1, self.2, self.3, self.4).pieces(depth));
        }
    }

    fn write_take_rest_to(&self, s: &mut Structured) {
        self.write_to(s)
    }

    proof fn reads_back(&self, depth: u8, data: Seq<u8>) {
        let rest = (self.1, self.2, self.3, self.4);
        layout::lemma_take_append(self.0.pieces(depth), rest.pieces(depth), data);
        self.0.reads_back(depth, data);
        rest.reads_back(depth, layout::take_pieces(self.0.pieces(depth), data)->0);
    }

    proof fn rest_reads_back(&self, depth: u8, data: Seq<u8>) {
        self.reads_back(depth, data);
    }

    proof fn hint_holds(&self, depth: u8, hint_depth: usize) {
        let rest = (self.1, self.2, self.3, self.4);
        let p = self.0.pieces(depth);
        let q = rest.pieces(depth);
        self.0.hint_holds(depth, hint_depth);
        rest.hint_holds(depth, hint_depth);
        layout::lemma_pieces_append(p, q);
        size_hint::lemma_both(
            A::hint(hint_depth),
            <(B, C, D, E)>::hint(hint_depth),
            layout::sizes(p).len(),
            layout::content(p).len(),
            layout::sizes(q).len(),
            layout::content(q).len(),
        );
    }

    proof fn depth_is_ignored(&self, hint_depth: usize, depth: u8, other: u8) {
        let rest = (self.1, self.2, self.3, self.4);
        self.0.depth_is_ignored(hint_depth, depth, other);
        rest.depth_is_ignored(hint_depth, depth, other);
    }
}

impl<A: Modelled, B: Modelled, C: Modelled, D: Modelled, E: Modelled, F: Modelled> Modelled for (A, B, C, D, E, F) {
    type Model = (A::Model, B::Model, C::Model, D::Model, E::Model, F::Model);

    open spec fn model(&self) -> (A::Model, B::Model, C::Model, D::Model, E::Model, F::Model) {
        (self.0.model(), self.1.model(), self.2.model(), self.3.model(), self.4.model(), self.5.model())
    }
}

impl<A: Arbitrary, B: Arbitrary, C: Arbitrary, D: Arbitrary, E: Arbitrary, F: Arbitrary> Arbitrary for (A, B, C, D, E, F) {
    open spec fn hint(depth: usize) -> (usize, Option<usize>) {
        size_hint::both(A::hint(depth), <(B, C, D, E, F)>::hint(depth))
    }

    open spec fn read(data: Seq<u8>, depth: u8) -> (Result<(A::Model, B::Model, C::Model, D::Model, E::Model, F::Model), Error>, Seq<u8>) {
        match A::read(data, depth) {
            (Ok(a), rest) => match <(B, C, D, E, F)>::read(rest, depth) {
                (Ok((b, c, d, e, f)), rest) => (Ok((a, b, c, d, e, f)), rest),
                (Err(e), rest) => (Err(e), rest),
            },
            (Err(e), rest) => (Err(e), rest),
        }
    }

    fn arbitrary(u: &mut Unstructured<'_>) -> (r: Result<Self, Error>) {
        match A::arbitrary(u) {
            Ok(a) => match <(B, C, D, E, F)>::arbitrary(u) {
                Ok((b, c, d, e, f)) => Ok((a, b, c, d, e, f)),
                Err(e) => Err(e),
            },
            Err(e) => Err(e),
        }
    }

    fn arbitrary_take_rest(u: Unstructured<'_>) -> (r: Result<Self, Error>) {
        let mut u: Unstructured<'_> = u;
        Self::arbitrary(&mut u)
    }

    fn size_hint(depth: usize) -> (hint: (usize, Option<usize>)) {
        size_hint::and(A::size_hint(depth), <(B, C, D, E, F)>::size_hint(depth))
    }
}

impl<A: Dearbitrary, B: Dearbitrary, C: Dearbitrary, D: Dearbitrary, E: Dearbitrary, F: Dearbitrary> Dearbitrary for (A, B, C, D, E, F) {
    open spec fn pieces(&self, depth: u8) -> Seq<Piece> {
        self.0.pieces(depth) + (self.1, self.2, self.3, self.4, self.5).pieces(depth)
    }

    open spec fn readable(&self, depth: u8) -> bool {
        self.0.readable(depth) && (self.1, self.2, self.3, self.4, self.5).readable(depth)
    }

    fn write_to(&self, s: &mut Structured) {
        let ghost depth = s@.depth;
        let ghost w0 = s@;
        self.0.write_to(s);
        let ghost w1 = s@;
        self.1.write_to(s);
        let ghost w2 = s@;
        self.2.write_to(s);
        let ghost w3 = s@;
        self.3.write_to(s);
        let ghost w4 = s@;
        self.4.write_to(s);
        self.5.write_to(s);
        proof {
            w4.lemma_with_append(self.4.pieces(depth), (self.5,).pieces(depth));
            w3.lemma_with_append(self.3.pieces(depth), (self.4, self.5).pieces(depth));
            w2.lemma_with_append(self.2.pieces(depth), (self.3, self.4, self.5).pieces(depth));
            w1.lemma_with_append(self.1.pieces(depth), (self.2, self.3, self.4, self.5).pieces(depth));
            w0.lemma_with_append(self.0.pieces(depth), (self.1, self.2, self.3, self.4, self.5).pieces(depth));
        }
    }

    fn write_take_rest_to(&self, s: &mut Structured) {
        self.write_to(s)
    }

    proof fn reads_back(&self, depth: u8, data: Seq<u8>) {
        let rest = (self.1, self.2, self.3, self.4, self.5);
        layout::lemma_take_append(self.0.pieces(depth), rest.pieces(depth), data);
        self.0.reads_back(depth, data);
        rest.reads_back(depth, layout::take_pieces(self.0.pieces(depth), data)->0);
    }

    proof fn rest_reads_back(&self, depth: u8, data: Seq<u8>) {
        self.reads_back(depth, data);
    }

    proof fn hint_holds(&self, depth: u8, hint_depth: usize) {
        let rest = (self.1, self.2, self.3, self.4, self.5);
        let p = self.0.pieces(depth);
        let q = rest.pieces(depth);
        self.0.hint_holds(depth, hint_depth);
        rest.hint_holds(depth, hint_depth);
        layout::lemma_pieces_append(p, q);
        size_hint::lemma_both(
            A::hint(hint_depth),
            <(B, C, D, E, F)>::hint(hint_depth),
            layout::sizes(p).len(),
            layout::content(p).len(),
            layout::sizes(q).len(),
            layout::content(q).len(),
        );
    }

    proof fn depth_is_ignored(&self, hint_depth: usize, depth: u8, other: u8) {
        let rest = (self.1, self.2, self.3, self.4, self.5);
        self.0.depth_is_ignored(hint_depth, depth, other);
        rest.depth_is_ignored(hint_depth, depth, other);
    }
}

impl<A: Modelled, B: Modelled, C: Modelled, D: Modelled, E: Modelled, F: Modelled, G: Modelled> Modelled for (A, B, C, D, E, F, G) {
    type Model = (A::Model, B::Model, C::Model, D::Model, E::Model, F::Model, G::Model);

    open spec fn model(&self) -> (A::Model, B::Model, C::Model, D::Model, E::Model, F::Model, G::Model) {
        (self.0.model(), self.1.model(), self.2.model(), self.3.model(), self.4.model(), self.5.model(), self.6.model())
    }
}

impl<A: Arbitrary, B: Arbitrary, C: Arbitrary, D: Arbitrary, E: Arbitrary, F: Arbitrary, G: Arbitrary> Arbitrary for (A, B, C, D, E, F, G) {
    open spec fn hint(depth: usize) -> (usize, Option<usize>) {
        size_hint::both(A::hint(depth), <(B, C, D, E, F, G)>::hint(depth))
    }

    open spec fn read(data: Seq<u8>, depth: u8) -> (Result<(A::Model, B::Model, C::Model, D::Model, E::Model, F::Model, G::Model), Error>, Seq<u8>) {
        match A::read(data, depth) {
            (Ok(a), rest) => match <(B, C, D, E, F, G)>::read(rest, depth) {
                (Ok((b, c, d, e, f, g)), rest) => (Ok((a, b, c, d, e, f, g)), rest),
                (Err(e), rest) => (Err(e), rest),
            },
            (Err(e), rest) => (Err(e), rest),
        }
    }

    fn arbitrary(u: &mut Unstructured<'_>) -> (r: Result<Self, Error>) {
        match A::arbitrary(u) {
            Ok(a) => match <(B, C, D, E, F, G)>::arbitrary(u) {
                Ok((b, c, d, e, f, g)) => Ok((a, b, c, d, e, f, g)),
                Err(e) => Err(e),
            },
            Err(e) => Err(e),
        }
    }

    fn arbitrary_take_rest(u: Unstructured<'_>) -> (r: Result<Self, Error>) {
        let mut u: Unstructured<'_> = u;
        Self::arbitrary(&mut u)
    }

    fn size_hint(depth: usize) -> (hint: (usize, Option<usize>)) {
        size_hint::and(A::size_hint(depth), <(B, C, D, E, F, G)>::size_hint(depth))
    }
}

impl<A: Dearbitrary, B: Dearbitrary, C: Dearbitrary, D: Dearbitrary, E: Dearbitrary, F: Dearbitrary, G: Dearbitrary> Dearbitrary for (A, B, C, D, E, F, G) {
    open spec fn pieces(&self, depth: u8) -> Seq<Piece> {
        self.0.pieces(depth) + (self.1, self.2, self.3, self.4, self.5, self.6).pieces(depth)
    }

    open spec fn readable(&self, depth: u8) -> bool {
        self.0.readable(depth) && (self.1, self.2, self.3, self.4, self.5, self.6).readable(depth)
    }

    fn write_to(&self, s: &mut Structured) {
        let ghost depth = s@.depth;
        let ghost w0 = s@;
        self.0.write_to(s);
        let ghost w1 = s@;
        self.1.write_to(s);
        let ghost w2 = s@;
        self.2.write_to(s);
        let ghost w3 = s@;
        self.3.write_to(s);
        let ghost w4 = s@;
        self.4.write_to(s);
        let ghost w5 = s@;
        self.5.write_to(s);
        self.6.write_to(s);
        proof {
            w5.lemma_with_append(self.5.pieces(depth), (self.6,).pieces(depth));
            w4.lemma_with_append(self.4.pieces(depth), (self.5, self.6).pieces(depth));
            w3.lemma_with_append(self.3.pieces(depth), (self.4, self.5, self.6).pieces(depth));
            w2.lemma_with_append(self.2.pieces(depth), (self.3, self.4, self.5, self.6).pieces(depth));
            w1.lemma_with_append(self.1.pieces(depth), (self.2, self.3, self.4, self.5, self.6).pieces(depth));
            w0.lemma_with_append(self.0.pieces(depth), (self.1, self.2, self.3, self.4, self.5, self.6).pieces(depth));
        }
    }

    fn write_take_rest_to(&self, s: &mut Structured) {
        self.write_to(s)
    }

    proof fn reads_back(&self, depth: u8, data: Seq<u8>) {
        let rest = (self.1, self.2, self.3, self.4, self.5, self.6);
        layout::lemma_take_append(self.0.pieces(depth), rest.pieces(depth), data);
        self.0.reads_back(depth, data);
        rest.reads_back(depth, layout::take_pieces(self.0.pieces(depth), data)->0);
    }

    proof fn rest_reads_back(&self, depth: u8, data: Seq<u8>) {
        self.reads_back(depth, data);
    }

    proof fn hint_holds(&self, depth: u8, hint_depth: usize) {
        let rest = (self.1, self.2, self.3, self.4, self.5, self.6);
        let p = self.0.pieces(depth);
        let q = rest.pieces(depth);
        self.0.hint_holds(depth, hint_depth);
        rest.hint_holds(depth, hint_depth);
        layout::lemma_pieces_append(p, q);
        size_hint::lemma_both(
            A::hint(hint_depth),
            <(B, C, D, E, F, G)>::hint(hint_depth),
            layout::sizes(p).len(),
            layout::content(p).len(),
            layout::sizes(q).len(),
            layout::content(q).len(),
        );
    }

    proof fn depth_is_ignored(&self, hint_depth: usize, depth: u8, other: u8) {
        let rest = (self.1, self.2, self.3, self.4, self.5, self.6);
        self.0.depth_is_ignored(hint_depth, depth, other);
        rest.depth_is_ignored(hint_depth, depth, other);
    }
}

impl<A: Modelled, B: Modelled, C: Modelled, D: Modelled, E: Modelled, F: Modelled, G: Modelled, H: Modelled> Modelled for (A, B, C, D, E, F, G, H) {
    type Model = (A::Model, B::Model, C::Model, D::Model, E::Model, F::Model, G::Model, H::Model);

    open spec fn model(&self) -> (A::Model, B::Model, C::Model, D::Model, E::Model, F::Model, G::Model, H::Model) {
        (self.0.model(), self.1.model(), self.2.model(), self.3.model(), self.4.model(), self.5.model(), self.6.model(), self.7.model())
    }
}

impl<A: Arbitrary, B: Arbitrary, C: Arbitrary, D: Arbitrary, E: Arbitrary, F: Arbitrary, G: Arbitrary, H: Arbitrary> Arbitrary for (A, B, C, D, E, F, G, H) {
    open spec fn hint(depth: usize) -> (usize, Option<usize>) {
        size_hint::both(A::hint(depth), <(B, C, D, E, F, G, H)>::hint(depth))
    }

    open spec fn read(data: Seq<u8>, depth: u8) -> (Result<(A::Model, B::Model, C::Model, D::Model, E::Model, F::Model, G::Model, H::Model), Error>, Seq<u8>) {
        match A::read(data, depth) {
            (Ok(a), rest) => match <(B, C, D, E, F, G, H)>::read(rest, depth) {
                (Ok((b, c, d, e, f, g, h)), rest) => (Ok((a, b, c, d, e, f, g, h)), rest),
                (Err(e), rest) => (Err(e), rest),
            },
            (Err(e), rest) => (Err(e), rest),
        }
    }

    fn arbitrary(u: &mut Unstructured<'_>) -> (r: Result<Self, Error>) {
        match A::arbitrary(u) {
            Ok(a) => match <(B, C, D, E, F, G, H)>::arbitrary(u) {
                Ok((b, c, d, e, f, g, h)) => Ok((a, b, c, d, e, f, g, h)),
                Err(e) => Err(e),
            },
            Err(e) => Err(e),
        }
    }

    fn arbitrary_take_rest(u: Unstructured<'_>) -> (r: Result<Self, Error>) {
        let mut u: Unstructured<'_> = u;
        Self::arbitrary(&mut u)
    }

    fn size_hint(depth: usize) -> (hint: (usize, Option<usize>)) {
        size_hint::and(A::size_hint(depth), <(B, C, D, E, F, G, H)>::size_hint(depth))
    }
}

impl<A: Dearbitrary, B: Dearbitrary, C: Dearbitrary, D: Dearbitrary, E: Dearbitrary, F: Dearbitrary, G: Dearbitrary, H: Dearbitrary> Dearbitrary for (A, B, C, D, E, F, G, H) {
    open spec fn pieces(&self, depth: u8) -> Seq<Piece> {
        self.0.pieces(depth) + (self.1, self.2, self.3, self.4, self.5, self.6, self.7).pieces(depth)
    }

    open spec fn readable(&self, depth: u8) -> bool {
        self.0.readable(depth) && (self.1, self.2, self.3, self.4, self.5, self.6, self.7).readable(depth)
    }

    fn write_to(&self, s: &mut Structured) {
        let ghost depth = s@.depth;
        let ghost w0 = s@;
        self.0.write_to(s);
        let ghost w1 = s@;
        self.1.write_to(s);
        let ghost w2 = s@;
        self.2.write_to(s);
        let ghost w3 = s@;
        self.3.write_to(s);
        let ghost w4 = s@;
        self.4.write_to(s);
        let ghost w5 = s@;
        self.5.write_to(s);
        let ghost w6 = s@;
        self.6.write_to(s);
        self.7.write_to(s);
        proof {
            w6.lemma_with_append(self.6.pieces(depth), (self.7,).pieces(depth));
            w5.lemma_with_append(self.5.pieces(depth), (self.6, self.7).pieces(depth));
            w4.lemma_with_append(self.4.pieces(depth), (self.5, self.6, self.7).pieces(depth));
            w3.lemma_with_append(self.3.pieces(depth), (self.4, self.5, self.6, self.7).pieces(depth));
            w2.lemma_with_append(self.2.pieces(depth), (self.3, self.4, self.5, self.6, self.7).pieces(depth));
            w1.lemma_with_append(self.1.pieces(depth), (self.2, self.3, self.4, self.5, self.6, self.7).pieces(depth));
            w0.lemma_with_append(self.0.pieces(depth), (self.1, self.2, self.3, self.4, self.5, self.6, self.7).pieces(depth));
        }
    }

    fn write_take_rest_to(&self, s: &mut Structured) {
        self.write_to(s)
    }

    proof fn reads_back(&self, depth: u8, data: Seq<u8>) {
        let rest = (self.1, self.2, self.3, self.4, self.5, self.6, self.7);
        layout::lemma_take_append(self.0.pieces(depth), rest.pieces(depth), data);
        self.0.reads_back(depth, data);
        rest.reads_back(depth, layout::take_pieces(self.0.pieces(depth), data)->0);
    }

    proof fn rest_reads_back(&self, depth: u8, data: Seq<u8>) {
        self.reads_back(depth, data);
    }

    proof fn hint_holds(&self, depth: u8, hint_depth: usize) {
        let rest = (self.1, self.2, self.3, self.4, self.5, self.6, self.7);
        let p = self.0.pieces(depth);
        let q = rest.pieces(depth);
        self.0.hint_holds(depth, hint_depth);
        rest.hint_holds(depth, hint_depth);
        layout::lemma_pieces_append(p, q);
        size_hint::lemma_both(
            A::hint(hint_depth),
            <(B, C, D, E, F, G, H)>::hint(hint_depth),
            layout::sizes(p).len(),
            layout::content(p).len(),
            layout::sizes(q).len(),
            layout::content(q).len(),
        );
    }

    proof fn depth_is_ignored(&self, hint_depth: usize, depth: u8, other: u8) {
        let rest = (self.1, self.2, self.3, self.4, self.5, self.6, self.7);
        self.0.depth_is_ignored(hint_depth, depth, other);
        rest.depth_is_ignored(hint_depth, depth, other);
    }
}

impl<A: Modelled, B: Modelled, C: Modelled, D: Modelled, E: Modelled, F: Modelled, G: Modelled, H: Modelled, I: Modelled> Modelled for (A, B, C, D, E, F, G, H, I) {
    type Model = (A::Model, B::Model, C::Model, D::Model, E::Model, F::Model, G::Model, H::Model, I::Model);

    open spec fn model(&self) -> (A::Model, B::Model, C::Model, D::Model, E::Model, F::Model, G::Model, H::Model, I::Model) {
        (self.0.model(), self.1.model(), self.2.model(), self.3.model(), self.4.model(), self.5.model(), self.6.model(), self.7.model(), self.8.model())
    }
}

impl<A: Arbitrary, B: Arbitrary, C: Arbitrary, D: Arbitrary, E: Arbitrary, F: Arbitrary, G: Arbitrary, H: Arbitrary, I: Arbitrary> Arbitrary for (A, B, C, D, E, F, G, H, I) {
    open spec fn hint(depth: usize) -> (usize, Option<usize>) {
        size_hint::both(A::hint(depth), <(B, C, D, E, F, G, H, I)>::hint(depth))
    }

    open spec fn read(data: Seq<u8>, depth: u8) -> (Result<(A::Model, B::Model, C::Model, D::Model, E::Model, F::Model, G::Model, H::Model, I::Model), Error>, Seq<u8>) {
        match A::read(data, depth) {
            (Ok(a), rest) => match <(B, C, D, E, F, G, H, I)>::read(rest, depth) {
                (Ok((b, c, d, e, f, g, h, i)), rest) => (Ok((a, b, c, d, e, f, g, h, i)), rest),
                (Err(e), rest) => (Err(e), rest),
            },
            (Err(e), rest) => (Err(e), rest),
        }
    }

    fn arbitrary(u: &mut Unstructured<'_>) -> (r: Result<Self, Error>) {
        match A::arbitrary(u) {
            Ok(a) => match <(B, C, D, E, F, G, H, I)>::arbitrary(u) {
                Ok((b, c, d, e, f, g, h, i)) => Ok((a, b, c, d, e, f, g, h, i)),
                Err(e) => Err(e),
            },
            Err(e) => Err(e),
        }
    }

    fn arbitrary_take_rest(u: Unstructured<'_>) -> (r: Result<Self, Error>) {
        let mut u: Unstructured<'_> = u;
        Self::arbitrary(&mut u)
    }

    fn size_hint(depth: usize) -> (hint: (usize, Option<usize>)) {
        size_hint::and(A::size_hint(depth), <(B, C, D, E, F, G, H, I)>::size_hint(depth))
    }
}

impl<A: Dearbitrary, B: Dearbitrary, C: Dearbitrary, D: Dearbitrary, E: Dearbitrary, F: Dearbitrary, G: Dearbitrary, H: Dearbitrary, I: Dearbitrary> Dearbitrary for (A, B, C, D, E, F, G, H, I) {
    open spec fn pieces(&self, depth: u8) -> Seq<Piece> {
        self.0.pieces(depth) + (self.1, self.2, self.3, self.4, self.5, self.6, self.7, self.8).pieces(depth)
    }

    open spec fn readable(&self, depth: u8) -> bool {
        self.0.readable(depth) && (self.1, self.2, self.3, self.4, self.5, self.6, self.7, self.8).readable(depth)
    }

    fn write_to(&self, s: &mut Structured) {
        let ghost depth = s@.depth;
        let ghost w0 = s@;
        self.0.write_to(s);
        let ghost w1 = s@;
        self.1.write_to(s);
        let ghost w2 = s@;
        self.2.write_to(s);
        let ghost w3 = s@;
        self.3.write_to(s);
        let ghost w4 = s@;
        self.4.write_to(s);
        let ghost w5 = s@;
        self.5.write_to(s);
        let ghost w6 = s@;
        self.6.write_to(s);
        let ghost w7 = s@;
        self.7.write_to(s);
        self.8.write_to(s);
        proof {
            w7.lemma_with_append(self.7.pieces(depth), (self.8,).pieces(depth));
            w6.lemma_with_append(self.6.pieces(depth), (self.7, self.8).pieces(depth));
            w5.lemma_with_append(self.5.pieces(depth), (self.6, self.7, self.8).pieces(depth));
            w4.lemma_with_append(self.4.pieces(depth), (self.5, self.6, self.7, self.8).pieces(depth));
            w3.lemma_with_append(self.3.pieces(depth), (self.4, self.5, self.6, self.7, self.8).pieces(depth));
            w2.lemma_with_append(self.2.pieces(depth), (self.3, self.4, self.5, self.6, self.7, self.8).pieces(depth));
            w1.lemma_with_append(self.1.pieces(depth), (self.2, self.3, self.4, self.5, self.6, self.7, self.8).pieces(depth));
            w0.lemma_with_append(self.0.pieces(depth), (self.1, self.2, self.3, self.4, self.5, self.6, self.7, self.8).pieces(depth));
        }
    }

    fn write_take_rest_to(&self, s: &mut Structured) {
        self.write_to(s)
    }

    proof fn reads_back(&self, depth: u8, data: Seq<u8>) {
        let rest = (self.1, self.2, self.3, self.4, self.5, self.6, self.7, self.8);
        layout::lemma_take_append(self.0.pieces(depth), rest.pieces(depth), data);
        self.0.reads_back(depth, data);
        rest.reads_back(depth, layout::take_pieces(self.0.pieces(depth), data)->0);
    }

    proof fn rest_reads_back(&self, depth: u8, data: Seq<u8>) {
        self.reads_back(depth, data);
    }

    proof fn hint_holds(&self, depth: u8, hint_depth: usize) {
        let rest = (self.1, self.2, self.3, self.4, self.5, self.6, self.7, self.8);
        let p = self.0.pieces(depth);
        let q = rest.pieces(depth);
        self.0.hint_holds(depth, hint_depth);
        rest.hint_holds(depth, hint_depth);
        layout::lemma_pieces_append(p, q);
        size_hint::lemma_both(
            A::hint(hint_depth),
            <(B, C, D, E, F, G, H, I)>::hint(hint_depth),
            layout::sizes(p).len(),
            layout::content(p).len(),
            layout::sizes(q).len(),
            layout::content(q).len(),
        );
    }

    proof fn depth_is_ignored(&self, hint_depth: usize, depth: u8, other: u8) {
        let rest = (self.1, self.2, self.3, self.4, self.5, self.6, self.7, self.8);
        self.0.depth_is_ignored(hint_depth, depth, other);
        rest.depth_is_ignored(hint_depth, depth, other);
    }
}

impl<A: Modelled, B: Modelled, C: Modelled, D: Modelled, E: Modelled, F: Modelled, G: Modelled, H: Modelled, I: Modelled, J: Modelled> Modelled for (A, B, C, D, E, F, G, H, I, J) {
    type Model = (A::Model, B::Model, C::Model, D::Model, E::Model, F::Model, G::Model, H::Model, I::Model, J::Model);

    open spec fn model(&self) -> (A::Model, B::Model, C::Model, D::Model, E::Model, F::Model, G::Model, H::Model, I::Model, J::Model) {
        (self.0.model(), self.1.model(), self.2.model(), self.3.model(), self.4.model(), self.5.model(), self.6.model(), self.7.model(), self.8.model(), self.9.model())
    }
}

impl<A: Arbitrary, B: Arbitrary, C: Arbitrary, D: Arbitrary, E: Arbitrary, F: Arbitrary, G: Arbitrary, H: Arbitrary, I: Arbitrary, J: Arbitrary> Arbitrary for (A, B, C, D, E, F, G, H, I, J) {
    open spec fn hint(depth: usize) -> (usize, Option<usize>) {
        size_hint::both(A::hint(depth), <(B, C, D, E, F, G, H, I, J)>::hint(depth))
    }

    open spec fn read(data: Seq<u8>, depth: u8) -> (Result<(A::Model, B::Model, C::Model, D::Model, E::Model, F::Model, G::Model, H::Model, I::Model, J::Model), Error>, Seq<u8>) {
        match A::read(data, depth) {
            (Ok(a), rest) => match <(B, C, D, E, F, G, H, I, J)>::read(rest, depth) {
                (Ok((b, c, d, e, f, g, h, i, j)), rest) => (Ok((a, b, c, d, e, f, g, h, i, j)), rest),
                (Err(e), rest) => (Err(e), rest),
            },
            (Err(e), rest) => (Err(e), rest),
        }
    }

    fn arbitrary(u: &mut Unstructured<'_>) -> (r: Result<Self, Error>) {
        match A::arbitrary(u) {
            Ok(a) => match <(B, C, D, E, F, G, H, I, J)>::arbitrary(u) {
                Ok((b, c, d, e, f, g, h, i, j)) => Ok((a, b, c, d, e, f, g, h, i, j)),
                Err(e) => Err(e),
            },
            Err(e) => Err(e),
        }
    }

    fn arbitrary_take_rest(u: Unstructured<'_>) -> (r: Result<Self, Error>) {
        let mut u: Unstructured<'_> = u;
        Self::arbitrary(&mut u)
    }

    fn size_hint(depth: usize) -> (hint: (usize, Option<usize>)) {
        size_hint::and(A::size_hint(depth), <(B, C, D, E, F, G, H, I, J)>::size_hint(depth))
    }
}

impl<A: Dearbitrary, B: Dearbitrary, C: Dearbitrary, D: Dearbitrary, E: Dearbitrary, F: Dearbitrary, G: Dearbitrary, H: Dearbitrary, I: Dearbitrary, J: Dearbitrary> Dearbitrary for (A, B, C, D, E, F, G, H, I, J) {
    open spec fn pieces(&self, depth: u8) -> Seq<Piece> {
        self.0.pieces(depth) + (self.1, self.2, self.3, self.4, self.5, self.6, self.7, self.8, self.9).pieces(depth)
    }

    open spec fn readable(&self, depth: u8) -> bool {
        self.0.readable(depth) && (self.1, self.2, self.3, self.4, self.5, self.6, self.7, self.8, self.9).readable(depth)
    }

    fn write_to(&self, s: &mut Structured) {
        let ghost depth = s@.depth;
        let ghost w0 = s@;
        self.0.write_to(s);
        let ghost w1 = s@;
        self.1.write_to(s);
        let ghost w2 = s@;
        self.2.write_to(s);
        let ghost w3 = s@;
        self.3.write_to(s);
        let ghost w4 = s@;
        self.4.write_to(s);
        let ghost w5 = s@;
        self.5.write_to(s);
        let ghost w6 = s@;
        self.6.write_to(s);
        let ghost w7 = s@;
        self.7.write_to(s);
        let ghost w8 = s@;
        self.8.write_to(s);
        self.9.write_to(s);
        proof {
            w8.lemma_with_append(self.8.pieces(depth), (self.9,).pieces(depth));
            w7.lemma_with_append(self.7.pieces(depth), (self.8, self.9).pieces(depth));
            w6.lemma_with_append(self.6.pieces(depth), (self.7, self.8, self.9).pieces(depth));
            w5.lemma_with_append(self.5.pieces(depth), (self.6, self.7, self.8, self.9).pieces(depth));
            w4.lemma_with_append(self.4.pieces(depth), (self.5, self.6, self.7, self.8, self.9).pieces(depth));
            w3.lemma_with_append(self.3.pieces(depth), (self.4, self.5, self.6, self.7, self.8, self.9).pieces(depth));
            w2.lemma_with_append(self.2.pieces(depth), (self.3, self.4, self.5, self.6, self.7, self.8, self.9).pieces(depth));
            w1.lemma_with_append(self.1.pieces(depth), (self.2, self.3, self.4, self.5, self.6, self.7, self.8, self.9).pieces(depth));
            w0.lemma_with_append(self.0.pieces(depth), (self.1, self.2, self.3, self.4, self.5, self.6, self.7, self.8, self.9).pieces(depth));
        }
    }

    fn write_take_rest_to(&self, s: &mut Structured) {
        self.write_to(s)
    }

    proof fn reads_back(&self, depth: u8, data: Seq<u8>) {
        let rest = (self.1, self.2, self.3, self.4, self.5, self.6, self.7, self.8, self.9);
        layout::lemma_take_append(self.0.pieces(depth), rest.pieces(depth), data);
        self.0.reads_back(depth, data);
        rest.reads_back(depth, layout::take_pieces(self.0.pieces(depth), data)->0);
    }

    proof fn rest_reads_back(&self, depth: u8, data: Seq<u8>) {
        self.reads_back(depth, data);
    }

    proof fn hint_holds(&self, depth: u8, hint_depth: usize) {
        let rest = (self.1, self.2, self.3, self.4, self.5, self.6, self.7, self.8, self.9);
        let p = self.0.pieces(depth);
        let q = rest.pieces(depth);
        self.0.hint_holds(depth, hint_depth);
        rest.hint_holds(depth, hint_depth);
        layout::lemma_pieces_append(p, q);
        size_hint::lemma_both(
            A::hint(hint_depth),
            <(B, C, D, E, F, G, H, I, J)>::hint(hint_depth),
            layout::sizes(p).len(),
            layout::content(p).len(),
            layout::sizes(q).len(),
            layout::content(q).len(),
        );
    }

    proof fn depth_is_ignored(&self, hint_depth: usize, depth: u8, other: u8) {
        let rest = (self.1, self.2, self.3, self.4, self.5, self.6, self.7, self.8, self.9);
        self.0.depth_is_ignored(hint_depth, depth, other);
        rest.depth_is_ignored(hint_depth, depth, other);
    }
}

impl<A: Modelled, B: Modelled, C: Modelled, D: Modelled, E: Modelled, F: Modelled, G: Modelled, H: Modelled, I: Modelled, J: Modelled, K: Modelled> Modelled for (A, B, C, D, E, F, G, H, I, J, K) {
    type Model = (A::Model, B::Model, C::Model, D::Model, E::Model, F::Model, G::Model, H::Model, I::Model, J::Model, K::Model);

    open spec fn model(&self) -> (A::Model, B::Model, C::Model, D::Model, E::Model, F::Model, G::Model, H::Model, I::Model, J::Model, K::Model) {
        (self.0.model(), self.1.model(), self.2.model(), self.3.model(), self.4.model(), self.5.model(), self.6.model(), self.7.model(), self.8.model(), self.9.model(), self.10.model())
    }
}

impl<A: Arbitrary, B: Arbitrary, C: Arbitrary, D: Arbitrary, E: Arbitrary, F: Arbitrary, G: Arbitrary, H: Arbitrary, I: Arbitrary, J: Arbitrary, K: Arbitrary> Arbitrary for (A, B, C, D, E, F, G, H, I, J, K) {
    open spec fn hint(depth: usize) -> (usize, Option<usize>) {
        size_hint::both(A::hint(depth), <(B, C, D, E, F, G, H, I, J, K)>::hint(depth))
    }

    open spec fn read(data: Seq<u8>, depth: u8) -> (Result<(A::Model, B::Model, C::Model, D::Model, E::Model, F::Model, G::Model, H::Model, I::Model, J::Model, K::Model), Error>, Seq<u8>) {
        match A::read(data, depth) {
            (Ok(a), rest) => match <(B, C, D, E, F, G, H, I, J, K)>::read(rest, depth) {
                (Ok((b, c, d, e, f, g, h, i, j, k)), rest) => (Ok((a, b, c, d, e, f, g, h, i, j, k)), rest),
                (Err(e), rest) => (Err(e), rest),
            },
            (Err(e), rest) => (Err(e), rest),
        }
    }

    fn arbitrary(u: &mut Unstructured<'_>) -> (r: Result<Self, Error>) {
        match A::arbitrary(u) {
            Ok(a) => match <(B, C, D, E, F, G, H, I, J, K)>::arbitrary(u) {
                Ok((b, c, d, e, f, g, h, i, j, k)) => Ok((a, b, c, d, e, f, g, h, i, j, k)),
                Err(e) => Err(e),
            },
            Err(e) => Err(e),
        }
    }

    fn arbitrary_take_rest(u: Unstructured<'_>) -> (r: Result<Self, Error>) {
        let mut u: Unstructured<'_> = u;
        Self::arbitrary(&mut u)
    }

    fn size_hint(depth: usize) -> (hint: (usize, Option<usize>)) {
        size_hint::and(A::size_hint(depth), <(B, C, D, E, F, G, H, I, J, K)>::size_hint(depth))
    }
}

impl<A: Dearbitrary, B: Dearbitrary, C: Dearbitrary, D: Dearbitrary, E: Dearbitrary, F: Dearbitrary, G: Dearbitrary, H: Dearbitrary, I: Dearbitrary, J: Dearbitrary, K: Dearbitrary> Dearbitrary for (A, B, C, D, E, F, G, H, I, J, K) {
    open spec fn pieces(&self, depth: u8) -> Seq<Piece> {
        self.0.pieces(depth) + (self.1, self.2, self.3, self.4, self.5, self.6, self.7, self.8, self.9, self.10).pieces(depth)
    }

    open spec fn readable(&self, depth: u8) -> bool {
        self.0.readable(depth) && (self.1, self.2, self.3, self.4, self.5, self.6, self.7, self.8, self.9, self.10).readable(depth)
    }

    fn write_to(&self, s: &mut Structured) {
        let ghost depth = s@.depth;
        let ghost w0 = s@;
        self.0.write_to(s);
        let ghost w1 = s@;
        self.1.write_to(s);
        let ghost w2 = s@;
        self.2.write_to(s);
        let ghost w3 = s@;
        self.3.write_to(s);
        let ghost w4 = s@;
        self.4.write_to(s);
        let ghost w5 = s@;
        self.5.write_to(s);
        let ghost w6 = s@;
        self.6.write_to(s);
        let ghost w7 = s@;
        self.7.write_to(s);
        let ghost w8 = s@;
        self.8.write_to(s);
        let ghost w9 = s@;
        self.9.write_to(s);
        self.10.write_to(s);
        proof {
            w9.lemma_with_append(self.9.pieces(depth), (self.10,).pieces(depth));
            w8.lemma_with_append(self.8.pieces(depth), (self.9, self.10).pieces(depth));
            w7.lemma_with_append(self.7.pieces(depth), (self.8, self.9, self.10).pieces(depth));
            w6.lemma_with_append(self.6.pieces(depth), (self.7, self.8, self.9, self.10).pieces(depth));
            w5.lemma_with_append(self.5.pieces(depth), (self.6, self.7, self.8, self.9, self.10).pieces(depth));
            w4.lemma_with_append(self.4.pieces(depth), (self.5, self.6, self.7, self.8, self.9, self.10).pieces(depth));
            w3.lemma_with_append(self.3.pieces(depth), (self.4, self.5, self.6, self.7, self.8, self.9, self.10).pieces(depth));
            w2.lemma_with_append(self.2.pieces(depth), (self.3, self.4, self.5, self.6, self.7, self.8, self.9, self.10).pieces(depth));
            w1.lemma_with_append(self.1.pieces(depth), (self.2, self.3, self.4, self.5, self.6, self.7, self.8, self.9, self.10).pieces(depth));
            w0.lemma_with_append(self.0.pieces(depth), (self.1, self.2, self.3, self.4, self.5, self.6, self.7, self.8, self.9, self.10).pieces(depth));
        }
    }

    fn write_take_rest_to(&self, s: &mut Structured) {
        self.write_to(s)
    }

    proof fn reads_back(&self, depth: u8, data: Seq<u8>) {
        let rest = (self.1, self.2, self.3, self.4, self.5, self.6, self.7, self.8, self.9, self.10);
        layout::lemma_take_append(self.0.pieces(depth), rest.pieces(depth), data);
        self.0.reads_back(depth, data);
        rest.reads_back(depth, layout::take_pieces(self.0.pieces(depth), data)->0);
    }

    proof fn rest_reads_back(&self, depth: u8, data: Seq<u8>) {
        self.reads_back(depth, data);
    }

    proof fn hint_holds(&self, depth: u8, hint_depth: usize) {
        let rest = (self.1, self.2, self.3, self.4, self.5, self.6, self.7, self.8, self.9, self.10);
        let p = self.0.pieces(depth);
        let q = rest.pieces(depth);
        self.0.hint_holds(depth, hint_depth);
        rest.hint_holds(depth, hint_depth);
        layout::lemma_pieces_append(p, q);
        size_hint::lemma_both(
            A::hint(hint_depth),
            <(B, C, D, E, F, G, H, I, J, K)>::hint(hint_depth),
            layout::sizes(p).len(),
            layout::content(p).len(),
            layout::sizes(q).len(),
            layout::content(q).len(),
        );
    }

    proof fn depth_is_ignored(&self, hint_depth: usize, depth: u8, other: u8) {
        let rest = (self.1, self.2, self.3, self.4, self.5, self.6, self.7, self.8, self.9, self.10);
        self.0.depth_is_ignored(hint_depth, depth, other);
        rest.depth_is_ignored(hint_depth, depth, other);
    }
}

impl<A: Modelled, B: Modelled, C: Modelled, D: Modelled, E: Modelled, F: Modelled, G: Modelled, H: Modelled, I: Modelled, J: Modelled, K: Modelled, L: Modelled> Modelled for (A, B, C, D, E, F, G, H, I, J, K, L) {
    type Model = (A::Model, B::Model, C::Model, D::Model, E::Model, F::Model, G::Model, H::Model, I::Model, J::Model, K::Model, L::Model);

    open spec fn model(&self) -> (A::Model, B::Model, C::Model, D::Model, E::Model, F::Model, G::Model, H::Model, I::Model, J::Model, K::Model, L::Model) {
        (self.0.model(), self.1.model(), self.2.model(), self.3.model(), self.4.model(), self.5.model(), self.6.model(), self.7.model(), self.8.model(), self.9.model(), self.10.model(), self.11.model())
    }
}

impl<A: Arbitrary, B: Arbitrary, C: Arbitrary, D: Arbitrary, E: Arbitrary, F: Arbitrary, G: Arbitrary, H: Arbitrary, I: Arbitrary, J: Arbitrary, K: Arbitrary, L: Arbitrary> Arbitrary for (A, B, C, D, E, F, G, H, I, J, K, L) {
    open spec fn hint(depth: usize) -> (usize, Option<usize>) {
        size_hint::both(A::hint(depth), <(B, C, D, E, F, G, H, I, J, K, L)>::hint(depth))
    }

    open spec fn read(data: Seq<u8>, depth: u8) -> (Result<(A::Model, B::Model, C::Model, D::Model, E::Model, F::Model, G::Model, H::Model, I::Model, J::Model, K::Model, L::Model), Error>, Seq<u8>) {
        match A::read(data, depth) {
            (Ok(a), rest) => match <(B, C, D, E, F, G, H, I, J, K, L)>::read(rest, depth) {
                (Ok((b, c, d, e, f, g, h, i, j, k, l)), rest) => (Ok((a, b, c, d, e, f, g, h, i, j, k, l)), rest),
                (Err(e), rest) => (Err(e), rest),
            },
            (Err(e), rest) => (Err(e), rest),
        }
    }

    fn arbitrary(u: &mut Unstructured<'_>) -> (r: Result<Self, Error>) {
        match A::arbitrary(u) {
            Ok(a) => match <(B, C, D, E, F, G, H, I, J, K, L)>::arbitrary(u) {
                Ok((b, c, d, e, f, g, h, i, j, k, l)) => Ok((a, b, c, d, e, f, g, h, i, j, k, l)),
                Err(e) => Err(e),
            },
            Err(e) => Err(e),
        }
    }

    fn arbitrary_take_rest(u: Unstructured<'_>) -> (r: Result<Self, Error>) {
        let mut u: Unstructured<'_> = u;
        Self::arbitrary(&mut u)
    }

    fn size_hint(depth: usize) -> (hint: (usize, Option<usize>)) {
        size_hint::and(A::size_hint(depth), <(B, C, D, E, F, G, H, I, J, K, L)>::size_hint(depth))
    }
}

impl<A: Dearbitrary, B: Dearbitrary, C: Dearbitrary, D: Dearbitrary, E: Dearbitrary, F: Dearbitrary, G: Dearbitrary, H: Dearbitrary, I: Dearbitrary, J: Dearbitrary, K: Dearbitrary, L: Dearbitrary> Dearbitrary for (A, B, C, D, E, F, G, H, I, J, K, L) {
    open spec fn pieces(&self, depth: u8) -> Seq<Piece> {
        self.0.pieces(depth) + (self.1, self.2, self.3, self.4, self.5, self.6, self.7, self.8, self.9, self.10, self.11).pieces(depth)
    }

    open spec fn readable(&self, depth: u8) -> bool {
        self.0.readable(depth) && (self.1, self.2, self.3, self.4, self.5, self.6, self.7, self.8, self.9, self.10, self.11).readable(depth)
    }

    fn write_to(&self, s: &mut Structured) {
        let ghost depth = s@.depth;
        let ghost w0 = s@;
        self.0.write_to(s);
        let ghost w1 = s@;
        self.1.write_to(s);
        let ghost w2 = s@;
        self.2.write_to(s);
        let ghost w3 = s@;
        self.3.write_to(s);
        let ghost w4 = s@;
        self.4.write_to(s);
        let ghost w5 = s@;
        self.5.write_to(s);
        let ghost w6 = s@;
        self.6.write_to(s);
        let ghost w7 = s@;
        self.7.write_to(s);
        let ghost w8 = s@;
        self.8.write_to(s);
        let ghost w9 = s@;
        self.9.write_to(s);
        let ghost w10 = s@;
        self.10.write_to(s);
        self.11.write_to(s);
        proof {
            w10.lemma_with_append(self.10.pieces(depth), (self.11,).pieces(depth));
            w9.lemma_with_append(self.9.pieces(depth), (self.10, self.11).pieces(depth));
            w8.lemma_with_append(self.8.pieces(depth), (self.9, self.10, self.11).pieces(depth));
            w7.lemma_with_append(self.7.pieces(depth), (self.8, self.9, self.10, self.11).pieces(depth));
            w6.lemma_with_append(self.6.pieces(depth), (self.7, self.8, self.9, self.10, self.11).pieces(depth));
            w5.lemma_with_append(self.5.pieces(depth), (self.6, self.7, self.8, self.9, self.10, self.11).pieces(depth));
            w4.lemma_with_append(self.4.pieces(depth), (self.5, self.6, self.7, self.8, self.9, self.10, self.11).pieces(depth));
            w3.lemma_with_append(self.3.pieces(depth), (self.4, self.5, self.6, self.7, self.8, self.9, self.10, self.11).pieces(depth));
            w2.lemma_with_append(self.2.pieces(depth), (self.3, self.4, self.5, self.6, self.7, self.8, self.9, self.10, self.11).pieces(depth));
            w1.lemma_with_append(self.1.pieces(depth), (self.2, self.3, self.4, self.5, self.6, self.7, self.8, self.9, self.10, self.11).pieces(depth));
            w0.lemma_with_append(self.0.pieces(depth), (self.1, self.2, self.3, self.4, self.5, self.6, self.7, self.8, self.9, self.10, self.11).pieces(depth));
        }
    }

    fn write_take_rest_to(&self, s: &mut Structured) {
        self.write_to(s)
    }

    proof fn reads_back(&self, depth: u8, data: Seq<u8>) {
        let rest = (self.1, self.2, self.3, self.4, self.5, self.6, self.7, self.8, self.9, self.10, self.11);
        layout::lemma_take_append(self.0.pieces(depth), rest.pieces(depth), data);
        self.0.reads_back(depth, data);
        rest.reads_back(depth, layout::take_pieces(self.0.pieces(depth), data)->0);
    }

    proof fn rest_reads_back(&self, depth: u8, data: Seq<u8>) {
        self.reads_back(depth, data);
    }

    proof fn hint_holds(&self, depth: u8, hint_depth: usize) {
        let rest = (self.1, self.2, self.3, self.4, self.5, self.6, self.7, self.8, self.9, self.10, self.11);
        let p = self.0.pieces(depth);
        let q = rest.pieces(depth);
        self.0.hint_holds(depth, hint_depth);
        rest.hint_holds(depth, hint_depth);
        layout::lemma_pieces_append(p, q);
        size_hint::lemma_both(
            A::hint(hint_depth),
            <(B, C, D, E, F, G, H, I, J, K, L)>::hint(hint_depth),
            layout::sizes(p).len(),
            layout::content(p).len(),
            layout::sizes(q).len(),
            layout::content(q).len(),
        );
    }

    proof fn depth_is_ignored(&self, hint_depth: usize, depth: u8, other: u8) {
        let rest = (self.1, self.2, self.3, self.4, self.5, self.6, self.7, self.8, self.9, self.10, self.11);
        self.0.depth_is_ignored(hint_depth, depth, other);
        rest.depth_is_ignored(hint_depth, depth, other);
    }
}

} // verus!
