//! Writing values as bytes that read back as the same values.

use crate::arbitrary::Arbitrary;
use crate::layout;
use crate::layout::Piece;
use crate::size_hint;
use crate::structured::{Structured, Written};
use vstd::prelude::*;

verus! {

/// The reverse of [`Arbitrary`]: turns a value into a byte sequence from which
/// [`Arbitrary::arbitrary`] reads an equal value.
///
/// Borrowed types such as `&str` and `&[u8]` are left out: what is read would
/// have to borrow from bytes that are new. `String` and `Vec<u8>` take their
/// place.
pub trait Dearbitrary: Arbitrary {
    /// The bytes that are written at separator depth `depth`.
    spec fn pieces(&self, depth: u8) -> Seq<Piece>;

    /// The bytes that are written for a reader that gives all its data to this
    /// value.
    open spec fn rest_pieces(&self, depth: u8) -> Seq<Piece> {
        self.pieces(depth)
    }

    /// The bytes that follow [`rest_pieces`](Dearbitrary::rest_pieces) where the
    /// reader takes all that is left then.
    open spec fn rest_tail(&self, depth: u8) -> Option<Seq<u8>> {
        None
    }

    /// Whether machine words count what is inside: in each collection, the bytes of
    /// each element that has size suffixes of its own.
    spec fn readable(&self, depth: u8) -> bool;

    /// The same for a reader that gives all its data to this value.
    open spec fn rest_readable(&self, depth: u8) -> bool {
        self.readable(depth)
    }

    /// Writes this value into the builder.
    fn write_to(&self, s: &mut Structured)
        ensures
            final(s)@ == old(s)@.with(self.pieces(old(s)@.depth)),
    ;

    /// Writes bytes for [`Arbitrary::arbitrary_take_rest`].
    ///
    /// Most types write the same bytes as in [`write_to`](Dearbitrary::write_to).
    /// Collections and strings differ.
    fn write_take_rest_to(&self, s: &mut Structured)
        ensures
            final(s)@ == old(s)@.with(self.rest_pieces(old(s)@.depth)).with_tail(
                self.rest_tail(old(s)@.depth),
            ),
    ;

    /// Turns this value into a standalone byte sequence.
    fn to_arbitrary_bytes(&self) -> (bytes: Vec<u8>)
        ensures
            bytes@ == layout::laid_out(self.pieces(0)),
    {
        let mut s: Structured = Structured::new();
        self.write_to(&mut s);
        proof {
            Written::lemma_finished(0, self.pieces(0), None);
        }
        s.into_bytes()
    }

    /// A reader that meets the pieces of a readable value reads that value, and is
    /// left with what follows them.
    proof fn reads_back(&self, depth: u8, data: Seq<u8>)
        requires
            self.readable(depth),
            layout::take_pieces(self.pieces(depth), data) is Some,
        ensures
            Self::read(data, depth) == (
                Ok::<Self::Model, crate::unstructured::Error>(self.model()),
                layout::take_pieces(self.pieces(depth), data)->0,
            ),
    ;

    /// A reader that gives all its data to this value reads it where the data is
    /// what was written for such a reader.
    proof fn rest_reads_back(&self, depth: u8, data: Seq<u8>)
        requires
            self.rest_readable(depth),
            layout::takes_rest(self.rest_pieces(depth), self.rest_tail(depth), data),
        ensures
            Self::read_rest(data, depth) == Ok::<Self::Model, crate::unstructured::Error>(
                self.model(),
            ),
    ;

    /// A type whose size hint has an upper bound writes no size suffixes, and a
    /// number of bytes within the bounds.
    proof fn hint_holds(&self, depth: u8, hint_depth: usize)
        ensures
            size_hint::within(
                Self::hint(hint_depth),
                layout::sizes(self.pieces(depth)).len(),
                layout::content(self.pieces(depth)).len(),
            ),
    ;

    /// A type whose size hint has an upper bound writes the same at every depth.
    proof fn depth_is_ignored(&self, hint_depth: usize, depth: u8, other: u8)
        ensures
            Self::hint(hint_depth).1 is Some ==> self.pieces(depth) == self.pieces(other),
    ;
}

} // verus!
