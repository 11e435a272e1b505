//! What is written reads back.

use crate::arbitrary::{Arbitrary, Modelled};
use crate::collections;
use crate::dearbitrary::Dearbitrary;
use crate::layout;
use crate::unstructured::Error;
use vstd::prelude::*;
use vstd::utf8;

verus! {

/// Whether the bytes of `v` read back as `v`.
pub open spec fn round_trips<T: Dearbitrary>(v: T) -> bool {
    T::read(layout::laid_out(v.pieces(0)), 0).0 == Ok::<T::Model, Error>(v.model())
}

/// Every value round-trips, as far as machine words count its bytes.
pub proof fn law_round_trip<T: Dearbitrary>(v: T)
    requires
        v.readable(0),
        layout::fits(v.pieces(0)),
    ensures
        round_trips(v),
{
    layout::law_suffixes_align(v.pieces(0));
    v.reads_back(0, layout::laid_out(v.pieces(0)));
}

/// Values with the same bytes are the same.
pub proof fn law_bytes_tell_apart<T: Dearbitrary>(x: T, y: T)
    requires
        x.readable(0),
        y.readable(0),
        layout::fits(x.pieces(0)),
        layout::fits(y.pieces(0)),
        layout::laid_out(x.pieces(0)) == layout::laid_out(y.pieces(0)),
    ensures
        x.model() == y.model(),
{
    law_round_trip(x);
    law_round_trip(y);
}

/// Every value of a type with an upper size bound round-trips, and takes a number
/// of bytes within the bounds.
pub proof fn law_bounded_types_round_trip<T: Dearbitrary>(v: T)
    requires
        v.readable(0),
        T::hint(0).1 is Some,
    ensures
        round_trips(v),
        T::hint(0).0 <= layout::laid_out(v.pieces(0)).len() <= T::hint(0).1->0,
{
    let p = v.pieces(0);
    v.hint_holds(0, 0);
    layout::lemma_take_plain(p, Seq::empty());
    assert(layout::content(p) + Seq::<u8>::empty() =~= layout::content(p));
    law_round_trip(v);
}

/// Every vector round-trips, whatever its elements hold.
pub proof fn law_vectors_round_trip<A: Dearbitrary>(v: Vec<A>)
    requires
        collections::collection_readable(v@, 0),
        collections::collection_bytes(v@, 0).len() + 8 <= usize::MAX,
    ensures
        round_trips(v),
{
    layout::lemma_counted(collections::collection_bytes(v@, 0));
    law_round_trip(v);
}

/// Every byte vector round-trips.
pub proof fn law_byte_vectors_round_trip(v: Vec<u8>)
    requires
        v@.len() + 8 <= usize::MAX,
    ensures
        round_trips(v),
{
    let p = crate::sequences::seq_pieces(v@, 0);
    crate::sequences::lemma_sequence_hint(v@, 0, 0);
    layout::lemma_take_plain(p, Seq::empty());
    law_vectors_round_trip(v);
}

/// Every vector of byte vectors round-trips, with empty ones and separators among
/// them or not.
pub proof fn law_nested_byte_vectors_round_trip(v: Vec<Vec<u8>>)
    requires
        collections::collection_bytes(v@, 0).len() + 8 <= usize::MAX,
    ensures
        round_trips(v),
{
    law_vectors_round_trip(v);
}

/// Every string round-trips.
pub proof fn law_strings_round_trip(s: String)
    requires
        utf8::encode_utf8(s@).len() + 8 <= usize::MAX,
    ensures
        round_trips(s),
{
    layout::lemma_counted(utf8::encode_utf8(s@));
    law_round_trip(s);
}

/// Every vector of strings round-trips, with empty strings among them or not.
pub proof fn law_string_vectors_round_trip(v: Vec<String>)
    requires
        collections::collection_bytes(v@, 0).len() + 8 <= usize::MAX,
    ensures
        round_trips(v),
{
    law_vectors_round_trip(v);
}

} // verus!
