//! `Vec`: elements of a fixed size stand in a row; other elements are chunks with
//! separators between them.

use crate::arbitrary::{Arbitrary, Modelled};
use crate::dearbitrary::Dearbitrary;
use crate::guard;
use crate::layout;
use crate::layout::Piece;
use crate::separator;
use crate::sequences;
use crate::structured::{Structured, Written};
use crate::suffix;
use crate::unstructured::{Error, Unstructured};
use vstd::prelude::*;

verus! {

/// Whether all values of the type take the same number of bytes, and some.
pub open spec fn fixed_size<A: Arbitrary>() -> bool {
    A::hint(0).1 == Some(A::hint(0).0) && A::hint(0).0 > 0
}

/// The depth of what is nested in a collection at `depth`.
pub open spec fn deeper(depth: u8) -> u8 {
    if depth == u8::MAX {
        0
    } else {
        (depth + 1) as u8
    }
}

/// The chunks that `elems` become, each finished on its own at `depth`.
pub open spec fn chunks<A: Dearbitrary>(elems: Seq<A>, depth: u8) -> Seq<Seq<u8>> {
    Seq::new(
        elems.len(),
        |i: int| layout::laid_out_rest(elems[i].rest_pieces(depth), elems[i].rest_tail(depth)),
    )
}

/// The bytes of a collection at `depth`.
pub open spec fn collection_bytes<A: Dearbitrary>(elems: Seq<A>, depth: u8) -> Seq<u8> {
    if fixed_size::<A>() {
        layout::laid_out(sequences::seq_pieces(elems, depth))
    } else {
        let sep = separator::separator(depth);
        separator::joined(guard::all_guarded(chunks(elems, deeper(depth)), sep), sep)
    }
}

/// Whether machine words count what is inside a collection. Elements of a fixed
/// size have no suffixes. Others have to fit as chunks of their own.
pub open spec fn collection_readable<A: Dearbitrary>(elems: Seq<A>, depth: u8) -> bool {
    if fixed_size::<A>() {
        sequences::all_readable(elems, depth)
    } else {
        all_fit(elems, deeper(depth))
    }
}

/// Whether machine words count the bytes of each of `elems` as a chunk at `depth`.
pub open spec fn all_fit<A: Dearbitrary>(elems: Seq<A>, depth: u8) -> bool {
    forall|i: int|
        0 <= i < elems.len() ==> (#[trigger] elems[i]).rest_readable(depth) && layout::fits_rest(
            elems[i].rest_pieces(depth),
            elems[i].rest_tail(depth),
        )
}

/// What is read from `chunks`, one value from each. The first one that fails ends
/// it.
pub open spec fn read_chunks<A: Arbitrary>(chunks: Seq<Seq<u8>>, depth: u8) -> Result<
    Seq<A::Model>,
    Error,
>
    decreases chunks.len(),
{
    if chunks.len() == 0 {
        Ok(Seq::empty())
    } else {
        match A::read_rest(chunks[0], depth) {
            Ok(m) => match read_chunks::<A>(chunks.drop_first(), depth) {
                Ok(ms) => Ok(seq![m] + ms),
                Err(e) => Err(e),
            },
            Err(e) => Err(e),
        }
    }
}

/// What is read from the bytes of a collection at `depth`.
pub open spec fn read_collection<A: Arbitrary>(data: Seq<u8>, depth: u8) -> Result<
    Seq<A::Model>,
    Error,
> {
    if fixed_size::<A>() {
        sequences::read_n::<A>(data.len() / A::hint(0).0 as nat, data, depth).0
    } else {
        read_chunks::<A>(
            guard::taken_apart(data, separator::separator(depth), false),
            deeper(depth),
        )
    }
}

proof fn lemma_chunks_read_back<A: Dearbitrary>(elems: Seq<A>, depth: u8)
    requires
        all_fit(elems, depth),
    ensures
        read_chunks::<A>(chunks(elems, depth), depth) == Ok::<Seq<A::Model>, Error>(
            sequences::models(elems),
        ),
    decreases elems.len(),
{
    if elems.len() == 0 {
        assert(sequences::models(elems) =~= Seq::<A::Model>::empty());
    } else {
        let rest = elems.drop_first();
        let first = chunks(elems, depth)[0];
        let pieces = elems[0].rest_pieces(depth);
        let tail = elems[0].rest_tail(depth);
        assert(elems[0].rest_readable(depth) && layout::fits_rest(pieces, tail));
        layout::law_rest_aligns(pieces, tail);
        elems[0].rest_reads_back(depth, first);
        assert(all_fit(rest, depth)) by {
            assert forall|i: int| 0 <= i < rest.len() implies (#[trigger] rest[i]).rest_readable(
                depth,
            ) && layout::fits_rest(rest[i].rest_pieces(depth), rest[i].rest_tail(depth)) by {
                assert(rest[i] == elems[i + 1]);
            }
        }
        lemma_chunks_read_back(rest, depth);
        assert(chunks(elems, depth).drop_first() =~= chunks(rest, depth));
        assert(seq![elems[0].model()] + sequences::models(rest) =~= sequences::models(elems));
    }
}

/// The elements of a readable collection come back from its bytes.
pub proof fn law_collection_reads_back<A: Dearbitrary>(elems: Seq<A>, depth: u8)
    requires
        collection_readable(elems, depth),
    ensures
        read_collection::<A>(collection_bytes(elems, depth), depth) == Ok::<
            Seq<A::Model>,
            Error,
        >(sequences::models(elems)),
{
    if fixed_size::<A>() {
        let pieces = sequences::seq_pieces(elems, depth);
        let n = A::hint(0).0 as int;
        sequences::lemma_sequence_hint(elems, depth, 0);
        layout::lemma_take_plain(pieces, Seq::empty());
        assert(layout::content(pieces) + Seq::<u8>::empty() =~= layout::content(pieces));
        assert(layout::content(pieces).len() == n * elems.len());
        vstd::arithmetic::div_mod::lemma_div_multiples_vanish(elems.len() as int, n);
        sequences::law_sequence_reads_back(elems, depth, layout::content(pieces));
    } else {
        guard::law_guarded_chunks_come_back(chunks(elems, deeper(depth)), depth);
        lemma_chunks_read_back(elems, deeper(depth));
    }
}

/// Elements without a fixed size stand in a collection as they are, with separators
/// between them and nowhere else, wherever a cut at the separators gives them back.
pub proof fn law_elements_are_joined_as_they_are<A: Dearbitrary>(elems: Seq<A>, depth: u8)
    requires
        !fixed_size::<A>(),
        separator::cut(
            separator::joined(chunks(elems, deeper(depth)), separator::separator(depth)),
            separator::separator(depth),
        ) == chunks(elems, deeper(depth)),
    ensures
        collection_bytes(elems, depth) == separator::joined(
            chunks(elems, deeper(depth)),
            separator::separator(depth),
        ),
{
    guard::law_chunks_that_are_cut_back_stand(
        chunks(elems, deeper(depth)),
        separator::separator(depth),
    );
}

/// The bytes of a collection of elements of a fixed size are those of its parts in a
/// row.
pub proof fn law_fixed_size_collections_append<A: Dearbitrary>(a: Seq<A>, b: Seq<A>, depth: u8)
    requires
        fixed_size::<A>(),
    ensures
        collection_bytes(a + b, depth) == collection_bytes(a, depth) + collection_bytes(b, depth),
{
    let p = sequences::seq_pieces(a, depth);
    let q = sequences::seq_pieces(b, depth);
    sequences::lemma_pieces_in_a_row(a, b, depth);
    sequences::lemma_sequence_hint(a, depth, 0);
    sequences::lemma_sequence_hint(b, depth, 0);
    sequences::lemma_sequence_hint(a + b, depth, 0);
    layout::lemma_pieces_append(p, q);
    layout::lemma_take_plain(p, Seq::empty());
    layout::lemma_take_plain(q, Seq::empty());
    layout::lemma_take_plain(p + q, Seq::empty());
}

/// The bytes of a collection of elements of a fixed size are the same at every
/// depth.
pub proof fn law_fixed_size_collections_ignore_depth<A: Dearbitrary>(
    elems: Seq<A>,
    depth: u8,
    other: u8,
)
    requires
        fixed_size::<A>(),
    ensures
        collection_bytes(elems, depth) == collection_bytes(elems, other),
{
    sequences::lemma_depth_is_ignored(elems, 0, depth, other);
}

/// Collections with the same bytes have the same elements.
pub proof fn law_collection_bytes_tell_apart<A: Dearbitrary>(x: Seq<A>, y: Seq<A>, depth: u8)
    requires
        collection_readable(x, depth),
        collection_readable(y, depth),
        collection_bytes(x, depth) == collection_bytes(y, depth),
    ensures
        sequences::models(x) == sequences::models(y),
{
    law_collection_reads_back(x, depth);
    law_collection_reads_back(y, depth);
}

/// Chunks with one more at the end are joined by one more separator.
pub proof fn lemma_joined_push(c: Seq<Seq<u8>>, x: Seq<u8>, sep: Seq<u8>)
    ensures
        separator::joined(c.push(x), sep) == if c.len() == 0 {
            x
        } else {
            separator::joined(c, sep) + sep + x
        },
    decreases c.len(),
{
    if c.len() > 0 {
        assert(c.push(x).drop_first() =~= c.drop_first().push(x));
        lemma_joined_push(c.drop_first(), x, sep);
        if c.len() == 1 {
            assert(c.drop_first() =~= Seq::<Seq<u8>>::empty());
        } else {
            assert(separator::joined(c.push(x), sep) =~= separator::joined(c, sep) + sep + x);
        }
    }
}

/// Builds the bytes of a collection.
///
/// Elements of a fixed size are written one after the other. Others are joined
/// with separators of `depth`, each serialised in a builder of its own at the next
/// depth, as the reader takes each chunk on its own, and guarded where it would not
/// come out of the join as it is. The depth after 255 is 0.
pub fn build_collection_bytes<A: Dearbitrary>(elems: &[A], depth: u8) -> (bytes: Vec<u8>)
    ensures
        bytes@ == collection_bytes(elems@, depth),
{
    let (lower, upper): (usize, Option<usize>) = A::size_hint(0);
    let is_fixed_size: bool = match upper {
        Some(upper) => upper == lower && lower > 0,
        None => false,
    };
    let mut collection: Structured = Structured::new_with_depth(depth);
    if is_fixed_size {
        sequences::write_elements(elems, &mut collection);
        proof {
            Written::lemma_finished(depth, sequences::seq_pieces(elems@, depth), None);
        }
        return collection.into_bytes();
    }
    let ghost sep = separator::separator(depth);
    let ghost all = guard::all_guarded(chunks(elems@, deeper(depth)), sep);
    let mut i: usize = 0;
    proof {
        assert(all.take(0) =~= Seq::<Seq<u8>>::empty());
    }
    while i < elems.len()
        invariant
            i <= elems@.len(),
            all == guard::all_guarded(chunks(elems@, deeper(depth)), sep),
            sep == separator::separator(depth),
            collection@.depth == depth,
            collection@.sizes == Seq::<nat>::empty(),
            collection@.starts == Seq::<nat>::empty(),
            collection@.content == separator::joined(all.take(i as int), sep),
        decreases elems@.len() - i,
    {
        if i > 0 {
            collection.write_separator();
        }
        let mut elem_builder: Structured = Structured::new_with_depth(depth.wrapping_add(1));
        elems[i].write_take_rest_to(&mut elem_builder);
        proof {
            Written::lemma_finished(
                deeper(depth),
                elems@[i as int].rest_pieces(deeper(depth)),
                elems@[i as int].rest_tail(deeper(depth)),
            );
        }
        let elem_bytes: Vec<u8> = guard::guard_chunk(
            elem_builder.into_bytes(),
            depth,
            i + 1 == elems.len(),
        );
        collection.write_bytes(&elem_bytes);
        proof {
            assert(all.take(i + 1) =~= all.take(i as int).push(elem_bytes@));
            lemma_joined_push(all.take(i as int), elem_bytes@, sep);
            assert(collection@.content =~= separator::joined(all.take(i + 1), sep));
        }
        i = i + 1;
    }
    let ghost written = collection@;
    let bytes: Vec<u8> = collection.into_bytes();
    proof {
        assert(all.take(i as int) =~= all);
        layout::lemma_no_suffixes(
            layout::lefts_for(written.sizes, written.starts, written.content.len()),
            written.content.len(),
            written.exact,
        );
        assert(bytes@ =~= written.content);
    }
    bytes
}

/// Reads the elements of a collection at `depth` from its bytes.
pub fn read_elements_of<A: Arbitrary>(data: &[u8], depth: u8) -> (r: Result<Vec<A>, Error>)
    ensures
        sequences::modelled_elements(r) == read_collection::<A>(data@, depth),
{
    let (lower, upper): (usize, Option<usize>) = A::size_hint(0);
    let is_fixed_size: bool = match upper {
        Some(upper) => upper == lower && lower > 0,
        None => false,
    };
    if is_fixed_size {
        let mut u: Unstructured<'_> = Unstructured::new_with_depth(data, depth);
        return sequences::read_elements::<A>(&mut u, data.len() / lower);
    }
    let cut: Vec<Vec<u8>> = guard::take_apart(data, depth);
    let ghost all = guard::taken_apart(data@, separator::separator(depth), false);
    let ghost whole = read_chunks::<A>(all, deeper(depth));
    let mut out: Vec<A> = Vec::new();
    let mut i: usize = 0;
    proof {
        assert(all.skip(0) =~= all);
        if let Ok(ms) = whole {
            assert(sequences::models(out@) + ms =~= ms);
        }
    }
    while i < cut.len()
        invariant
            i <= cut@.len(),
            !fixed_size::<A>(),
            all == guard::taken_apart(data@, separator::separator(depth), false),
            cut@.len() == all.len(),
            forall|j: int| 0 <= j < cut@.len() ==> (#[trigger] cut@[j])@ == all[j],
            whole == read_chunks::<A>(all, deeper(depth)),
            match read_chunks::<A>(all.skip(i as int), deeper(depth)) {
                Ok(ms) => whole == Ok::<Seq<A::Model>, Error>(sequences::models(out@) + ms),
                Err(e) => whole == Err::<Seq<A::Model>, Error>(e),
            },
        decreases cut@.len() - i,
    {
        let ghost before = sequences::models(out@);
        proof {
            assert(all.skip(i as int).drop_first() =~= all.skip(i + 1));
            assert(all.skip(i as int)[0] == cut@[i as int]@);
        }
        let u: Unstructured<'_> = Unstructured::new_with_depth(&cut[i], depth.wrapping_add(1));
        match A::arbitrary_take_rest(u) {
            Ok(v) => {
                out.push(v);
                proof {
                    assert(sequences::models(out@) =~= before.push(v.model()));
                    if let Ok(ms) = read_chunks::<A>(all.skip(i + 1), deeper(depth)) {
                        assert(before.push(v.model()) + ms =~= before + (seq![v.model()] + ms));
                    }
                }
            },
            Err(e) => {
                return Err(e);
            },
        }
        i = i + 1;
    }
    proof {
        assert(all.skip(i as int) =~= Seq::<Seq<u8>>::empty());
        assert(sequences::models(out@) + Seq::<A::Model>::empty() =~= sequences::models(out@));
    }
    Ok(out)
}

impl<A: Modelled> Modelled for Vec<A> {
    type Model = Seq<A::Model>;

    open spec fn model(&self) -> Seq<A::Model> {
        sequences::models(self@)
    }
}

impl<A: Arbitrary> Arbitrary for Vec<A> {
    open spec fn hint(depth: usize) -> (usize, Option<usize>) {
        (0, None)
    }

    open spec fn read(data: Seq<u8>, depth: u8) -> (Result<Seq<A::Model>, Error>, Seq<u8>) {
        let (n, rest) = suffix::read_size(data);
        (read_collection::<A>(rest.take(n as int), depth), rest.skip(n as int))
    }

    open spec fn read_rest(data: Seq<u8>, depth: u8) -> Result<Seq<A::Model>, Error> {
        read_collection::<A>(data, depth)
    }

    fn arbitrary(u: &mut Unstructured<'_>) -> (r: Result<Self, Error>) {
        let depth: u8 = u.separator_depth();
        let n: usize = u.arbitrary_byte_size();
        match u.bytes(n) {
            Ok(data) => read_elements_of::<A>(data, depth),
            Err(e) => Err(e),
        }
    }

    fn arbitrary_take_rest(u: Unstructured<'_>) -> (r: Result<Self, Error>) {
        let depth: u8 = u.separator_depth();
        read_elements_of::<A>(u.take_rest(), depth)
    }

    fn size_hint(depth: usize) -> (hint: (usize, Option<usize>)) {
        (0, None)
    }
}

impl<A: Dearbitrary> Dearbitrary for Vec<A> {
    open spec fn pieces(&self, depth: u8) -> Seq<Piece> {
        seq![Piece::Counted(collection_bytes(self@, depth))]
    }

    /// The bytes alone: a reader that gives all its data to the collection takes
    /// no size.
    open spec fn rest_pieces(&self, depth: u8) -> Seq<Piece> {
        Seq::empty()
    }

    open spec fn rest_tail(&self, depth: u8) -> Option<Seq<u8>> {
        Some(collection_bytes(self@, depth))
    }

    open spec fn readable(&self, depth: u8) -> bool {
        collection_readable(self@, depth)
    }

    fn write_to(&self, s: &mut Structured) {
        let bytes: Vec<u8> = build_collection_bytes(self.as_slice(), s.separator_depth());
        let byte_size: usize = bytes.len();
        s.write_bytes(&bytes);
        s.write_byte_size(byte_size);
        proof {
            layout::lemma_counted(bytes@);
            assert(s@ =~= old(s)@.with(self.pieces(old(s)@.depth)));
        }
    }

    fn write_take_rest_to(&self, s: &mut Structured) {
        let bytes: Vec<u8> = build_collection_bytes(self.as_slice(), s.separator_depth());
        s.write_rest(&bytes);
        proof {
            assert(old(s)@ =~= old(s)@.with(Seq::empty()));
        }
    }

    proof fn reads_back(&self, depth: u8, data: Seq<u8>) {
        layout::lemma_counted(collection_bytes(self@, depth));
        law_collection_reads_back(self@, depth);
    }

    proof fn rest_reads_back(&self, depth: u8, data: Seq<u8>) {
        law_collection_reads_back(self@, depth);
    }

    proof fn hint_holds(&self, depth: u8, hint_depth: usize) {
    }

    proof fn depth_is_ignored(&self, hint_depth: usize, depth: u8, other: u8) {
    }
}

/// A vector that is written for a reader which takes all the rest, and whose size is
/// registered then, leaves the builder as a vector that is written with its size.
pub proof fn law_size_completes_the_rest<A: Dearbitrary>(v: Vec<A>, s: Written)
    ensures
        s.with(v.rest_pieces(s.depth)).with_tail(v.rest_tail(s.depth)).with_size(
            collection_bytes(v@, s.depth).len(),
        ) == s.with(v.pieces(s.depth)),
{
    assert(s.with(Seq::empty()) =~= s);
    s.law_registered_bytes_are_counted(collection_bytes(v@, s.depth));
}

} // verus!
