//! What readers, builders and values do, over the calls of their functions.

use crate::arbitrary::Arbitrary;
use crate::collections;
use crate::contents;
use crate::dearbitrary::Dearbitrary;
use crate::endian;
use crate::framing;
use crate::guard;
use crate::layout;
use crate::sequences;
use crate::separator;
use crate::size_hint;
use crate::structured::{Structured, Written};
use crate::suffix;
use crate::unstructured::{Error, Unstructured};
use crate::wire;
use vstd::arithmetic::power;
use vstd::prelude::*;

verus! {

/// The bytes of a value are read back as a value with the same model.
pub proof fn law_bytes_read_back<'a, T: Dearbitrary>(
    v: T,
    bytes: Vec<u8>,
    data: &'a [u8],
    start: Unstructured<'a>,
    u: &mut Unstructured<'a>,
    r: Result<T, Error>,
)
    requires
        v.readable(0),
        layout::fits(v.pieces(0)),
        call_ensures(<T as Dearbitrary>::to_arbitrary_bytes, (&v,), bytes),
        data@ == bytes@,
        call_ensures(Unstructured::new, (data,), start),
        *old(u) == start,
        call_ensures(<T as Arbitrary>::arbitrary, (u,), r),
    ensures
        r matches Ok(w) && w.model() == v.model(),
{
    crate::round_trip::law_round_trip(v);
}

/// What is written for a reader that gives all its data to the value is read back as a
/// value with the same model.
pub proof fn law_rest_reads_back<'a, T: Dearbitrary>(
    v: T,
    depth: u8,
    empty: Structured,
    s: &mut Structured,
    bytes: Vec<u8>,
    data: &'a [u8],
    u: Unstructured<'a>,
    r: Result<T, Error>,
)
    requires
        v.rest_readable(depth),
        layout::fits_rest(v.rest_pieces(depth), v.rest_tail(depth)),
        call_ensures(Structured::new_with_depth, (depth,), empty),
        *old(s) == empty,
        call_ensures(<T as Dearbitrary>::write_take_rest_to, (&v, s), ()),
        call_ensures(Structured::into_bytes, (*final(s),), bytes),
        data@ == bytes@,
        call_ensures(Unstructured::new_with_depth, (data, depth), u),
        call_ensures(<T as Arbitrary>::arbitrary_take_rest, (u,), r),
    ensures
        r matches Ok(w) && w.model() == v.model(),
{
    Written::lemma_finished(depth, v.rest_pieces(depth), v.rest_tail(depth));
    layout::law_rest_aligns(v.rest_pieces(depth), v.rest_tail(depth));
    v.rest_reads_back(depth, bytes@);
}

/// A value takes a number of bytes within the bounds of its size hint, where the hint
/// has an upper bound.
pub proof fn law_size_hint_holds<T: Dearbitrary>(
    v: T,
    hint_depth: usize,
    hint: (usize, Option<usize>),
    bytes: Vec<u8>,
)
    requires
        call_ensures(<T as Arbitrary>::size_hint, (hint_depth,), hint),
        call_ensures(<T as Dearbitrary>::to_arbitrary_bytes, (&v,), bytes),
    ensures
        hint.1 matches Some(upper) ==> hint.0 <= bytes@.len() <= upper,
{
    let p = v.pieces(0);
    v.hint_holds(0, hint_depth);
    if hint.1 is Some {
        layout::lemma_take_plain(p, Seq::empty());
    }
}

/// A reader of data knows how much there is, and gives it all.
pub proof fn law_reader_of_data<'a>(
    data: &'a [u8],
    depth: u8,
    top: Unstructured<'a>,
    u: Unstructured<'a>,
    len: usize,
    empty: bool,
    at: u8,
    rest: &'a [u8],
)
    requires
        call_ensures(Unstructured::new, (data,), top),
        call_ensures(Unstructured::new_with_depth, (data, depth), u),
        call_ensures(Unstructured::len, (&u,), len),
        call_ensures(Unstructured::is_empty, (&u,), empty),
        call_ensures(Unstructured::separator_depth, (&u,), at),
        call_ensures(Unstructured::take_rest, (u,), rest),
    ensures
        top@ == data@,
        top.depth() == 0,
        u@ == data@,
        len == data@.len(),
        empty <==> data@.len() == 0,
        at == depth == u.depth(),
        rest@ == data@,
{
}

/// Bytes are taken from the front, all that were asked for or none.
pub proof fn law_bytes_are_taken_from_the_front<'a>(
    u: &mut Unstructured<'a>,
    n: usize,
    r: Result<&'a [u8], Error>,
)
    requires
        call_ensures(Unstructured::bytes, (u, n), r),
    ensures
        final(u).depth() == old(u).depth(),
        r is Ok <==> n <= old(u)@.len(),
        match r {
            Ok(b) => b@.len() == n && b@ + final(u)@ == old(u)@,
            Err(e) => e == Error::NotEnoughData && final(u)@ == old(u)@,
        },
{
    if let Ok(b) = r {
        assert(b@ + final(u)@ =~= old(u)@);
    }
}

/// A peek shows the bytes at the front.
pub proof fn law_peek_shows_the_front<'a>(u: Unstructured<'a>, n: usize, b: &'a [u8])
    requires
        n <= u@.len(),
        call_ensures(Unstructured::peek_bytes, (&u, n), b),
    ensures
        b@.len() == n,
        forall|i: int| 0 <= i < n ==> #[trigger] b@[i] == u@[i],
{
}

/// A little-endian number has the bytes at the front as its digits, zeros for those
/// that are missing, and no others.
pub proof fn law_number_is_taken_from_the_front<'a>(
    u: &mut Unstructured<'a>,
    n: usize,
    v: u128,
    i: nat,
)
    requires
        n <= 16,
        call_ensures(Unstructured::uint_le, (u, n), v),
    ensures
        final(u).depth() == old(u).depth(),
        final(u)@ == old(u)@.skip(
            if n <= old(u)@.len() {
                n as int
            } else {
                old(u)@.len() as int
            },
        ),
        (v as int / power::pow(256, i)) % 256 == if i < n && i < old(u)@.len() {
            old(u)@[i as int] as int
        } else {
            0
        },
{
    let m = if n <= old(u)@.len() {
        n as int
    } else {
        old(u)@.len() as int
    };
    wire::law_digits_are_bytes(old(u)@.take(m), i);
}

/// A byte size is taken from the end: as many bytes as count all that stands before
/// them, the lowest digit last. It never exceeds what is left then.
pub proof fn law_size_is_taken_from_the_end<'a>(u: &mut Unstructured<'a>, n: usize)
    requires
        call_ensures(Unstructured::arbitrary_byte_size, (u,), n),
    ensures
        ({
            let w = old(u)@.len() - final(u)@.len();
            let stored = endian::be_value(old(u)@.skip(final(u)@.len() as int));
            &&& final(u).depth() == old(u).depth()
            &&& w == suffix::suffix_width(old(u)@.len())
            &&& final(u)@ == old(u)@.take(final(u)@.len() as int)
            &&& n <= final(u)@.len()
            &&& stored <= final(u)@.len() ==> n == stored
            &&& stored > final(u)@.len() ==> (stored - n) % (final(u)@.len() as int + 1) == 0
        }),
{
    framing::law_size_is_read_from_the_end(old(u)@);
    suffix::lemma_suffix_width(old(u)@.len());
    let max = old(u)@.len() - suffix::suffix_width(old(u)@.len());
    assert(final(u)@.len() == max);
}

/// A new builder is empty.
pub proof fn law_new_builder_is_empty(
    depth: u8,
    top: Structured,
    same: Structured,
    s: Structured,
    len: usize,
    at: u8,
)
    requires
        call_ensures(Structured::new, (), top),
        call_ensures(<Structured as Default>::default, (), same),
        call_ensures(Structured::new_with_depth, (depth,), s),
        call_ensures(Structured::content_len, (&s,), len),
        call_ensures(Structured::separator_depth, (&s,), at),
    ensures
        top@ == same@,
        top@.depth == 0,
        top@.content.len() == 0 && top@.sizes.len() == 0 && !top@.exact,
        s@.content.len() == 0 && s@.sizes.len() == 0 && !s@.exact,
        len == 0,
        at == depth,
{
}

/// A builder tells how many bytes it holds, and at which depth.
pub proof fn law_builder_tells_what_it_holds(s: Structured, len: usize, at: u8)
    requires
        call_ensures(Structured::content_len, (&s,), len),
        call_ensures(Structured::separator_depth, (&s,), at),
    ensures
        len == s@.content.len(),
        at == s@.depth,
{
}

/// Bytes that are written end the content. Only bytes for a reader that takes all the
/// rest are marked as such.
pub proof fn law_bytes_end_the_content(
    s: &mut Structured,
    t: &mut Structured,
    bytes: &[u8],
)
    requires
        call_ensures(Structured::write_bytes, (s, bytes), ()),
        call_ensures(Structured::write_rest, (t, bytes), ()),
    ensures
        final(s)@.content == old(s)@.content + bytes@,
        final(s)@.sizes == old(s)@.sizes,
        final(s)@.starts == old(s)@.starts,
        final(s)@.depth == old(s)@.depth,
        final(s)@.exact == old(s)@.exact,
        final(t)@.content == old(t)@.content + bytes@,
        final(t)@.sizes == old(t)@.sizes,
        final(t)@.starts == old(t)@.starts,
        final(t)@.depth == old(t)@.depth,
        final(t)@.exact,
{
}

/// A separator that is written ends in the builder's depth.
pub proof fn law_separator_ends_the_content(s: &mut Structured)
    requires
        call_ensures(Structured::write_separator, (s,), ()),
    ensures
        final(s)@.content == old(s)@.content + seq![0xFEu8, 0xED, 0xFA, old(s)@.depth],
        final(s)@.sizes == old(s)@.sizes,
        final(s)@.depth == old(s)@.depth,
{
}

/// A collection is entered one level deeper, and left at the level it was entered from,
/// with all that was written.
pub proof fn law_collection_is_left_where_it_was_entered(
    s: &mut Structured,
    prev: u8,
    t: &mut Structured,
)
    requires
        old(s)@.depth < u8::MAX,
        call_ensures(Structured::enter_collection, (s,), prev),
        call_ensures(Structured::exit_collection, (t, prev), ()),
    ensures
        prev == old(s)@.depth,
        final(s)@.depth == old(s)@.depth + 1,
        final(s)@.content == old(s)@.content,
        final(s)@.sizes == old(s)@.sizes,
        final(t)@.depth == old(s)@.depth,
        final(t)@.content == old(t)@.content,
        final(t)@.sizes == old(t)@.sizes,
{
}

/// A size that is registered is the last one, and counts the bytes that end the
/// content.
pub proof fn law_size_is_registered_last(s: &mut Structured, size: usize)
    requires
        call_ensures(Structured::write_byte_size, (s, size), ()),
    ensures
        final(s)@.content == old(s)@.content,
        final(s)@.sizes == old(s)@.sizes.push(size as nat),
        size <= old(s)@.content.len() ==> final(s)@.starts == old(s)@.starts.push(
            (old(s)@.content.len() - size) as nat,
        ),
        final(s)@.depth == old(s)@.depth,
        !final(s)@.exact,
{
}

/// A finished buffer begins with the content. A suffix follows for each size, of eight
/// bytes at most, and nothing where there are no sizes.
pub proof fn law_content_begins_the_buffer(s: Structured, bytes: Vec<u8>)
    requires
        s@.sizes.len() > 0 ==> s@.content.len() + 8 * s@.sizes.len() <= usize::MAX,
        call_ensures(Structured::into_bytes, (s,), bytes),
    ensures
        bytes@.len() >= s@.content.len(),
        bytes@.take(s@.content.len() as int) == s@.content,
        bytes@.len() <= s@.content.len() + 8 * s@.sizes.len(),
        s@.sizes.len() == 0 ==> bytes@ == s@.content,
{
    layout::law_finished_shape(s@.content, s@.sizes, s@.starts, s@.exact);
    assert(bytes@.take(s@.content.len() as int) =~= s@.content);
}

/// Bounds in a row add up; bounds of one of two are the outer ones; bounds of `n` in a
/// row are `n` times as large. Lower bounds stop at the largest number; upper bounds
/// that are out of range are none.
pub proof fn law_hints_combine(
    lhs: (usize, Option<usize>),
    rhs: (usize, Option<usize>),
    n: usize,
    both: (usize, Option<usize>),
    either: (usize, Option<usize>),
    row: (usize, Option<usize>),
)
    requires
        call_ensures(size_hint::and, (lhs, rhs), both),
        call_ensures(size_hint::or, (lhs, rhs), either),
        call_ensures(size_hint::times, (lhs, n), row),
    ensures
        both.0 == if lhs.0 + rhs.0 <= usize::MAX {
            lhs.0 + rhs.0
        } else {
            usize::MAX as int
        },
        both.1 is Some <==> lhs.1 is Some && rhs.1 is Some && lhs.1->0 + rhs.1->0 <= usize::MAX,
        both.1 is Some ==> both.1->0 == lhs.1->0 + rhs.1->0,
        either.0 <= lhs.0 && either.0 <= rhs.0 && (either.0 == lhs.0 || either.0 == rhs.0),
        either.1 is Some <==> lhs.1 is Some && rhs.1 is Some,
        either.1 is Some ==> either.1->0 >= lhs.1->0 && either.1->0 >= rhs.1->0 && (either.1->0
            == lhs.1->0 || either.1->0 == rhs.1->0),
        row.0 == if lhs.0 * n <= usize::MAX {
            lhs.0 * n
        } else {
            usize::MAX as int
        },
        row.1 is Some <==> lhs.1 is Some && lhs.1->0 * n <= usize::MAX,
        row.1 is Some ==> row.1->0 == lhs.1->0 * n,
{
}

/// A size that a buffer has room for is stored in the fewest bytes that do, the lowest
/// digit last; a larger one modulo one more than the room.
pub proof fn law_size_is_encoded(
    size: usize,
    len: usize,
    width: usize,
    bytes: Vec<u8>,
    i: nat,
)
    requires
        call_ensures(suffix::width_for, (len,), width),
        call_ensures(suffix::encode_byte_size, (size, len), bytes),
    ensures
        bytes@.len() == width <= len,
        width == 0 <==> len == 0,
        width == 1 <==> len > 0 && len - 1 < power::pow(256, 1),
        width == 2 <==> len - 1 >= power::pow(256, 1) && len - 2 < power::pow(256, 2),
        width == 4 <==> len - 2 >= power::pow(256, 2) && len - 4 < power::pow(256, 4),
        width == 8 <==> len - 4 >= power::pow(256, 4),
        i < width ==> bytes@[width - 1 - i] == ((if size <= len - width {
            size as int
        } else {
            size as int % (len - width + 1)
        }) / power::pow(256, i)) % 256,
{
    endian::lemma_pow256_widths();
    wire::lemma_power(1);
    wire::lemma_power(2);
    wire::lemma_power(4);
    suffix::lemma_suffix_width(len as nat);
    suffix::lemma_size_suffix_len(size as nat, len as nat);
    if i < width {
        framing::law_suffix_holds_the_size(size as nat, len as nat, i);
    }
}

/// Numbers become their digits and digits their numbers, in either order.
pub proof fn law_numbers_become_digits(
    v: u128,
    w: u64,
    n: usize,
    low: Vec<u8>,
    high: Vec<u8>,
    i: nat,
)
    requires
        call_ensures(endian::to_le, (v, n), low),
        call_ensures(endian::to_be, (w, n), high),
    ensures
        low@.len() == n,
        high@.len() == n,
        i < n ==> low@[i as int] == (v as int / power::pow(256, i)) % 256,
        i < n ==> high@[n - 1 - i] == (w as int / power::pow(256, i)) % 256,
{
    endian::lemma_bytes_len(v as int, n as nat);
    endian::lemma_bytes_len(w as int, n as nat);
    if i < n {
        wire::law_bytes_are_digits(v as int, n as nat, i);
        wire::law_bytes_are_digits(w as int, n as nat, i);
    }
}

/// Digits become the number that has them.
pub proof fn law_digits_become_numbers(low: &[u8], high: &[u8], v: u128, w: u64, i: nat)
    requires
        low@.len() <= 16,
        high@.len() <= 8,
        call_ensures(endian::from_le, (low,), v),
        call_ensures(endian::from_be, (high,), w),
    ensures
        (v as int / power::pow(256, i)) % 256 == if i < low@.len() {
            low@[i as int] as int
        } else {
            0
        },
        (w as int / power::pow(256, i)) % 256 == if i < high@.len() {
            high@[high@.len() - 1 - i] as int
        } else {
            0
        },
{
    wire::law_digits_are_bytes(low@, i);
    wire::law_digits_are_big_endian_bytes(high@, i);
}

/// A separator is four bytes, the last of which is the depth.
pub proof fn law_separator_of_a_depth(depth: u8, sep: [u8; 4])
    requires
        call_ensures(separator::separator_for_depth, (depth,), sep),
    ensures
        sep@ == seq![0xFEu8, 0xED, 0xFA, depth],
{
}

/// A chunk with bytes in which no separator begins stands as it is. Any other chunk is
/// marked by a separator in front of it.
pub proof fn law_chunk_is_guarded(chunk: Vec<u8>, depth: u8, last: bool, r: Vec<u8>)
    requires
        call_ensures(guard::guard_chunk, (chunk, depth, last), r),
    ensures
        contents::plain_chunk(chunk@) ==> r@ == chunk@,
        r@ == chunk@ || (r@.len() > 4 && r@.take(4) == seq![0xFEu8, 0xED, 0xFA, depth]),
        r@.len() > 0,
{
    let sep = separator::separator(depth);
    framing::law_other_chunks_are_marked(chunk@, depth, last);
    if contents::plain_chunk(chunk@) {
        separator::lemma_free_of_separators(chunk@, depth, 0);
    }
    assert(sep =~= seq![0xFEu8, 0xED, 0xFA, depth]);
}

/// A collection of two chunks that stand as they are is taken apart at the separator
/// between them; one chunk, and none, are what they are.
pub proof fn law_chunks_are_taken_apart(
    a: Seq<u8>,
    b: Seq<u8>,
    depth: u8,
    none: &[u8],
    one: &[u8],
    two: &[u8],
    r0: Vec<Vec<u8>>,
    r1: Vec<Vec<u8>>,
    r2: Vec<Vec<u8>>,
)
    requires
        contents::plain_chunk(a),
        contents::plain_chunk(b),
        none@.len() == 0,
        one@ == a,
        two@ == a + seq![0xFEu8, 0xED, 0xFA, depth] + b,
        call_ensures(guard::take_apart, (none, depth), r0),
        call_ensures(guard::take_apart, (one, depth), r1),
        call_ensures(guard::take_apart, (two, depth), r2),
    ensures
        r0@.len() == 0,
        r1@.len() == 1 && r1@[0]@ == a,
        r2@.len() == 2 && r2@[0]@ == a && r2@[1]@ == b,
{
    let sep = separator::separator(depth);
    assert(sep =~= seq![0xFEu8, 0xED, 0xFA, depth]);
    separator::lemma_free_of_separators(a, depth, 0);
    separator::lemma_free_of_separators(b, depth, 0);
    separator::lemma_find_prefix(a, sep, b, 0);
    let all = a + sep + b;
    assert(all.take(a.len() as int) =~= a);
    assert(all.skip((a.len() + sep.len()) as int) =~= b);
    assert(guard::taken_apart(b, sep, false) =~= seq![b]);
    assert(guard::taken_apart(a, sep, false) =~= seq![a]);
    assert(guard::taken_apart(all, sep, false) =~= seq![a] + seq![b]);
}

/// The elements of a collection come back from the bytes that were built of them.
pub proof fn law_built_collections_are_read<A: Dearbitrary>(
    elems: &[A],
    depth: u8,
    bytes: Vec<u8>,
    data: &[u8],
    r: Result<Vec<A>, Error>,
)
    requires
        collections::collection_readable(elems@, depth),
        call_ensures(collections::build_collection_bytes::<A>, (elems, depth), bytes),
        data@ == bytes@,
        call_ensures(collections::read_elements_of::<A>, (data, depth), r),
    ensures
        match r {
            Ok(v) => {
                &&& v@.len() == elems@.len()
                &&& forall|i: int|
                    0 <= i < v@.len() ==> (#[trigger] v@[i]).model() == elems@[i].model()
            },
            Err(_) => false,
        },
{
    collections::law_collection_reads_back(elems@, depth);
    if let Ok(v) = r {
        let a = sequences::models(v@);
        let b = sequences::models(elems@);
        assert(a == b);
        assert(a.len() == v@.len() && b.len() == elems@.len());
        assert forall|i: int| 0 <= i < v@.len() implies (#[trigger] v@[i]).model()
            == elems@[i].model() by {
            assert(a[i] == b[i]);
        }
    }
}

/// A vector is written as the bytes that are built of its elements, and read from bytes
/// as its elements are.
pub proof fn law_vectors_are_built_collections<A: Dearbitrary>(
    v: Vec<A>,
    elems: &[A],
    depth: u8,
    bytes: Vec<u8>,
    data: &[u8],
    r: Result<Vec<A>, Error>,
)
    requires
        elems@ == v@,
        call_ensures(collections::build_collection_bytes::<A>, (elems, depth), bytes),
        call_ensures(collections::read_elements_of::<A>, (data, depth), r),
    ensures
        v.rest_tail(depth) == Some(bytes@),
        match r {
            Ok(w) => <Vec<A>>::read_rest(data@, depth) == Ok::<Seq<A::Model>, Error>(
                w@.map_values(|x: A| x.model()),
            ),
            Err(e) => <Vec<A>>::read_rest(data@, depth) == Err::<Seq<A::Model>, Error>(e),
        },
{
    if let Ok(w) = r {
        assert(sequences::models(w@) =~= w@.map_values(|x: A| x.model()));
    }
}

/// Elements in a row are read and written as the array of as many.
pub proof fn law_elements_are_those_of_an_array<'a, A: Dearbitrary, const N: usize>(
    u: &mut Unstructured<'a>,
    r: Result<Vec<A>, Error>,
    a: [A; N],
    elems: &[A],
    s: &mut Structured,
)
    requires
        call_ensures(sequences::read_elements::<A>, (u, N), r),
        elems@ == a@,
        call_ensures(sequences::write_elements::<A>, (elems, s), ()),
    ensures
        final(u).depth() == old(u).depth(),
        final(u)@ == <[A; N]>::read(old(u)@, old(u).depth()).1,
        match r {
            Ok(v) => <[A; N]>::read(old(u)@, old(u).depth()).0 == Ok::<Seq<A::Model>, Error>(
                v@.map_values(|x: A| x.model()),
            ),
            Err(e) => <[A; N]>::read(old(u)@, old(u).depth()).0 == Err::<Seq<A::Model>, Error>(e),
        },
        final(s)@ == old(s)@.with(a.pieces(old(s)@.depth)),
{
    if let Ok(v) = r {
        assert(sequences::models(v@) =~= v@.map_values(|x: A| x.model()));
    }
}

} // verus!
