//! Arrays, vectors and strings: what their bytes are, and what any bytes are read as.

use crate::arbitrary::{Arbitrary, Modelled};
use crate::collections;
use crate::dearbitrary::Dearbitrary;
use crate::guard;
use crate::layout;
use crate::layout::Piece;
use crate::separator;
use crate::sequences;
use crate::strings;
use crate::suffix;
use crate::unstructured::Error;
use vstd::prelude::*;
use vstd::utf8;

verus! {

proof fn lemma_pieces_are_flat<A: Dearbitrary>(elems: Seq<A>, depth: u8)
    ensures
        sequences::seq_pieces(elems, depth) == Seq::new(
            elems.len(),
            |i: int| elems[i].pieces(depth),
        ).flatten(),
    decreases elems.len(),
{
    let all = Seq::new(elems.len(), |i: int| elems[i].pieces(depth));
    if elems.len() > 0 {
        let rest = elems.drop_first();
        lemma_pieces_are_flat(rest, depth);
        assert(all.drop_first() =~= Seq::new(rest.len(), |i: int| rest[i].pieces(depth)));
        assert(all.flatten() =~= all[0] + all.drop_first().flatten());
    } else {
        assert(all.flatten() =~= Seq::<Piece>::empty());
    }
}

/// The pieces of an array are those of its elements, in order.
pub proof fn law_array_is_its_elements<A: Dearbitrary, const N: usize>(a: [A; N], depth: u8)
    ensures
        a.model().len() == N,
        forall|i: int| 0 <= i < N ==> #[trigger] a.model()[i] == a@[i].model(),
        a.pieces(depth) == Seq::new(N as nat, |i: int| a@[i].pieces(depth)).flatten(),
        a.readable(depth) <==> forall|i: int| 0 <= i < N ==> (#[trigger] a@[i]).readable(depth),
        a.rest_readable(depth) == a.readable(depth),
        a.rest_pieces(depth) == a.pieces(depth),
        a.rest_tail(depth) is None,
{
    lemma_pieces_are_flat(a@, depth);
}

/// The bounds for an array are `N` times those for an element. A product that is out
/// of range is `usize::MAX` below and no bound above.
pub proof fn law_array_hint<A: Arbitrary, const N: usize>(hint_depth: usize)
    ensures
        ({
            let h = <[A; N]>::hint(hint_depth);
            let one = A::hint(hint_depth);
            &&& one.0 * N <= usize::MAX ==> h.0 == one.0 * N
            &&& one.0 * N > usize::MAX ==> h.0 == usize::MAX
            &&& h.1 is Some <==> N == 0 || (one.1 is Some && one.1->0 * N <= usize::MAX)
            &&& N > 0 && h.1 is Some ==> h.1->0 == one.1->0 * N
            &&& N == 0 ==> h == (0usize, Some(0usize))
        }),
{
    let one = A::hint(hint_depth);
    if N == 0 {
        assert(one.0 * N == 0) by (nonlinear_arith)
            requires
                N == 0,
        ;
    }
}

proof fn lemma_read_in_a_row<A: Arbitrary>(n: nat, depth: u8, rests: Seq<Seq<u8>>, k: nat)
    requires
        rests.len() == n + 1,
        forall|i: int|
            0 <= i < n ==> rests[i + 1] == (#[trigger] A::read(rests[i], depth)).1,
    ensures
        (forall|i: int| 0 <= i < n ==> (#[trigger] A::read(rests[i], depth)).0 is Ok)
            ==> sequences::read_n::<A>(n, rests[0], depth) == (
            Ok::<Seq<A::Model>, Error>(
                Seq::new(n, |i: int| A::read(rests[i], depth).0->Ok_0),
            ),
            rests[n as int],
        ),
        k < n && (forall|i: int| 0 <= i < k ==> (#[trigger] A::read(rests[i], depth)).0 is Ok)
            && A::read(rests[k as int], depth).0 is Err ==> sequences::read_n::<A>(
            n,
            rests[0],
            depth,
        ) == (
            Err::<Seq<A::Model>, Error>(A::read(rests[k as int], depth).0->Err_0),
            rests[k as int + 1],
        ),
    decreases n,
{
    let values = Seq::new(n, |i: int| A::read(rests[i], depth).0->Ok_0);
    if n == 0 {
        assert(values =~= Seq::<A::Model>::empty());
    } else {
        let m = (n - 1) as nat;
        let after = rests.drop_first();
        let j = if k > 0 {
            (k - 1) as nat
        } else {
            0
        };
        assert forall|i: int| 0 <= i < m implies after[i + 1] == (#[trigger] A::read(
            after[i],
            depth,
        )).1 by {
            assert(after[i] == rests[i + 1]);
            assert(A::read(rests[i + 1], depth).1 == rests[i + 1 + 1]);
        }
        lemma_read_in_a_row::<A>(m, depth, after, j);
        assert(rests[1] == A::read(rests[0], depth).1);
        if forall|i: int| 0 <= i < n ==> (#[trigger] A::read(rests[i], depth)).0 is Ok {
            assert forall|i: int| 0 <= i < m implies (#[trigger] A::read(
                after[i],
                depth,
            )).0 is Ok by {
                assert(after[i] == rests[i + 1]);
            }
            let others = Seq::new(m, |i: int| A::read(after[i], depth).0->Ok_0);
            assert(A::read(rests[0], depth).0 is Ok);
            assert(values =~= seq![values[0]] + others);
        }
        if k < n && (forall|i: int| 0 <= i < k ==> (#[trigger] A::read(rests[i], depth)).0 is Ok)
            && A::read(rests[k as int], depth).0 is Err {
            if k > 0 {
                assert forall|i: int| 0 <= i < j implies (#[trigger] A::read(
                    after[i],
                    depth,
                )).0 is Ok by {
                    assert(after[i] == rests[i + 1]);
                }
                assert(A::read(rests[0], depth).0 is Ok);
                assert(after[j as int] == rests[k as int]);
                assert(after[j as int + 1] == rests[k as int + 1]);
            }
        }
    }
}

/// An array is read element by element, each from what the one before it left; the
/// first that fails, at `k`, ends it.
pub proof fn law_array_is_read_in_a_row<A: Arbitrary, const N: usize>(
    depth: u8,
    rests: Seq<Seq<u8>>,
    k: nat,
)
    requires
        rests.len() == N + 1,
        forall|i: int|
            0 <= i < N ==> rests[i + 1] == (#[trigger] A::read(rests[i], depth)).1,
    ensures
        (forall|i: int| 0 <= i < N ==> (#[trigger] A::read(rests[i], depth)).0 is Ok)
            ==> <[A; N]>::read(rests[0], depth) == (
            Ok::<Seq<A::Model>, Error>(
                Seq::new(N as nat, |i: int| A::read(rests[i], depth).0->Ok_0),
            ),
            rests[N as int],
        ),
        k < N && (forall|i: int| 0 <= i < k ==> (#[trigger] A::read(rests[i], depth)).0 is Ok)
            && A::read(rests[k as int], depth).0 is Err ==> <[A; N]>::read(rests[0], depth) == (
            Err::<Seq<A::Model>, Error>(A::read(rests[k as int], depth).0->Err_0),
            rests[k as int + 1],
        ),
        <[A; N]>::read_rest(rests[0], depth) == <[A; N]>::read(rests[0], depth).0,
{
    lemma_read_in_a_row::<A>(N as nat, depth, rests, k);
}

/// A vector is counted bytes. A reader that gives all its data to the vector takes the
/// same bytes, without the count. The hint knows nothing.
pub proof fn law_vector_is_counted<A: Dearbitrary>(v: Vec<A>, depth: u8, hint_depth: usize)
    ensures
        v.model().len() == v@.len(),
        forall|i: int| 0 <= i < v@.len() ==> #[trigger] v.model()[i] == v@[i].model(),
        v.rest_pieces(depth).len() == 0,
        v.rest_tail(depth) matches Some(b) && v.pieces(depth) == seq![Piece::Counted(b)],
        v.rest_readable(depth) == v.readable(depth),
        <Vec<A>>::hint(hint_depth) == (0usize, None::<usize>),
{
}

/// A vector is read from as many bytes as the size suffix says, as if they were all
/// the data.
pub proof fn law_vector_is_read_by_its_count<A: Arbitrary>(data: Seq<u8>, depth: u8)
    ensures
        ({
            let (n, rest) = suffix::read_size(data);
            <Vec<A>>::read(data, depth) == (
                <Vec<A>>::read_rest(rest.take(n as int), depth),
                rest.skip(n as int),
            )
        }),
{
}

/// Elements that all take `size` bytes stand in a row, at every depth.
pub proof fn law_vector_of_fixed_size<A: Dearbitrary>(v: Vec<A>, depth: u8, size: usize)
    requires
        A::hint(0) == (size, Some(size)),
        size > 0,
    ensures
        v.rest_tail(depth) == Some(
            Seq::new(v@.len(), |i: int| layout::content(v@[i].pieces(depth))).flatten(),
        ),
        v.rest_tail(depth)->0.len() == size * v@.len(),
        v.readable(depth) <==> forall|i: int|
            0 <= i < v@.len() ==> (#[trigger] v@[i]).readable(depth),
{
    let p = sequences::seq_pieces(v@, depth);
    sequences::lemma_sequence_hint(v@, depth, 0);
    layout::lemma_take_plain(p, Seq::empty());
    lemma_content_is_flat(v@, depth);
}

proof fn lemma_content_is_flat<A: Dearbitrary>(elems: Seq<A>, depth: u8)
    ensures
        layout::content(sequences::seq_pieces(elems, depth)) == Seq::new(
            elems.len(),
            |i: int| layout::content(elems[i].pieces(depth)),
        ).flatten(),
    decreases elems.len(),
{
    let all = Seq::new(elems.len(), |i: int| layout::content(elems[i].pieces(depth)));
    if elems.len() > 0 {
        let rest = elems.drop_first();
        lemma_content_is_flat(rest, depth);
        layout::lemma_pieces_append(elems[0].pieces(depth), sequences::seq_pieces(rest, depth));
        assert(all.drop_first() =~= Seq::new(
            rest.len(),
            |i: int| layout::content(rest[i].pieces(depth)),
        ));
        assert(all.flatten() =~= all[0] + all.drop_first().flatten());
    } else {
        assert(all.flatten() =~= Seq::<u8>::empty());
    }
}

/// As many elements of `size` bytes are read as the data has room for, `n`: each from
/// what the one before it left; the first that fails, at `k`, ends it.
pub proof fn law_vector_of_fixed_size_is_read_in_a_row<A: Arbitrary>(
    depth: u8,
    size: usize,
    n: nat,
    rests: Seq<Seq<u8>>,
    k: nat,
)
    requires
        A::hint(0) == (size, Some(size)),
        size > 0,
        rests.len() == n + 1,
        n * size <= rests[0].len() < (n + 1) * size,
        forall|i: int|
            0 <= i < n ==> rests[i + 1] == (#[trigger] A::read(rests[i], depth)).1,
    ensures
        (forall|i: int| 0 <= i < n ==> (#[trigger] A::read(rests[i], depth)).0 is Ok)
            ==> <Vec<A>>::read_rest(rests[0], depth) == Ok::<Seq<A::Model>, Error>(
            Seq::new(n, |i: int| A::read(rests[i], depth).0->Ok_0),
        ),
        k < n && (forall|i: int| 0 <= i < k ==> (#[trigger] A::read(rests[i], depth)).0 is Ok)
            && A::read(rests[k as int], depth).0 is Err ==> <Vec<A>>::read_rest(rests[0], depth)
            == Err::<Seq<A::Model>, Error>(A::read(rests[k as int], depth).0->Err_0),
{
    let len = rests[0].len() as int;
    let s = size as int;
    assert((n + 1) * s == n * s + s) by (nonlinear_arith);
    vstd::arithmetic::div_mod::lemma_fundamental_div_mod_converse(len, s, n as int, len - n * s);
    lemma_read_in_a_row::<A>(n, depth, rests, k);
}

/// Whether a chunk stands between separators as it is: it has bytes, and no separator
/// begins in them.
pub open spec fn plain_chunk(c: Seq<u8>) -> bool {
    c.len() > 0 && forall|i: int| 0 <= i < c.len() ==> #[trigger] c[i] != 0xFE
}

/// The bytes that an element of a collection at `depth` is finished as.
pub open spec fn element_bytes<A: Dearbitrary>(x: A, depth: u8) -> Seq<u8> {
    let inner = ((depth + 1) % 256) as u8;
    layout::laid_out_rest(x.rest_pieces(inner), x.rest_tail(inner))
}

proof fn lemma_plain_chunks_stand<A: Dearbitrary>(elems: Seq<A>, depth: u8)
    requires
        forall|i: int|
            0 <= i < elems.len() ==> plain_chunk(#[trigger] element_bytes(elems[i], depth)),
    ensures
        guard::all_guarded(
            collections::chunks(elems, collections::deeper(depth)),
            separator::separator(depth),
        ) == Seq::new(elems.len(), |i: int| element_bytes(elems[i], depth)),
{
    let sep = separator::separator(depth);
    let chunks = collections::chunks(elems, collections::deeper(depth));
    let bytes = Seq::new(elems.len(), |i: int| element_bytes(elems[i], depth));
    assert forall|i: int| 0 <= i < elems.len() implies #[trigger] guard::all_guarded(chunks, sep)[i]
        == bytes[i] by {
        assert(chunks[i] == element_bytes(elems[i], depth));
        separator::lemma_free_of_separators(chunks[i], depth, 0);
    }
    assert(guard::all_guarded(chunks, sep) =~= bytes);
}

/// Elements without a fixed size are finished each on its own, one level deeper, and
/// stand with a separator between each and the next: four bytes, the last of which is
/// the depth.
pub proof fn law_vector_of_chunks<A: Dearbitrary>(v: Vec<A>, w: Vec<A>, x: A, depth: u8)
    requires
        A::hint(0).1 != Some(A::hint(0).0) || A::hint(0).0 == 0,
        w@ == v@.push(x),
        forall|i: int|
            0 <= i < v@.len() ==> plain_chunk(#[trigger] element_bytes(v@[i], depth)),
        plain_chunk(element_bytes(x, depth)),
    ensures
        v@.len() == 0 ==> v.rest_tail(depth) == Some(Seq::<u8>::empty()),
        w.rest_tail(depth) == Some(
            if v@.len() == 0 {
                element_bytes(x, depth)
            } else {
                v.rest_tail(depth)->0 + seq![0xFEu8, 0xED, 0xFA, depth] + element_bytes(x, depth)
            },
        ),
{
    let sep = separator::separator(depth);
    assert(sep =~= seq![0xFEu8, 0xED, 0xFA, depth]);
    assert forall|i: int| 0 <= i < w@.len() implies plain_chunk(
        #[trigger] element_bytes(w@[i], depth),
    ) by {
        if i < v@.len() {
            assert(w@[i] == v@[i]);
        } else {
            assert(w@[i] == x);
        }
    }
    lemma_plain_chunks_stand(v@, depth);
    lemma_plain_chunks_stand(w@, depth);
    let before = Seq::new(v@.len(), |i: int| element_bytes(v@[i], depth));
    let after = Seq::new(w@.len(), |i: int| element_bytes(w@[i], depth));
    assert(after =~= before.push(element_bytes(x, depth)));
    collections::lemma_joined_push(before, element_bytes(x, depth), sep);
    assert(separator::joined(Seq::<Seq<u8>>::empty(), sep) =~= Seq::<u8>::empty());
}

/// What a vector of chunks has to meet to be read back: each element what it has to
/// meet, and that a machine word counts the bytes of each that has sizes of its own.
pub proof fn law_vector_of_chunks_is_readable<A: Dearbitrary>(v: Vec<A>, depth: u8)
    requires
        A::hint(0).1 != Some(A::hint(0).0) || A::hint(0).0 == 0,
    ensures
        v.readable(depth) <==> forall|i: int|
            0 <= i < v@.len() ==> {
                let inner = ((depth + 1) % 256) as u8;
                let p = (#[trigger] v@[i]).rest_pieces(inner);
                let t = match v@[i].rest_tail(inner) {
                    Some(b) => b.len(),
                    None => 0,
                };
                &&& v@[i].rest_readable(inner)
                &&& layout::sizes(p).len() == 0 || layout::content(p).len() + t + 8
                    * layout::sizes(p).len() <= usize::MAX
            },
{
    let inner = collections::deeper(depth);
    assert(inner == ((depth + 1) % 256) as u8);
    if v.readable(depth) {
        assert forall|i: int| 0 <= i < v@.len() implies (#[trigger] v@[i]).rest_readable(inner)
            && layout::fits_rest(v@[i].rest_pieces(inner), v@[i].rest_tail(inner)) by {
        }
    }
}

/// No bytes are no elements. Bytes without a separator are one element, which is given
/// them all, one level deeper; with a separator behind them, what follows it is the
/// rest of the vector. The first element that fails ends it.
pub proof fn law_vector_is_read_chunk_by_chunk<A: Arbitrary>(c: Seq<u8>, data: Seq<u8>, depth: u8)
    requires
        A::hint(0).1 != Some(A::hint(0).0) || A::hint(0).0 == 0,
        plain_chunk(c),
    ensures
        <Vec<A>>::read_rest(Seq::empty(), depth) == Ok::<Seq<A::Model>, Error>(Seq::empty()),
        <Vec<A>>::read_rest(c, depth) == match A::read_rest(c, ((depth + 1) % 256) as u8) {
            Ok(m) => Ok::<Seq<A::Model>, Error>(seq![m]),
            Err(e) => Err(e),
        },
        <Vec<A>>::read_rest(c + seq![0xFEu8, 0xED, 0xFA, depth] + data, depth)
            == match A::read_rest(c, ((depth + 1) % 256) as u8) {
            Ok(m) => match <Vec<A>>::read_rest(data, depth) {
                Ok(ms) => Ok::<Seq<A::Model>, Error>(seq![m] + ms),
                Err(e) => Err(e),
            },
            Err(e) => Err(e),
        },
{
    let sep = separator::separator(depth);
    let inner = collections::deeper(depth);
    assert(sep =~= seq![0xFEu8, 0xED, 0xFA, depth]);
    let all = c + sep + data;
    separator::lemma_free_of_separators(c, depth, 0);
    separator::lemma_find_prefix(c, sep, data, 0);
    let alone = guard::taken_apart(c, sep, false);
    let row = guard::taken_apart(all, sep, false);
    assert(alone =~= seq![c]);
    assert(alone.drop_first() =~= Seq::<Seq<u8>>::empty());
    assert(all.take(c.len() as int) =~= c);
    assert(all.skip((c.len() + sep.len()) as int) =~= data);
    assert(row =~= seq![c] + guard::taken_apart(data, sep, false));
    assert(row.drop_first() =~= guard::taken_apart(data, sep, false));
    assert(guard::taken_apart(Seq::empty(), sep, false) =~= Seq::<Seq<u8>>::empty());
    if let Ok(m) = A::read_rest(c, inner) {
        assert(seq![m] + Seq::<A::Model>::empty() =~= seq![m]);
    }
}

proof fn lemma_nothing_to_unstuff(c: Seq<u8>)
    requires
        forall|i: int| 0 <= i < c.len() ==> #[trigger] c[i] != 0xFD,
    ensures
        guard::unstuffed(c) == c,
    decreases c.len(),
{
    if c.len() > 0 {
        assert forall|i: int| 0 <= i < c.skip(1).len() implies #[trigger] c.skip(1)[i] != 0xFD by {
            assert(c.skip(1)[i] == c[i + 1]);
        }
        lemma_nothing_to_unstuff(c.skip(1));
        assert(seq![c[0]] + c.skip(1) =~= c);
    } else {
        assert(guard::unstuffed(c) =~= c);
    }
}

/// An empty chunk is no element: a separator in front of bytes that hold no mark, or
/// behind them, changes nothing.
pub proof fn law_empty_chunks_are_no_elements<A: Arbitrary>(c: Seq<u8>, depth: u8)
    requires
        A::hint(0).1 != Some(A::hint(0).0) || A::hint(0).0 == 0,
        plain_chunk(c),
        forall|i: int| 0 <= i < c.len() ==> #[trigger] c[i] != 0xFD,
    ensures
        <Vec<A>>::read_rest(seq![0xFEu8, 0xED, 0xFA, depth] + c, depth) == <Vec<A>>::read_rest(
            c,
            depth,
        ),
        <Vec<A>>::read_rest(c + seq![0xFEu8, 0xED, 0xFA, depth], depth) == <Vec<A>>::read_rest(
            c,
            depth,
        ),
        <Vec<A>>::read_rest(seq![0xFEu8, 0xED, 0xFA, depth], depth) == Ok::<
            Seq<A::Model>,
            Error,
        >(Seq::empty()),
{
    let sep = separator::separator(depth);
    assert(sep =~= seq![0xFEu8, 0xED, 0xFA, depth]);
    law_vector_is_read_chunk_by_chunk::<A>(c, Seq::empty(), depth);
    assert(c + sep + Seq::<u8>::empty() =~= c + sep);
    if let Ok(m) = A::read_rest(c, collections::deeper(depth)) {
        assert(seq![m] + Seq::<A::Model>::empty() =~= seq![m]);
    }
    let all = sep + c;
    separator::lemma_free_of_separators(c, depth, 0);
    lemma_nothing_to_unstuff(c);
    assert(all.subrange(0, sep.len() as int) =~= sep);
    assert(separator::find(all, sep, 0) == 0);
    assert(all.skip(sep.len() as int) =~= c);
    assert(guard::taken_apart(c, sep, true) =~= guard::taken_apart(c, sep, false));
    assert(sep.subrange(0, sep.len() as int) =~= sep);
    assert(separator::find(sep, sep, 0) == 0);
    assert(sep.skip(sep.len() as int) =~= Seq::<u8>::empty());
    assert(guard::taken_apart(Seq::<u8>::empty(), sep, true) =~= Seq::<Seq<u8>>::empty());
}

/// A string is its UTF-8 bytes, counted. Where all data is for it the count is left
/// out, and a byte that is not UTF-8 stands for no characters.
pub proof fn law_string_is_its_bytes(s: String, depth: u8, hint_depth: usize)
    ensures
        s.model() == s@,
        s.pieces(depth) == seq![Piece::Counted(utf8::encode_utf8(s@))],
        s.rest_pieces(depth).len() == 0,
        s.rest_tail(depth) == Some(
            if s@.len() == 0 {
                seq![0xFFu8]
            } else {
                utf8::encode_utf8(s@)
            },
        ),
        s.readable(depth),
        s.rest_readable(depth),
        String::hint(hint_depth) == (0usize, None::<usize>),
{
}

proof fn lemma_longest_valid(bytes: Seq<u8>, upto: nat)
    requires
        upto <= bytes.len(),
    ensures
        ({
            let p = strings::valid_prefix(bytes, upto);
            &&& p <= upto
            &&& utf8::valid_utf8(bytes.take(p as int))
            &&& forall|i: int| p < i <= upto ==> !#[trigger] utf8::valid_utf8(bytes.take(i))
        }),
    decreases upto,
{
    if upto == 0 {
        assert(bytes.take(0) =~= Seq::<u8>::empty());
    } else if !utf8::valid_utf8(bytes.take(upto as int)) {
        lemma_longest_valid(bytes, (upto - 1) as nat);
    }
}

/// All the data is read as the longest text whose UTF-8 bytes it begins with.
pub proof fn law_longest_text_is_read(data: Seq<u8>, depth: u8)
    ensures
        match String::read_rest(data, depth) {
            Ok(s) => {
                let p = utf8::encode_utf8(s).len();
                &&& p <= data.len()
                &&& data.take(p as int) == utf8::encode_utf8(s)
                &&& forall|i: int| p < i <= data.len() ==> !#[trigger] utf8::valid_utf8(data.take(i))
            },
            Err(_) => false,
        },
{
    lemma_longest_valid(data, data.len());
    utf8::decode_utf8_encode_utf8(data.take(strings::valid_prefix(data, data.len()) as int));
}

/// A string is read from as many bytes as the size suffix says, as if they were all
/// the data. Only the bytes of the text are taken.
pub proof fn law_string_is_read_by_its_count(data: Seq<u8>, depth: u8)
    ensures
        ({
            let (n, rest) = suffix::read_size(data);
            match String::read_rest(rest.take(n as int), depth) {
                Ok(s) => String::read(data, depth) == (
                    Ok::<Seq<char>, Error>(s),
                    rest.skip(utf8::encode_utf8(s).len() as int),
                ),
                Err(_) => false,
            }
        }),
{
    let (n, rest) = suffix::read_size(data);
    let bytes = rest.take(n as int);
    suffix::lemma_suffix_width(data.len());
    let max = (data.len() - suffix::suffix_width(data.len())) as nat;
    vstd::arithmetic::div_mod::lemma_mod_bound(
        crate::endian::be_value(data.skip(max as int)) as int,
        max as int + 1,
    );
    assert(bytes.len() == n);
    lemma_longest_valid(bytes, n);
    utf8::decode_utf8_encode_utf8(bytes.take(strings::valid_prefix(bytes, n) as int));
}

} // verus!
