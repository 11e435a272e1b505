//! Values of one type in a row, and the arrays that hold them.

use crate::arbitrary::{Arbitrary, Modelled};
use crate::dearbitrary::Dearbitrary;
use crate::layout;
use crate::layout::Piece;
use crate::size_hint;
use crate::structured::Structured;
use crate::unstructured::{Error, Unstructured};
use vstd::prelude::*;

verus! {

/// The models of `elems`.
pub open spec fn models<A: Modelled>(elems: Seq<A>) -> Seq<A::Model> {
    Seq::new(elems.len(), |i: int| elems[i].model())
}

/// A read vector by its models.
pub open spec fn modelled_elements<A: Modelled>(r: Result<Vec<A>, Error>) -> Result<
    Seq<A::Model>,
    Error,
> {
    match r {
        Ok(v) => Ok(models(v@)),
        Err(e) => Err(e),
    }
}

/// What is read from `data` for `n` values in a row, and what is left of `data`
/// then. The first value that fails ends it.
pub open spec fn read_n<A: Arbitrary>(n: nat, data: Seq<u8>, depth: u8) -> (
    Result<Seq<A::Model>, Error>,
    Seq<u8>,
)
    decreases n,
{
    if n == 0 {
        (Ok(Seq::empty()), data)
    } else {
        match A::read(data, depth) {
            (Ok(m), rest) => match read_n::<A>((n - 1) as nat, rest, depth) {
                (Ok(ms), left) => (Ok(seq![m] + ms), left),
                (Err(e), left) => (Err(e), left),
            },
            (Err(e), rest) => (Err(e), rest),
        }
    }
}

/// The pieces of `elems` in a row.
pub open spec fn seq_pieces<A: Dearbitrary>(elems: Seq<A>, depth: u8) -> Seq<Piece>
    decreases elems.len(),
{
    if elems.len() == 0 {
        Seq::empty()
    } else {
        elems[0].pieces(depth) + seq_pieces(elems.drop_first(), depth)
    }
}

/// Whether all of `elems` are readable.
pub open spec fn all_readable<A: Dearbitrary>(elems: Seq<A>, depth: u8) -> bool {
    forall|i: int| 0 <= i < elems.len() ==> (#[trigger] elems[i]).readable(depth)
}

/// Readable values in a row read back.
pub proof fn law_sequence_reads_back<A: Dearbitrary>(elems: Seq<A>, depth: u8, data: Seq<u8>)
    requires
        all_readable(elems, depth),
        layout::take_pieces(seq_pieces(elems, depth), data) is Some,
    ensures
        read_n::<A>(elems.len(), data, depth) == (
            Ok::<Seq<A::Model>, Error>(models(elems)),
            layout::take_pieces(seq_pieces(elems, depth), data)->0,
        ),
    decreases elems.len(),
{
    if elems.len() == 0 {
        assert(models(elems) =~= Seq::<A::Model>::empty());
    } else {
        let rest = elems.drop_first();
        layout::lemma_take_append(elems[0].pieces(depth), seq_pieces(rest, depth), data);
        elems[0].reads_back(depth, data);
        assert(all_readable(rest, depth)) by {
            assert forall|i: int| 0 <= i < rest.len() implies (#[trigger] rest[i]).readable(
                depth,
            ) by {
                assert(rest[i] == elems[i + 1]);
            }
        }
        law_sequence_reads_back(
            rest,
            depth,
            layout::take_pieces(elems[0].pieces(depth), data)->0,
        );
        assert(seq![elems[0].model()] + models(rest) =~= models(elems));
    }
}

/// Values in a row stay within their hints together.
pub proof fn lemma_sequence_hint<A: Dearbitrary>(elems: Seq<A>, depth: u8, hint_depth: usize)
    ensures
        A::hint(hint_depth).1 matches Some(upper) ==> {
            let len = layout::content(seq_pieces(elems, depth)).len();
            &&& layout::sizes(seq_pieces(elems, depth)).len() == 0
            &&& A::hint(hint_depth).0 * elems.len() <= len <= upper * elems.len()
        },
    decreases elems.len(),
{
    if elems.len() > 0 {
        let first = elems[0];
        let rest = elems.drop_first();
        first.hint_holds(depth, hint_depth);
        lemma_sequence_hint(rest, depth, hint_depth);
        layout::lemma_pieces_append(first.pieces(depth), seq_pieces(rest, depth));
        if let Some(upper) = A::hint(hint_depth).1 {
            let lower = A::hint(hint_depth).0;
            let n = rest.len() as int;
            assert(lower * (n + 1) == lower * n + lower) by (nonlinear_arith);
            assert(upper * (n + 1) == upper * n + upper) by (nonlinear_arith);
        }
    }
}

/// The pieces of values in a row are those of the parts in a row.
pub proof fn lemma_pieces_in_a_row<A: Dearbitrary>(a: Seq<A>, b: Seq<A>, depth: u8)
    ensures
        seq_pieces(a + b, depth) == seq_pieces(a, depth) + seq_pieces(b, depth),
    decreases a.len(),
{
    if a.len() == 0 {
        assert(a + b =~= b);
        assert(seq_pieces(a, depth) + seq_pieces(b, depth) =~= seq_pieces(b, depth));
    } else {
        assert((a + b).drop_first() =~= a.drop_first() + b);
        lemma_pieces_in_a_row(a.drop_first(), b, depth);
        assert(seq_pieces(a + b, depth) =~= seq_pieces(a, depth) + seq_pieces(b, depth));
    }
}

/// Values in a row of a type whose size hint has an upper bound are written the same
/// at every depth.
pub proof fn lemma_depth_is_ignored<A: Dearbitrary>(
    elems: Seq<A>,
    hint_depth: usize,
    depth: u8,
    other: u8,
)
    requires
        A::hint(hint_depth).1 is Some,
    ensures
        seq_pieces(elems, depth) == seq_pieces(elems, other),
    decreases elems.len(),
{
    if elems.len() > 0 {
        elems[0].depth_is_ignored(hint_depth, depth, other);
        lemma_depth_is_ignored(elems.drop_first(), hint_depth, depth, other);
    }
}

/// Takes `n` values from the reader.
pub fn read_elements<A: Arbitrary>(u: &mut Unstructured<'_>, n: usize) -> (r: Result<
    Vec<A>,
    Error,
>)
    ensures
        final(u).depth() == old(u).depth(),
        final(u)@ == read_n::<A>(n as nat, old(u)@, old(u).depth()).1,
        modelled_elements(r) == read_n::<A>(n as nat, old(u)@, old(u).depth()).0,
{
    let ghost depth = u.depth();
    let ghost whole = read_n::<A>(n as nat, u@, depth);
    let mut out: Vec<A> = Vec::new();
    let mut i: usize = 0;
    proof {
        if let (Ok(ms), _) = whole {
            assert(models(out@) + ms =~= ms);
        }
    }
    while i < n
        invariant
            i <= n,
            u.depth() == depth,
            depth == old(u).depth(),
            whole == read_n::<A>(n as nat, old(u)@, depth),
            match read_n::<A>((n - i) as nat, u@, depth) {
                (Ok(ms), left) => whole == (Ok::<Seq<A::Model>, Error>(models(out@) + ms), left),
                (Err(e), left) => whole == (Err::<Seq<A::Model>, Error>(e), left),
            },
        decreases n - i,
    {
        let ghost before = models(out@);
        let ghost data = u@;
        match A::arbitrary(u) {
            Ok(v) => {
                out.push(v);
                proof {
                    assert(models(out@) =~= before.push(v.model()));
                    match read_n::<A>((n - i - 1) as nat, u@, depth) {
                        (Ok(ms), _) => {
                            assert(before.push(v.model()) + ms =~= before + (seq![v.model()] + ms));
                        },
                        (Err(_), _) => {},
                    }
                }
            },
            Err(e) => {
                return Err(e);
            },
        }
        i = i + 1;
    }
    proof {
        assert(models(out@) + Seq::<A::Model>::empty() =~= models(out@));
    }
    Ok(out)
}

/// Writes `elems` in a row.
pub fn write_elements<A: Dearbitrary>(elems: &[A], s: &mut Structured)
    ensures
        final(s)@ == old(s)@.with(seq_pieces(elems@, old(s)@.depth)),
{
    let ghost depth = s@.depth;
    let ghost start = s@;
    let ghost mut done: Seq<Piece> = Seq::empty();
    let mut i: usize = 0;
    proof {
        assert(elems@.skip(0) =~= elems@);
        assert(s@ =~= start.with(done));
        assert(done + seq_pieces(elems@, depth) =~= seq_pieces(elems@, depth));
    }
    while i < elems.len()
        invariant
            i <= elems@.len(),
            s@ == start.with(done),
            start.depth == depth,
            done + seq_pieces(elems@.skip(i as int), depth) == seq_pieces(elems@, depth),
        decreases elems@.len() - i,
    {
        elems[i].write_to(s);
        proof {
            let p = elems@[i as int].pieces(depth);
            let rest = elems@.skip(i as int);
            assert(rest.drop_first() =~= elems@.skip(i + 1));
            layout::lemma_pieces_append(done, p);
            assert(s@ =~= start.with(done + p));
            assert((done + p) + seq_pieces(elems@.skip(i + 1), depth) =~= done + seq_pieces(
                rest,
                depth,
            ));
            done = done + p;
        }
        i = i + 1;
    }
    proof {
        assert(elems@.skip(i as int) =~= Seq::<A>::empty());
        assert(done + seq_pieces(elems@.skip(i as int), depth) =~= done);
    }
}

/// `<[A; N] as TryFrom<Vec<A>>>::try_from` of the standard library: the vector's
/// elements as an array where there are exactly `N` of them, else the vector back.
#[verifier::external_body]
fn vec_into_array<A, const N: usize>(v: Vec<A>) -> (r: Result<[A; N], Vec<A>>)
    ensures
        match r {
            Ok(a) => a@ == v@,
            Err(back) => v@.len() != N && back@ == v@,
        },
{
    <[A; N]>::try_from(v)
}

impl<A: Modelled, const N: usize> Modelled for [A; N] {
    type Model = Seq<A::Model>;

    open spec fn model(&self) -> Seq<A::Model> {
        models(self@)
    }
}

impl<A: Arbitrary, const N: usize> Arbitrary for [A; N] {
    open spec fn hint(depth: usize) -> (usize, Option<usize>) {
        if N == 0 {
            (0, Some(0))
        } else {
            size_hint::repeated(A::hint(depth), N)
        }
    }

    open spec fn read(data: Seq<u8>, depth: u8) -> (Result<Seq<A::Model>, Error>, Seq<u8>) {
        read_n::<A>(N as nat, data, depth)
    }

    fn arbitrary(u: &mut Unstructured<'_>) -> (r: Result<Self, Error>) {
        proof {
            lemma_read_n_len::<A>(N as nat, u@, u.depth());
        }
        match read_elements::<A>(u, N) {
            Ok(v) => match vec_into_array::<A, N>(v) {
                Ok(a) => Ok(a),
                Err(_) => Err(Error::NotEnoughData),
            },
            Err(e) => Err(e),
        }
    }

    fn arbitrary_take_rest(u: Unstructured<'_>) -> (r: Result<Self, Error>) {
        let mut u: Unstructured<'_> = u;
        Self::arbitrary(&mut u)
    }

    fn size_hint(depth: usize) -> (hint: (usize, Option<usize>)) {
        if N == 0 {
            (0, Some(0))
        } else {
            size_hint::times(A::size_hint(depth), N)
        }
    }
}

/// As many values as were asked for come out.
proof fn lemma_read_n_len<A: Arbitrary>(n: nat, data: Seq<u8>, depth: u8)
    ensures
        read_n::<A>(n, data, depth).0 matches Ok(ms) ==> ms.len() == n,
    decreases n,
{
    if n > 0 {
        lemma_read_n_len::<A>((n - 1) as nat, A::read(data, depth).1, depth);
    }
}

impl<A: Dearbitrary, const N: usize> Dearbitrary for [A; N] {
    open spec fn pieces(&self, depth: u8) -> Seq<Piece> {
        seq_pieces(self@, depth)
    }

    open spec fn readable(&self, depth: u8) -> bool {
        all_readable(self@, depth)
    }

    fn write_to(&self, s: &mut Structured) {
        write_elements(self.as_slice(), s)
    }

    fn write_take_rest_to(&self, s: &mut Structured) {
        self.write_to(s)
    }

    proof fn reads_back(&self, depth: u8, data: Seq<u8>) {
        law_sequence_reads_back(self@, depth, data);
    }

    proof fn rest_reads_back(&self, depth: u8, data: Seq<u8>) {
        self.reads_back(depth, data);
    }

    proof fn hint_holds(&self, depth: u8, hint_depth: usize) {
        lemma_sequence_hint(self@, depth, hint_depth);
        if N > 0 {
            self@[0].hint_holds(depth, hint_depth);
            if let Some(upper) = A::hint(hint_depth).1 {
                let lower = A::hint(hint_depth).0;
                assert(lower * N <= upper * N) by (nonlinear_arith)
                    requires
                        lower <= upper,
                ;
            }
        }
    }

    proof fn depth_is_ignored(&self, hint_depth: usize, depth: u8, other: u8) {
        if A::hint(hint_depth).1 is Some {
            lemma_depth_is_ignored(self@, hint_depth, depth, other);
        }
    }
}

} // verus!
