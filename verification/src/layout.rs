//! The layout of a finished buffer: content from the front, size suffixes from
//! the back.
//!
//! A value is written as a sequence of [`Piece`]s. The bytes of all pieces, in
//! order, are the content. Each counted piece also leaves its length as a size
//! suffix; the reader meets the first counted piece's suffix at the very end.

use crate::endian;
use crate::suffix;
use vstd::prelude::*;

verus! {

/// A stretch of written bytes.
pub enum Piece {
    /// Bytes whose number the reader knows.
    Plain(Seq<u8>),
    /// Bytes whose number the reader takes from the size suffixes.
    Counted(Seq<u8>),
}

impl Piece {
    /// The bytes of the piece.
    pub open spec fn bytes(self) -> Seq<u8> {
        match self {
            Piece::Plain(b) => b,
            Piece::Counted(b) => b,
        }
    }
}

/// The bytes of all pieces, in order.
pub open spec fn content(pieces: Seq<Piece>) -> Seq<u8>
    decreases pieces.len(),
{
    if pieces.len() == 0 {
        Seq::empty()
    } else {
        pieces[0].bytes() + content(pieces.drop_first())
    }
}

/// The lengths of the counted pieces, in order.
pub open spec fn sizes(pieces: Seq<Piece>) -> Seq<nat>
    decreases pieces.len(),
{
    if pieces.len() == 0 {
        Seq::empty()
    } else {
        match pieces[0] {
            Piece::Plain(_) => sizes(pieces.drop_first()),
            Piece::Counted(b) => seq![b.len()] + sizes(pieces.drop_first()),
        }
    }
}

/// The value that a machine word holds after arithmetic that ends in `x`.
pub open spec fn word(x: int) -> nat {
    (x % (usize::MAX + 1)) as nat
}

/// One pass over the sizes, in the order in which their suffixes stand in the
/// buffer: each is encoded for the length that is left after those before it and
/// the bytes that they count.
pub open spec fn encode_pass(sizes: Seq<nat>, len: nat) -> Seq<Seq<u8>>
    decreases sizes.len(),
{
    if sizes.len() == 0 {
        Seq::empty()
    } else {
        let e = suffix::size_suffix(sizes[0], len);
        seq![e] + encode_pass(sizes.drop_first(), word(len - e.len() - sizes[0]))
    }
}

/// The encodings after `passes` passes. Each pass starts from the length that the
/// buffer has with the encodings of the pass before; before the first, each
/// suffix counts as one zero byte.
pub open spec fn settle(sizes: Seq<nat>, content_len: nat, passes: nat) -> Seq<Seq<u8>>
    decreases passes,
{
    if passes == 0 {
        Seq::new(sizes.len(), |i: int| seq![0u8])
    } else {
        let before = settle(sizes, content_len, (passes - 1) as nat);
        encode_pass(sizes, word(content_len as int + before.flatten().len()))
    }
}

/// How many passes are made over the size suffixes.
pub const PASSES: usize = 5;

/// The content bytes that are left when the reader comes to each counted piece.
pub open spec fn lefts(pieces: Seq<Piece>) -> Seq<nat>
    decreases pieces.len(),
{
    if pieces.len() == 0 {
        Seq::empty()
    } else {
        match pieces[0] {
            Piece::Plain(_) => lefts(pieces.drop_first()),
            Piece::Counted(b) => seq![content(pieces).len()] + lefts(pieces.drop_first()),
        }
    }
}

/// Where the counted pieces start in the content.
pub open spec fn starts(pieces: Seq<Piece>) -> Seq<nat> {
    Seq::new(
        lefts(pieces).len(),
        |i: int| (content(pieces).len() - lefts(pieces)[i]) as nat,
    )
}

/// What is left of `len` content bytes from each of `starts` on.
pub open spec fn lefts_of(starts: Seq<nat>, len: nat) -> Seq<nat> {
    Seq::new(
        starts.len(),
        |i: int|
            if starts[i] <= len {
                (len - starts[i]) as nat
            } else {
                0
            },
    )
}

/// Whether the counted stretches that start at `starts` follow one another.
pub open spec fn in_order(sizes: Seq<nat>, starts: Seq<nat>) -> bool {
    forall|i: int|
        0 <= i < sizes.len() - 1 ==> (#[trigger] starts[i]) + sizes[i] <= starts[i + 1]
}

/// What is left of `len` content bytes for each of `sizes` where the stretches
/// that they count stand in a row at the front.
pub open spec fn row_lefts(sizes: Seq<nat>, len: nat) -> Seq<nat>
    decreases sizes.len(),
{
    if sizes.len() == 0 {
        Seq::empty()
    } else {
        let after = if sizes[0] <= len {
            (len - sizes[0]) as nat
        } else {
            0
        };
        seq![len] + row_lefts(sizes.drop_first(), after)
    }
}

/// What the reader has left of the content for each of `sizes`. Starts that do not
/// follow one another say nothing of where the reader is.
pub open spec fn lefts_for(sizes: Seq<nat>, starts: Seq<nat>, len: nat) -> Seq<nat> {
    if in_order(sizes, starts) {
        lefts_of(starts, len)
    } else {
        row_lefts(sizes, len)
    }
}

/// Whether a reader gets `sizes` out of the suffixes `tail`: each is read from the
/// end of what is then left, `lefts` of the content and the suffixes that were not
/// read yet. With `exact`, no byte of `tail` may be left over.
pub open spec fn meets(sizes: Seq<nat>, lefts: Seq<nat>, tail: Seq<u8>, exact: bool) -> bool
    decreases sizes.len(),
{
    if sizes.len() == 0 {
        exact ==> tail.len() == 0
    } else {
        let len = lefts[0] + tail.len();
        let w = suffix::suffix_width(len);
        &&& len <= usize::MAX
        &&& w <= tail.len()
        &&& endian::be_value(tail.skip(tail.len() - w)) % ((len - w + 1) as nat) == sizes[0]
        &&& meets(sizes.drop_first(), lefts.drop_first(), tail.take(tail.len() - w), exact)
    }
}

/// The width of a suffix that comes after `room` bytes.
pub open spec fn width_after(room: nat) -> nat {
    if room < 0x100 {
        1
    } else if room < 0x1_0000 {
        2
    } else if room < 0x1_0000_0000 {
        4
    } else {
        8
    }
}

/// The value that a machine word holds after addition that stops at its range.
pub open spec fn capped(x: nat) -> nat {
    if x > usize::MAX {
        usize::MAX as nat
    } else {
        x
    }
}

/// The suffixes of `sizes`, each as wide as the reader takes it when it comes to
/// it.
pub open spec fn placed(sizes: Seq<nat>, lefts: Seq<nat>) -> Seq<u8>
    decreases sizes.len(),
{
    if sizes.len() == 0 {
        Seq::empty()
    } else {
        let after = placed(sizes.drop_first(), lefts.drop_first());
        let room = capped(lefts[0] + after.len());
        after + suffix::size_suffix(sizes[0], capped(room + width_after(room)))
    }
}

/// The suffixes that end a buffer, the last size's first. Those that the passes
/// settle on are taken where a reader gets the sizes out of them. They do not know
/// what stands between the collections, so a reader may not; then each suffix is
/// made for exactly what the reader has left.
pub open spec fn suffixes(
    sizes: Seq<nat>,
    lefts: Seq<nat>,
    content_len: nat,
    exact: bool,
) -> Seq<u8> {
    let settled = settle(sizes.reverse(), content_len, PASSES as nat).flatten();
    if meets(sizes, lefts, settled, exact) {
        settled
    } else {
        placed(sizes, lefts)
    }
}

/// The finished buffer: the content, then the suffixes of `sizes`, for collections
/// that start at `starts` in the content. With `exact`, the suffixes leave nothing
/// over for a reader that takes all the rest.
pub open spec fn finished(
    content: Seq<u8>,
    sizes: Seq<nat>,
    starts: Seq<nat>,
    exact: bool,
) -> Seq<u8> {
    content + suffixes(
        sizes,
        lefts_for(sizes, starts, content.len()),
        content.len(),
        exact,
    )
}

/// The finished buffer of a value that is written as `pieces`.
pub open spec fn laid_out(pieces: Seq<Piece>) -> Seq<u8> {
    laid_out_rest(pieces, None)
}

/// The finished buffer of a value that is written as `pieces`, and as `tail` for a
/// reader that takes all the rest.
pub open spec fn laid_out_rest(pieces: Seq<Piece>, tail: Option<Seq<u8>>) -> Seq<u8> {
    finished(content(pieces) + tail_bytes(tail), sizes(pieces), starts(pieces), tail is Some)
}

/// The bytes of a tail, where there is one.
pub open spec fn tail_bytes(tail: Option<Seq<u8>>) -> Seq<u8> {
    match tail {
        Some(b) => b,
        None => Seq::empty(),
    }
}

/// Whether a machine word counts the bytes of `pieces` and their suffixes.
pub open spec fn fits(pieces: Seq<Piece>) -> bool {
    fits_rest(pieces, None)
}

/// Whether a machine word counts the bytes of `pieces`, `tail` and the suffixes.
/// Without suffixes nothing is counted.
pub open spec fn fits_rest(pieces: Seq<Piece>, tail: Option<Seq<u8>>) -> bool {
    ||| sizes(pieces).len() == 0
    ||| content(pieces).len() + tail_bytes(tail).len() + 8 * sizes(pieces).len() <= usize::MAX
}

/// Whether `data` begins with `b`.
pub open spec fn starts_with(data: Seq<u8>, b: Seq<u8>) -> bool {
    b.len() <= data.len() && data.take(b.len() as int) == b
}

/// Takes `pieces` out of `data` as a reader does: plain bytes from the front;
/// counted bytes from the front too, after their number was taken from the end.
/// Gives what is left of `data`, or `None` where the reader meets other bytes or
/// another size than were written.
pub open spec fn take_pieces(pieces: Seq<Piece>, data: Seq<u8>) -> Option<Seq<u8>>
    decreases pieces.len(),
{
    if pieces.len() == 0 {
        Some(data)
    } else {
        match pieces[0] {
            Piece::Plain(b) => if starts_with(data, b) {
                take_pieces(pieces.drop_first(), data.skip(b.len() as int))
            } else {
                None
            },
            Piece::Counted(b) => {
                let (n, rest) = suffix::read_size(data);
                if n == b.len() && starts_with(rest, b) {
                    take_pieces(pieces.drop_first(), rest.skip(b.len() as int))
                } else {
                    None
                }
            },
        }
    }
}

/// Whether the size suffixes of `pieces` stand in the finished buffer where a
/// reader looks for them.
pub open spec fn aligned(pieces: Seq<Piece>) -> bool {
    take_pieces(pieces, laid_out(pieces)) is Some
}

/// Whether a reader takes `pieces` out of `data`, and `tail`, where there is one,
/// is exactly what it has left then.
pub open spec fn takes_rest(
    pieces: Seq<Piece>,
    tail: Option<Seq<u8>>,
    data: Seq<u8>,
) -> bool {
    match tail {
        Some(b) => take_pieces(pieces, data) == Some(b),
        None => take_pieces(pieces, data) is Some,
    }
}

/// Content, sizes and starts of pieces in a row are those of the parts in a row.
pub proof fn lemma_pieces_append(a: Seq<Piece>, b: Seq<Piece>)
    ensures
        content(a + b) == content(a) + content(b),
        sizes(a + b) == sizes(a) + sizes(b),
        starts(a + b) == starts(a) + shifted(starts(b), content(a).len()),
{
    lemma_append(a, b);
    lemma_lefts(a);
    lemma_lefts(b);
    assert(starts(a + b) =~= starts(a) + shifted(starts(b), content(a).len()));
}

/// Positions behind `n` more bytes.
pub open spec fn shifted(positions: Seq<nat>, n: nat) -> Seq<nat> {
    Seq::new(positions.len(), |i: int| positions[i] + n)
}

proof fn lemma_append(a: Seq<Piece>, b: Seq<Piece>)
    ensures
        content(a + b) == content(a) + content(b),
        sizes(a + b) == sizes(a) + sizes(b),
        lefts(a + b) == shifted(lefts(a), content(b).len()) + lefts(b),
    decreases a.len(),
{
    if a.len() == 0 {
        assert(a + b =~= b);
        assert(content(a) + content(b) =~= content(b));
        assert(sizes(a) + sizes(b) =~= sizes(b));
        assert(shifted(lefts(a), content(b).len()) + lefts(b) =~= lefts(b));
    } else {
        assert((a + b).drop_first() =~= a.drop_first() + b);
        lemma_append(a.drop_first(), b);
        assert(content(a + b) =~= content(a) + content(b));
        assert(sizes(a + b) =~= sizes(a) + sizes(b));
        assert(lefts(a + b) =~= shifted(lefts(a), content(b).len()) + lefts(b));
    }
}

/// What is left for a counted piece holds the piece.
pub proof fn lemma_lefts(pieces: Seq<Piece>)
    ensures
        lefts(pieces).len() == sizes(pieces).len(),
        forall|i: int|
            0 <= i < sizes(pieces).len() ==> sizes(pieces)[i] <= #[trigger] lefts(pieces)[i]
                <= content(pieces).len(),
        in_order(sizes(pieces), starts(pieces)),
        forall|more: nat|
            #[trigger] lefts_of(starts(pieces), content(pieces).len() + more) == shifted(
                lefts(pieces),
                more,
            ),
    decreases pieces.len(),
{
    if pieces.len() > 0 {
        let rest = pieces.drop_first();
        lemma_lefts(rest);
        match pieces[0] {
            Piece::Plain(_) => {},
            Piece::Counted(b) => {
                assert forall|i: int| 0 <= i < sizes(pieces).len() implies sizes(pieces)[i]
                    <= #[trigger] lefts(pieces)[i] <= content(pieces).len() by {
                    if i > 0 {
                        assert(lefts(pieces)[i] == lefts(rest)[i - 1]);
                        assert(sizes(pieces)[i] == sizes(rest)[i - 1]);
                    }
                }
            },
        }
    }
    assert forall|more: nat|
        #[trigger] lefts_of(starts(pieces), content(pieces).len() + more) == shifted(
            lefts(pieces),
            more,
        ) by {
        assert(lefts_of(starts(pieces), content(pieces).len() + more) =~= shifted(
            lefts(pieces),
            more,
        ));
    }
    assert forall|i: int| 0 <= i < sizes(pieces).len() - 1 implies (#[trigger] starts(pieces)[i])
        + sizes(pieces)[i] <= starts(pieces)[i + 1] by {
        lemma_next_left(pieces, i);
    }
}

/// A counted piece is behind the reader when it comes to the next.
proof fn lemma_next_left(pieces: Seq<Piece>, i: int)
    requires
        0 <= i < sizes(pieces).len() - 1,
    ensures
        lefts(pieces).len() == sizes(pieces).len(),
        lefts(pieces)[i + 1] + sizes(pieces)[i] <= lefts(pieces)[i] <= content(pieces).len(),
    decreases pieces.len(),
{
    let rest = pieces.drop_first();
    lemma_first_left(pieces);
    lemma_first_left(rest);
    match pieces[0] {
        Piece::Plain(_) => {
            lemma_next_left(rest, i);
        },
        Piece::Counted(b) => {
            if i > 0 {
                lemma_next_left(rest, i - 1);
            }
        },
    }
}

/// No more than the content is left for the first counted piece.
proof fn lemma_first_left(pieces: Seq<Piece>)
    ensures
        lefts(pieces).len() == sizes(pieces).len(),
        lefts(pieces).len() > 0 ==> lefts(pieces)[0] <= content(pieces).len(),
    decreases pieces.len(),
{
    if pieces.len() > 0 {
        lemma_first_left(pieces.drop_first());
    }
}

/// Pieces in a row are taken part by part.
pub proof fn lemma_take_append(a: Seq<Piece>, b: Seq<Piece>, data: Seq<u8>)
    ensures
        take_pieces(a + b, data) == match take_pieces(a, data) {
            Some(rest) => take_pieces(b, rest),
            None => None,
        },
    decreases a.len(),
{
    if a.len() == 0 {
        assert(a + b =~= b);
    } else {
        assert((a + b).drop_first() =~= a.drop_first() + b);
        assert((a + b)[0] == a[0]);
        match a[0] {
            Piece::Plain(p) => {
                lemma_take_append(a.drop_first(), b, data.skip(p.len() as int));
            },
            Piece::Counted(p) => {
                let (n, rest) = suffix::read_size(data);
                lemma_take_append(a.drop_first(), b, rest.skip(p.len() as int));
            },
        }
    }
}

/// A single plain piece is its bytes.
pub proof fn lemma_plain(b: Seq<u8>)
    ensures
        content(seq![Piece::Plain(b)]) == b,
        sizes(seq![Piece::Plain(b)]) == Seq::<nat>::empty(),
        starts(seq![Piece::Plain(b)]) == Seq::<nat>::empty(),
        forall|data: Seq<u8>| #[trigger]
            take_pieces(seq![Piece::Plain(b)], data) == if starts_with(data, b) {
                Some(data.skip(b.len() as int))
            } else {
                None
            },
{
    reveal_with_fuel(content, 2);
    reveal_with_fuel(sizes, 2);
    reveal_with_fuel(take_pieces, 2);
    let p = seq![Piece::Plain(b)];
    assert(p.drop_first() =~= Seq::<Piece>::empty());
    assert(content(p) =~= b);
    assert(sizes(p) =~= Seq::<nat>::empty());
    lemma_lefts(p);
    assert(starts(p) =~= Seq::<nat>::empty());
    assert forall|data: Seq<u8>| #[trigger] take_pieces(p, data) == (if starts_with(data, b) {
        Some(data.skip(b.len() as int))
    } else {
        None
    }) by {
        assert(take_pieces(p.drop_first(), data.skip(b.len() as int)) == Some(
            data.skip(b.len() as int),
        ));
    }
}

/// A single counted piece is its bytes and its length.
pub proof fn lemma_counted(b: Seq<u8>)
    ensures
        content(seq![Piece::Counted(b)]) == b,
        sizes(seq![Piece::Counted(b)]) == seq![b.len()],
        starts(seq![Piece::Counted(b)]) == seq![0nat],
        forall|data: Seq<u8>| #[trigger]
            take_pieces(seq![Piece::Counted(b)], data) == ({
                let (n, rest) = suffix::read_size(data);
                if n == b.len() && starts_with(rest, b) {
                    Some(rest.skip(b.len() as int))
                } else {
                    None
                }
            }),
{
    reveal_with_fuel(content, 2);
    reveal_with_fuel(sizes, 2);
    reveal_with_fuel(take_pieces, 2);
    let p = seq![Piece::Counted(b)];
    assert(p.drop_first() =~= Seq::<Piece>::empty());
    assert(content(p) =~= b);
    assert(sizes(p) =~= seq![b.len()]);
    assert(lefts(p) =~= seq![b.len()]) by {
        reveal_with_fuel(lefts, 2);
    }
    assert(starts(p) =~= seq![0nat]);
    assert forall|data: Seq<u8>| #[trigger]
        take_pieces(p, data) == ({
            let (n, rest) = suffix::read_size(data);
            if n == b.len() && starts_with(rest, b) {
                Some(rest.skip(b.len() as int))
            } else {
                None
            }
        }) by {
        let (n, rest) = suffix::read_size(data);
        assert(take_pieces(p.drop_first(), rest.skip(b.len() as int)) == Some(
            rest.skip(b.len() as int),
        ));
    }
}

/// Without sizes there are no suffixes.
pub proof fn lemma_no_suffixes(lefts: Seq<nat>, content_len: nat, exact: bool)
    ensures
        suffixes(Seq::empty(), lefts, content_len, exact) == Seq::<u8>::empty(),
{
    let none = Seq::<nat>::empty();
    assert(none.reverse() =~= none);
    assert(settle(none, content_len, PASSES as nat) =~= Seq::<Seq<u8>>::empty());
    assert(settle(none, content_len, PASSES as nat).flatten() =~= Seq::<u8>::empty());
}

/// Without counted pieces the finished buffer is what was written.
pub proof fn lemma_unsized(pieces: Seq<Piece>, tail: Option<Seq<u8>>)
    requires
        sizes(pieces).len() == 0,
    ensures
        laid_out_rest(pieces, tail) == content(pieces) + tail_bytes(tail),
{
    let all = content(pieces) + tail_bytes(tail);
    assert(sizes(pieces) =~= Seq::<nat>::empty());
    lemma_no_suffixes(
        lefts_for(sizes(pieces), starts(pieces), all.len()),
        all.len(),
        tail is Some,
    );
    assert(laid_out_rest(pieces, tail) =~= all);
}

/// Without counted pieces nothing is taken from the end.
pub proof fn lemma_take_plain(pieces: Seq<Piece>, rest: Seq<u8>)
    requires
        sizes(pieces).len() == 0,
    ensures
        take_pieces(pieces, content(pieces) + rest) == Some(rest),
        laid_out(pieces) == content(pieces),
    decreases pieces.len(),
{
    assert(sizes(pieces) =~= Seq::<nat>::empty());
    assert(sizes(pieces).reverse() =~= Seq::<nat>::empty());
    lemma_unsized(pieces, None);
    assert(laid_out(pieces) =~= content(pieces));
    let data = content(pieces) + rest;
    if pieces.len() == 0 {
        assert(data =~= rest);
    } else {
        match pieces[0] {
            Piece::Plain(b) => {
                lemma_take_plain(pieces.drop_first(), rest);
                assert(data.take(b.len() as int) =~= b);
                assert(data.skip(b.len() as int) =~= content(pieces.drop_first()) + rest);
            },
            Piece::Counted(b) => {
                assert(sizes(pieces).len() > 0);
            },
        }
    }
}

/// Where a reader gets the sizes out of the suffixes, it gets the pieces, and is
/// left with what follows them.
proof fn lemma_met_pieces(pieces: Seq<Piece>, after: Seq<u8>, tail: Seq<u8>, exact: bool)
    requires
        meets(sizes(pieces), shifted(lefts(pieces), after.len()), tail, exact),
    ensures
        take_pieces(pieces, content(pieces) + after + tail) is Some,
        exact ==> take_pieces(pieces, content(pieces) + after + tail) == Some(after),
    decreases pieces.len(),
{
    let data = content(pieces) + after + tail;
    if pieces.len() == 0 {
        if exact {
            assert(data =~= after);
        }
    } else {
        let rest = pieces.drop_first();
        match pieces[0] {
            Piece::Plain(b) => {
                lemma_met_pieces(rest, after, tail, exact);
                assert(data.take(b.len() as int) =~= b);
                assert(data.skip(b.len() as int) =~= content(rest) + after + tail);
            },
            Piece::Counted(b) => {
                let w = suffix::suffix_width(data.len());
                let kept = tail.take(tail.len() - w);
                let left = suffix::read_size(data).1;
                assert(sizes(pieces).drop_first() =~= sizes(rest));
                assert(shifted(lefts(pieces), after.len()).drop_first() =~= shifted(
                    lefts(rest),
                    after.len(),
                ));
                lemma_met_pieces(rest, after, kept, exact);
                assert(data.skip(data.len() - w) =~= tail.skip(tail.len() - w));
                assert(left =~= content(pieces) + after + kept);
                assert(left.take(b.len() as int) =~= b);
                assert(left.skip(b.len() as int) =~= content(rest) + after + kept);
            },
        }
    }
}

/// A reader gets the sizes out of suffixes that are made for what it has left, and
/// uses the suffixes up.
proof fn lemma_placed_meets(sizes: Seq<nat>, lefts: Seq<nat>, content_len: nat, exact: bool)
    requires
        lefts.len() == sizes.len(),
        forall|i: int|
            0 <= i < sizes.len() ==> sizes[i] <= #[trigger] lefts[i] <= content_len,
        sizes.len() > 0 ==> content_len + 8 * sizes.len() <= usize::MAX,
    ensures
        meets(sizes, lefts, placed(sizes, lefts), exact),
        placed(sizes, lefts).len() <= 8 * sizes.len(),
    decreases sizes.len(),
{
    if sizes.len() > 0 {
        let after = placed(sizes.drop_first(), lefts.drop_first());
        assert forall|i: int| 0 <= i < sizes.drop_first().len() implies sizes.drop_first()[i]
            <= #[trigger] lefts.drop_first()[i] <= content_len by {
            assert(lefts.drop_first()[i] == lefts[i + 1]);
        }
        lemma_placed_meets(sizes.drop_first(), lefts.drop_first(), content_len, exact);
        assert(lefts[0] <= content_len);
        let room = lefts[0] + after.len();
        let w = width_after(room);
        let last = suffix::size_suffix(sizes[0], room + w);
        let tail = placed(sizes, lefts);
        suffix::lemma_size_suffix_len(sizes[0], room + w);
        suffix::lemma_suffix_width(room + w);
        vstd::arithmetic::div_mod::lemma_small_mod(sizes[0], room + 1);
        endian::lemma_be_value_of_bytes(sizes[0] as int, w);
        assert(tail == after + last);
        assert(tail.skip(tail.len() - w) =~= last);
        assert(tail.take(tail.len() - w) =~= after);
    }
}

/// The suffixes of a finished buffer stand where the reader looks for them,
/// whatever is written in whatever order.
pub proof fn law_suffixes_align(pieces: Seq<Piece>)
    requires
        fits(pieces),
    ensures
        aligned(pieces),
{
    law_rest_aligns(pieces, None);
}

/// A reader takes the pieces out of a finished buffer. Where bytes follow for a
/// reader that takes all the rest, these are exactly what it has left then.
pub proof fn law_rest_aligns(pieces: Seq<Piece>, tail: Option<Seq<u8>>)
    requires
        fits_rest(pieces, tail),
    ensures
        takes_rest(pieces, tail, laid_out_rest(pieces, tail)),
{
    let after = tail_bytes(tail);
    let all = content(pieces) + after;
    let left = shifted(lefts(pieces), after.len());
    let ends = suffixes(sizes(pieces), left, all.len(), tail is Some);
    lemma_lefts(pieces);
    assert(all.len() == content(pieces).len() + after.len());
    assert(lefts_for(sizes(pieces), starts(pieces), all.len()) == left);
    assert forall|i: int| 0 <= i < sizes(pieces).len() implies sizes(pieces)[i]
        <= #[trigger] left[i] <= all.len() by {
        assert(sizes(pieces)[i] <= lefts(pieces)[i] <= content(pieces).len());
    }
    lemma_placed_meets(sizes(pieces), left, all.len(), tail is Some);
    lemma_met_pieces(pieces, after, ends, tail is Some);
}

/// The sum of `sizes`.
pub open spec fn total(sizes: Seq<nat>) -> nat
    decreases sizes.len(),
{
    if sizes.len() == 0 {
        0
    } else {
        sizes[0] + total(sizes.drop_first())
    }
}

/// What is counted is part of the content.
proof fn lemma_total_in_content(pieces: Seq<Piece>)
    ensures
        total(sizes(pieces)) <= content(pieces).len(),
    decreases pieces.len(),
{
    if pieces.len() > 0 {
        lemma_total_in_content(pieces.drop_first());
        match pieces[0] {
            Piece::Plain(b) => {},
            Piece::Counted(b) => {
                assert(sizes(pieces).drop_first() =~= sizes(pieces.drop_first()));
            },
        }
    }
}

proof fn lemma_total_push(s: Seq<nat>, x: nat)
    ensures
        total(s.push(x)) == total(s) + x,
    decreases s.len(),
{
    if s.len() == 0 {
        assert(s.push(x).drop_first() =~= s);
    } else {
        assert(s.push(x).drop_first() =~= s.drop_first().push(x));
        lemma_total_push(s.drop_first(), x);
    }
}

proof fn lemma_total_reverse(s: Seq<nat>)
    ensures
        total(s.reverse()) == total(s),
    decreases s.len(),
{
    if s.len() > 0 {
        lemma_total_reverse(s.drop_first());
        assert(s.reverse() =~= s.drop_first().reverse().push(s[0]));
        lemma_total_push(s.drop_first().reverse(), s[0]);
    } else {
        assert(s.reverse() =~= s);
    }
}

/// The sizes as one byte each.
pub open spec fn single_bytes(sizes: Seq<nat>) -> Seq<u8> {
    Seq::new(sizes.len(), |i: int| sizes[i] as u8)
}

proof fn lemma_flatten_singles(s: Seq<Seq<u8>>)
    requires
        forall|i: int| 0 <= i < s.len() ==> (#[trigger] s[i]).len() == 1,
    ensures
        s.flatten() == Seq::new(s.len(), |i: int| s[i][0]),
    decreases s.len(),
{
    if s.len() == 0 {
        assert(s.flatten() =~= Seq::new(s.len(), |i: int| s[i][0]));
    } else {
        let t = s.drop_first();
        assert forall|i: int| 0 <= i < t.len() implies (#[trigger] t[i]).len() == 1 by {
            assert(t[i] == s[i + 1]);
        }
        lemma_flatten_singles(t);
        assert(s.flatten() =~= Seq::new(s.len(), |i: int| s[i][0]));
    }
}

/// In a buffer of at most 256 bytes a pass gives each size one byte.
proof fn lemma_pass_small(s: Seq<nat>, len: nat)
    requires
        total(s) + s.len() <= len <= 0x100,
    ensures
        encode_pass(s, len) == Seq::new(s.len(), |i: int| seq![s[i] as u8]),
    decreases s.len(),
{
    if s.len() == 0 {
        assert(encode_pass(s, len) =~= Seq::new(s.len(), |i: int| seq![s[i] as u8]));
    } else {
        let e = suffix::size_suffix(s[0], len);
        vstd::arithmetic::div_mod::lemma_small_mod(s[0], len);
        assert(len - suffix::suffix_width(len) + 1 == len);
        assert(endian::be_bytes(s[0] as int, 1) =~= seq![s[0] as u8]) by {
            reveal_with_fuel(endian::be_bytes, 2);
        }
        assert(e == seq![s[0] as u8]);
        let next = (len - 1 - s[0]) as nat;
        vstd::arithmetic::div_mod::lemma_small_mod(next, (usize::MAX + 1) as nat);
        lemma_pass_small(s.drop_first(), next);
        assert(encode_pass(s, len) =~= Seq::new(s.len(), |i: int| seq![s[i] as u8]));
    }
}

proof fn lemma_settle_small(s: Seq<nat>, content_len: nat, passes: nat)
    requires
        total(s) <= content_len,
        content_len + s.len() <= 0x100,
    ensures
        settle(s, content_len, passes).flatten().len() == s.len(),
        passes > 0 ==> settle(s, content_len, passes).flatten() == single_bytes(s),
    decreases passes,
{
    if passes == 0 {
        lemma_flatten_singles(settle(s, content_len, 0));
    } else {
        lemma_settle_small(s, content_len, (passes - 1) as nat);
        let len = content_len + s.len();
        vstd::arithmetic::div_mod::lemma_small_mod(len, (usize::MAX + 1) as nat);
        lemma_pass_small(s, len);
        lemma_flatten_singles(settle(s, content_len, passes));
        assert(settle(s, content_len, passes).flatten() =~= single_bytes(s));
    }
}

proof fn lemma_small_meets(sizes: Seq<nat>, lefts: Seq<nat>, content_len: nat, exact: bool)
    requires
        lefts.len() == sizes.len(),
        forall|i: int|
            0 <= i < sizes.len() ==> sizes[i] <= #[trigger] lefts[i] <= content_len,
        content_len + sizes.len() <= 0x100,
    ensures
        meets(sizes, lefts, single_bytes(sizes.reverse()), exact),
    decreases sizes.len(),
{
    if sizes.len() > 0 {
        let tail = single_bytes(sizes.reverse());
        let n = sizes[0];
        assert forall|i: int| 0 <= i < sizes.drop_first().len() implies sizes.drop_first()[i]
            <= #[trigger] lefts.drop_first()[i] <= content_len by {
            assert(lefts.drop_first()[i] == lefts[i + 1]);
        }
        lemma_small_meets(sizes.drop_first(), lefts.drop_first(), content_len, exact);
        assert(n <= lefts[0] <= content_len);
        let len = lefts[0] + tail.len();
        assert(tail.skip(tail.len() - 1) =~= seq![n as u8]);
        assert(endian::be_value(seq![n as u8]) == n) by {
            reveal_with_fuel(endian::be_value, 2);
            assert(seq![n as u8].drop_last() =~= Seq::<u8>::empty());
        }
        vstd::arithmetic::div_mod::lemma_small_mod(n, len);
        assert(tail.take(tail.len() - 1) =~= single_bytes(sizes.drop_first().reverse()));
    }
}

/// In a finished buffer of at most 256 bytes every suffix is a single byte, the
/// size itself.
pub proof fn law_small_buffers(pieces: Seq<Piece>)
    requires
        content(pieces).len() + sizes(pieces).len() <= 0x100,
    ensures
        laid_out(pieces) == content(pieces) + single_bytes(sizes(pieces).reverse()),
{
    lemma_total_in_content(pieces);
    lemma_total_reverse(sizes(pieces));
    lemma_settle_small(sizes(pieces).reverse(), content(pieces).len(), PASSES as nat);
    lemma_lefts(pieces);
    assert(content(pieces) + tail_bytes(None) =~= content(pieces));
    assert(shifted(lefts(pieces), 0) =~= lefts(pieces));
    assert(lefts_of(starts(pieces), content(pieces).len() + 0) == lefts(pieces));
    lemma_small_meets(sizes(pieces), lefts(pieces), content(pieces).len(), false);
}

proof fn lemma_pass_len(sizes: Seq<nat>, len: nat)
    ensures
        encode_pass(sizes, len).flatten().len() <= 8 * sizes.len(),
        sizes.len() > 0 && len > 0 ==> encode_pass(sizes, len).flatten().len() > 0,
    decreases sizes.len(),
{
    if sizes.len() == 0 {
        assert(encode_pass(sizes, len) =~= Seq::<Seq<u8>>::empty());
    } else {
        let e = suffix::size_suffix(sizes[0], len);
        suffix::lemma_size_suffix_len(sizes[0], len);
        let next = word(len - e.len() - sizes[0]);
        lemma_pass_len(sizes.drop_first(), next);
        let all = encode_pass(sizes, len);
        assert(all.drop_first() =~= encode_pass(sizes.drop_first(), next));
        assert(all.flatten() == all[0] + all.drop_first().flatten());
    }
}

proof fn lemma_settle_len(sizes: Seq<nat>, content_len: nat, passes: nat)
    requires
        sizes.len() > 0,
        content_len + 8 * sizes.len() <= usize::MAX,
    ensures
        0 < settle(sizes, content_len, passes).flatten().len() <= 8 * sizes.len(),
    decreases passes,
{
    if passes == 0 {
        lemma_flatten_singles(settle(sizes, content_len, 0));
    } else {
        lemma_settle_len(sizes, content_len, (passes - 1) as nat);
        let before = settle(sizes, content_len, (passes - 1) as nat).flatten().len();
        vstd::arithmetic::div_mod::lemma_small_mod(
            content_len + before,
            (usize::MAX + 1) as nat,
        );
        lemma_pass_len(sizes, content_len + before);
    }
}

proof fn lemma_placed_len(sizes: Seq<nat>, lefts: Seq<nat>)
    ensures
        sizes.len() <= placed(sizes, lefts).len() <= 8 * sizes.len(),
    decreases sizes.len(),
{
    if sizes.len() > 0 {
        let after = placed(sizes.drop_first(), lefts.drop_first());
        let room = capped(lefts[0] + after.len());
        lemma_placed_len(sizes.drop_first(), lefts.drop_first());
        suffix::lemma_size_suffix_len(sizes[0], capped(room + width_after(room)));
    }
}

/// A finished buffer begins with the content, and is the content where no size was
/// registered. Sizes add at least one byte, and at most eight each.
pub proof fn law_finished_shape(
    content: Seq<u8>,
    sizes: Seq<nat>,
    starts: Seq<nat>,
    exact: bool,
)
    requires
        sizes.len() > 0 ==> content.len() + 8 * sizes.len() <= usize::MAX,
    ensures
        starts_with(finished(content, sizes, starts, exact), content),
        sizes.len() == 0 ==> finished(content, sizes, starts, exact) == content,
        sizes.len() > 0 ==> content.len() < finished(content, sizes, starts, exact).len()
            <= content.len() + 8 * sizes.len(),
{
    let lefts = lefts_for(sizes, starts, content.len());
    let all = finished(content, sizes, starts, exact);
    assert(all.take(content.len() as int) =~= content);
    if sizes.len() == 0 {
        assert(sizes =~= Seq::<nat>::empty());
        lemma_no_suffixes(lefts, content.len(), exact);
        assert(all =~= content);
    } else {
        lemma_settle_len(sizes.reverse(), content.len(), PASSES as nat);
        lemma_placed_len(sizes, lefts);
    }
}

proof fn lemma_row_lefts(sizes: Seq<nat>, len: nat)
    ensures
        row_lefts(sizes, len).len() == sizes.len(),
        forall|i: int| 0 <= i < sizes.len() ==> #[trigger] row_lefts(sizes, len)[i] <= len,
        total(sizes) <= len ==> forall|i: int|
            0 <= i < sizes.len() ==> sizes[i] <= #[trigger] row_lefts(sizes, len)[i],
    decreases sizes.len(),
{
    if sizes.len() > 0 {
        let after = if sizes[0] <= len {
            (len - sizes[0]) as nat
        } else {
            0
        };
        let rest = row_lefts(sizes.drop_first(), after);
        lemma_row_lefts(sizes.drop_first(), after);
        assert forall|i: int| 0 <= i < sizes.len() implies #[trigger] row_lefts(sizes, len)[i]
            <= len by {
            if i > 0 {
                assert(row_lefts(sizes, len)[i] == rest[i - 1]);
            }
        }
        if total(sizes) <= len {
            assert forall|i: int| 0 <= i < sizes.len() implies sizes[i] <= #[trigger] row_lefts(
                sizes,
                len,
            )[i] by {
                if i > 0 {
                    assert(row_lefts(sizes, len)[i] == rest[i - 1]);
                    assert(sizes[i] == sizes.drop_first()[i - 1]);
                }
            }
        }
    }
}

/// Sizes that were registered together, and not each right after the bytes that it
/// counts, are read in turn by a reader that starts at the front and takes what each
/// of them counts.
pub proof fn law_sizes_in_a_row_are_met(
    sizes: Seq<nat>,
    starts: Seq<nat>,
    content_len: nat,
    exact: bool,
)
    requires
        !in_order(sizes, starts),
        total(sizes) <= content_len,
        content_len + 8 * sizes.len() <= usize::MAX,
    ensures
        meets(
            sizes,
            row_lefts(sizes, content_len),
            suffixes(sizes, lefts_for(sizes, starts, content_len), content_len, exact),
            exact,
        ),
{
    lemma_row_lefts(sizes, content_len);
    lemma_placed_meets(sizes, row_lefts(sizes, content_len), content_len, exact);
}

proof fn lemma_pass_lone(size: nat, len: nat)
    ensures
        encode_pass(seq![size], len).flatten() == suffix::size_suffix(size, len),
{
    let s = seq![size];
    let e = suffix::size_suffix(size, len);
    assert(s.drop_first() =~= Seq::<nat>::empty());
    assert(encode_pass(s.drop_first(), word(len - e.len() - size)) =~= Seq::<Seq<u8>>::empty());
    assert(encode_pass(s, len) =~= seq![e]);
    let one = seq![e];
    assert(one.drop_first() =~= Seq::<Seq<u8>>::empty());
    assert(one.drop_first().flatten() =~= Seq::<u8>::empty());
    assert(one.flatten() =~= e);
}

proof fn lemma_settle_lone_step(size: nat, content_len: nat, passes: nat)
    requires
        content_len + 8 <= usize::MAX,
        settle(seq![size], content_len, passes).flatten().len() <= 8,
    ensures
        ({
            let len = content_len + settle(seq![size], content_len, passes).flatten().len();
            settle(seq![size], content_len, passes + 1).flatten() == suffix::size_suffix(size, len)
        }),
        settle(seq![size], content_len, passes + 1).flatten().len() <= 8,
{
    let len = content_len + settle(seq![size], content_len, passes).flatten().len();
    vstd::arithmetic::div_mod::lemma_small_mod(len, (usize::MAX + 1) as nat);
    lemma_pass_lone(size, len);
    suffix::lemma_size_suffix_len(size, len);
}

/// A lone size settles on the width that its own buffer calls for.
proof fn lemma_settle_lone(size: nat, content_len: nat)
    requires
        content_len + 8 <= usize::MAX,
        size <= content_len,
    ensures
        settle(seq![size], content_len, PASSES as nat).flatten() == endian::be_bytes(
            size as int,
            width_after(content_len),
        ),
        suffix::suffix_width(content_len + width_after(content_len)) == width_after(content_len),
{
    let s = seq![size];
    let w = width_after(content_len);
    assert(settle(s, content_len, 0) =~= seq![seq![0u8]]);
    lemma_flatten_singles(settle(s, content_len, 0));
    lemma_settle_lone_step(size, content_len, 0);
    lemma_settle_lone_step(size, content_len, 1);
    lemma_settle_lone_step(size, content_len, 2);
    lemma_settle_lone_step(size, content_len, 3);
    lemma_settle_lone_step(size, content_len, 4);
    suffix::lemma_size_suffix_len(size, content_len + 1);
    suffix::lemma_size_suffix_len(
        size,
        content_len + settle(s, content_len, 1).flatten().len(),
    );
    suffix::lemma_size_suffix_len(
        size,
        content_len + settle(s, content_len, 2).flatten().len(),
    );
    suffix::lemma_size_suffix_len(
        size,
        content_len + settle(s, content_len, 3).flatten().len(),
    );
    assert(settle(s, content_len, 3).flatten().len() == w);
    assert(settle(s, content_len, 4).flatten().len() == w);
    vstd::arithmetic::div_mod::lemma_small_mod(size, (content_len + 1) as nat);
}

/// Whatever the reader has left of `content_len` bytes for a lone size, it gets the
/// size out of a suffix that is made for all of them.
proof fn lemma_lone_meets(size: nat, left: nat, content_len: nat)
    requires
        size <= left <= content_len,
        content_len + 8 <= usize::MAX,
    ensures
        meets(
            seq![size],
            seq![left],
            endian::be_bytes(size as int, width_after(content_len)),
            false,
        ),
{
    let wide = width_after(content_len);
    let tail = endian::be_bytes(size as int, wide);
    let len = left + wide;
    let w = suffix::suffix_width(len);
    endian::lemma_bytes_len(size as int, wide);
    suffix::lemma_suffix_width(len);
    assert(w <= wide);
    endian::lemma_be_bytes_narrow(size as int, w, wide);
    endian::lemma_be_value_of_bytes(size as int, w);
    vstd::arithmetic::div_mod::lemma_small_mod(size, (len - w + 1) as nat);
    let s = seq![size];
    assert(s.drop_first() =~= Seq::<nat>::empty());
    assert(meets(s.drop_first(), seq![left].drop_first(), tail.take(tail.len() - w), false));
}

/// The only size of a buffer gets the shortest suffix that can hold the length of
/// the content, which is the suffix for a reader of the whole buffer.
pub proof fn law_lone_suffix_is_shortest(content: Seq<u8>, size: nat, start: nat)
    requires
        start + size <= content.len(),
        content.len() + 8 <= usize::MAX,
    ensures
        ({
            let r = finished(content, seq![size], seq![start], false);
            let w = width_after(content.len());
            &&& r == content + endian::be_bytes(size as int, w)
            &&& r == content + suffix::size_suffix(size, r.len())
            &&& r.len() == content.len() + w
        }),
{
    let w = width_after(content.len());
    let s = seq![size];
    assert(s.reverse() =~= s);
    lemma_settle_lone(size, content.len());
    let left = (content.len() - start) as nat;
    assert(lefts_of(seq![start], content.len()) =~= seq![left]);
    assert(in_order(s, seq![start]));
    lemma_lone_meets(size, left, content.len());
    endian::lemma_bytes_len(size as int, w);
    vstd::arithmetic::div_mod::lemma_small_mod(size, (content.len() + 1) as nat);
}

/// Byte strings as counted pieces.
pub open spec fn counted(strings: Seq<Seq<u8>>) -> Seq<Piece> {
    Seq::new(strings.len(), |i: int| Piece::Counted(strings[i]))
}

/// The byte strings that a reader gets out of `data` when it asks `k` times for a
/// size and for as many bytes.
pub open spec fn read_strings(data: Seq<u8>, k: nat) -> Seq<Seq<u8>>
    decreases k,
{
    if k == 0 {
        Seq::empty()
    } else {
        let (n, rest) = suffix::read_size(data);
        seq![rest.take(n as int)] + read_strings(rest.skip(n as int), (k - 1) as nat)
    }
}

proof fn lemma_strings_read_back(strings: Seq<Seq<u8>>, data: Seq<u8>)
    requires
        take_pieces(counted(strings), data) is Some,
    ensures
        read_strings(data, strings.len()) == strings,
    decreases strings.len(),
{
    if strings.len() == 0 {
        assert(read_strings(data, 0) =~= strings);
    } else {
        let rest = strings.drop_first();
        let (n, left) = suffix::read_size(data);
        assert(counted(strings).drop_first() =~= counted(rest));
        lemma_strings_read_back(rest, left.skip(n as int));
        assert(read_strings(data, strings.len()) =~= strings);
    }
}

/// Byte strings that are written each with its size come back in order.
pub proof fn law_counted_strings_read_back(strings: Seq<Seq<u8>>)
    requires
        fits(counted(strings)),
    ensures
        read_strings(laid_out(counted(strings)), strings.len()) == strings,
{
    law_suffixes_align(counted(strings));
    lemma_strings_read_back(strings, laid_out(counted(strings)));
}

} // verus!
