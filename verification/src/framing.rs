//! Sizes, suffixes and separators, as the bytes around the values.

use crate::endian;
use crate::guard;
use crate::layout;
use crate::layout::Piece;
use crate::separator;
use crate::structured::Written;
use crate::suffix;
use crate::wire;
use vstd::arithmetic::power;
use vstd::prelude::*;

verus! {

/// A size is stored in the first of one, two, four and eight bytes that counts all
/// the bytes before it. An empty buffer stores none.
pub proof fn law_suffix_is_as_short_as_it_can_be(len: nat)
    ensures
        ({
            let w = suffix::suffix_width(len);
            &&& len == 0 <==> w == 0
            &&& w == 0 || w == 1 || w == 2 || w == 4 || w == 8
            &&& w == 1 ==> len - 1 < power::pow(256, 1)
            &&& w == 2 ==> len - 2 < power::pow(256, 2) && len - 1 >= power::pow(256, 1)
            &&& w == 4 ==> len - 4 < power::pow(256, 4) && len - 2 >= power::pow(256, 2)
            &&& w == 8 ==> len - 4 >= power::pow(256, 4)
        }),
{
    endian::lemma_pow256_widths();
    wire::lemma_power(1);
    wire::lemma_power(2);
    wire::lemma_power(4);
}

/// A suffix holds the digits of its size, the lowest one last. A size that the buffer
/// has no room for is taken modulo one more than the room.
pub proof fn law_suffix_holds_the_size(size: nat, len: nat, i: nat)
    requires
        i < suffix::suffix_width(len),
    ensures
        ({
            let w = suffix::suffix_width(len);
            let stored = if size <= len - w {
                size as int
            } else {
                size as int % (len - w + 1)
            };
            &&& suffix::size_suffix(size, len).len() == w
            &&& suffix::size_suffix(size, len)[w - 1 - i] == (stored / power::pow(256, i)) % 256
        }),
{
    let w = suffix::suffix_width(len);
    suffix::lemma_suffix_width(len);
    suffix::lemma_size_suffix_len(size, len);
    if size <= len - w {
        vstd::arithmetic::div_mod::lemma_small_mod(size, (len - w + 1) as nat);
    }
    wire::law_bytes_are_digits(size as int % (len - w + 1), w, i);
}

/// A size is read from the last bytes, as many as the length of the data asks for, and
/// never counts more than what stands before them: a larger number is taken modulo one
/// more than that.
pub proof fn law_size_is_read_from_the_end(data: Seq<u8>)
    ensures
        ({
            let w = suffix::suffix_width(data.len());
            let (n, rest) = suffix::read_size(data);
            let stored = endian::be_value(data.skip(data.len() - w));
            &&& w <= data.len()
            &&& rest == data.take(data.len() - w)
            &&& n <= rest.len()
            &&& stored <= rest.len() ==> n == stored
            &&& stored > rest.len() ==> (stored - n) % (rest.len() as int + 1) == 0
        }),
{
    let w = suffix::suffix_width(data.len());
    suffix::lemma_suffix_width(data.len());
    let stored = endian::be_value(data.skip(data.len() - w)) as int;
    let m = data.len() - w + 1;
    vstd::arithmetic::div_mod::lemma_mod_bound(stored, m);
    if stored < m {
        vstd::arithmetic::div_mod::lemma_small_mod(stored as nat, m as nat);
    }
    vstd::arithmetic::div_mod::lemma_fundamental_div_mod(stored, m);
    assert((m * (stored / m)) % m == 0) by {
        vstd::arithmetic::div_mod::lemma_mod_multiples_basic(stored / m, m);
        vstd::arithmetic::mul::lemma_mul_is_commutative(stored / m, m);
    }
}

/// A separator is four bytes, and tells its depth.
pub proof fn law_separator_tells_its_depth(depth: u8, other: u8)
    ensures
        separator::separator(depth).len() == 4,
        separator::separator(depth)[0] == 0xFE,
        separator::separator(depth)[1] == 0xED,
        separator::separator(depth)[2] == 0xFA,
        separator::separator(depth)[3] == depth,
        separator::separator(depth) == separator::separator(other) ==> depth == other,
{
    assert(separator::separator(depth)[3] == depth);
    assert(separator::separator(other)[3] == other);
}

/// The first separator is found: none begins before it, and one begins there, or there
/// is none up to the end.
pub proof fn law_first_separator_is_found(data: Seq<u8>, sep: Seq<u8>, from: nat)
    requires
        sep.len() > 0,
        from <= data.len(),
    ensures
        ({
            let at = separator::find(data, sep, from);
            &&& from <= at <= data.len()
            &&& at < data.len() ==> at + sep.len() <= data.len() && data.subrange(
                at as int,
                (at + sep.len()) as int,
            ) == sep
            &&& forall|j: int|
                from <= j < at && j + sep.len() <= data.len() ==> #[trigger] data.subrange(
                    j,
                    (j + sep.len()) as int,
                ) != sep
        }),
    decreases data.len() - from,
{
    if from + sep.len() <= data.len() && from < data.len() && !separator::sep_at(
        data,
        sep,
        from as int,
    ) {
        law_first_separator_is_found(data, sep, from + 1);
    }
}

/// Data without empty chunks is taken apart by a cut at its separators.
pub proof fn law_chunks_are_cut_at_separators(data: Seq<u8>, sep: Seq<u8>)
    requires
        sep.len() > 0,
        separator::joined(separator::cut(data, sep), sep) == data,
    ensures
        guard::taken_apart(data, sep, false) == separator::cut(data, sep),
    decreases data.len(),
{
    let i = separator::find(data, sep, 0);
    separator::lemma_find_place(data, sep, 0);
    if data.len() > 0 && i + sep.len() <= data.len() {
        let rest = data.skip((i + sep.len()) as int);
        let all = separator::cut(rest, sep);
        separator::lemma_cut_len(rest, sep);
        if i > 0 {
            let c = data.take(i as int);
            let row = seq![c] + all;
            assert(row.drop_first() =~= all);
            if all.len() == 0 {
                assert(separator::joined(row, sep) == c);
                assert(false);
            }
            assert(data =~= c + sep + separator::joined(all, sep));
            assert(rest =~= separator::joined(all, sep));
            law_chunks_are_cut_at_separators(rest, sep);
        }
    }
}

/// A chunk that does not stand as it is, is marked by a separator in front of it.
pub proof fn law_other_chunks_are_marked(chunk: Seq<u8>, depth: u8, last: bool)
    ensures
        ({
            let sep = separator::separator(depth);
            let g = guard::guarded(chunk, sep, last);
            &&& g == chunk || (g.len() > sep.len() && g.take(sep.len() as int) == sep && forall|
                i: int,
            |
                sep.len() <= i < g.len() ==> #[trigger] g[i] != 0xFE)
            &&& chunk.len() == 0 ==> g != chunk
        }),
{
    let sep = separator::separator(depth);
    let g = guard::guarded(chunk, sep, last);
    guard::law_stuffing_is_undone(chunk);
    if g != chunk {
        assert(g.take(sep.len() as int) =~= sep);
        assert forall|i: int| sep.len() <= i < g.len() implies #[trigger] g[i] != 0xFE by {
            assert(g[i] == guard::stuffed(chunk)[i - sep.len()]);
        }
    }
    if chunk.len() == 0 {
        assert(g.len() > 0);
    }
}

/// What is written last is last: its bytes end the content, and its length the sizes
/// where it is counted.
pub proof fn law_pieces_are_written_in_order(pieces: Seq<Piece>, b: Seq<u8>)
    ensures
        layout::content(Seq::empty()).len() == 0,
        layout::sizes(Seq::empty()).len() == 0,
        layout::starts(Seq::empty()).len() == 0,
        layout::content(pieces.push(Piece::Plain(b))) == layout::content(pieces) + b,
        layout::sizes(pieces.push(Piece::Plain(b))) == layout::sizes(pieces),
        layout::starts(pieces.push(Piece::Plain(b))) == layout::starts(pieces),
        layout::content(pieces.push(Piece::Counted(b))) == layout::content(pieces) + b,
        layout::sizes(pieces.push(Piece::Counted(b))) == layout::sizes(pieces).push(b.len()),
        layout::starts(pieces.push(Piece::Counted(b))) == layout::starts(pieces).push(
            layout::content(pieces).len(),
        ),
{
    let plain = seq![Piece::Plain(b)];
    let counted = seq![Piece::Counted(b)];
    layout::lemma_pieces_append(pieces, plain);
    layout::lemma_pieces_append(pieces, counted);
    layout::lemma_plain(b);
    layout::lemma_counted(b);
    assert(pieces.push(Piece::Plain(b)) =~= pieces + plain);
    assert(pieces.push(Piece::Counted(b)) =~= pieces + counted);
    assert(layout::starts(pieces.push(Piece::Plain(b))) =~= layout::starts(pieces));
    assert(layout::starts(pieces.push(Piece::Counted(b))) =~= layout::starts(pieces).push(
        layout::content(pieces).len(),
    ));
}

/// A suffix behind `room` bytes is as wide as a reader of all of them takes it.
pub proof fn law_width_behind_is_the_width_taken(room: nat)
    ensures
        suffix::suffix_width(room + layout::width_after(room)) == layout::width_after(room),
{
}

/// A pass encodes each size for the length that is left: the first for all of it, and
/// each one after that for what its forerunner's suffix and bytes leave, in machine
/// words.
pub proof fn law_pass_encodes_for_what_is_left(sizes: Seq<nat>, lens: Seq<nat>, i: int)
    requires
        lens.len() == sizes.len(),
        sizes.len() > 0,
        forall|j: int|
            0 <= j < sizes.len() - 1 ==> lens[j + 1] == (#[trigger] lens[j]
                - suffix::suffix_width(lens[j]) - sizes[j]) % (usize::MAX + 1),
        0 <= i < sizes.len(),
    ensures
        layout::encode_pass(sizes, lens[0]).len() == sizes.len(),
        layout::encode_pass(sizes, lens[0])[i] == suffix::size_suffix(sizes[i], lens[i]),
    decreases sizes.len(),
{
    let rest = sizes.drop_first();
    let after = lens.drop_first();
    suffix::lemma_size_suffix_len(sizes[0], lens[0]);
    reveal_with_fuel(layout::encode_pass, 2);
    if rest.len() > 0 {
        assert(lens[1] == (lens[0] - suffix::suffix_width(lens[0]) - sizes[0]) % (usize::MAX
            + 1));
        assert forall|j: int| 0 <= j < rest.len() - 1 implies after[j + 1] == (#[trigger] after[j]
            - suffix::suffix_width(after[j]) - rest[j]) % (usize::MAX + 1) by {
            assert(after[j] == lens[j + 1]);
            assert(after[j + 1] == lens[j + 1 + 1]);
        }
        law_pass_encodes_for_what_is_left(
            rest,
            after,
            if i > 0 {
                i - 1
            } else {
                0
            },
        );
    }
}

/// Five passes are made, each for the length that the one before it gives the buffer;
/// before the first, a suffix counts as one byte. What they end with is kept where a
/// reader gets the sizes out of it.
pub proof fn law_passes_refine_the_suffixes(
    sizes: Seq<nat>,
    lefts: Seq<nat>,
    content_len: nat,
    exact: bool,
    passes: Seq<Seq<Seq<u8>>>,
)
    requires
        passes.len() == 5,
        passes[0] == layout::encode_pass(
            sizes.reverse(),
            ((content_len as int + sizes.len()) % (usize::MAX + 1)) as nat,
        ),
        forall|k: int|
            1 <= k < 5 ==> #[trigger] passes[k] == layout::encode_pass(
                sizes.reverse(),
                ((content_len as int + passes[k - 1].flatten().len()) % (usize::MAX + 1)) as nat,
            ),
    ensures
        layout::meets(sizes, lefts, passes[4].flatten(), exact) ==> layout::suffixes(
            sizes,
            lefts,
            content_len,
            exact,
        ) == passes[4].flatten(),
{
    let r = sizes.reverse();
    let zeros = Seq::new(r.len(), |i: int| seq![0u8]);
    lemma_flat_len(zeros);
    reveal_with_fuel(layout::settle, 6);
    assert(layout::settle(r, content_len, 0) =~= zeros);
    assert(layout::settle(r, content_len, 1) == passes[0]);
    assert(layout::settle(r, content_len, 2) == passes[1]);
    assert(layout::settle(r, content_len, 3) == passes[2]);
    assert(layout::settle(r, content_len, 4) == passes[3]);
    assert(layout::settle(r, content_len, 5) == passes[4]);
}

proof fn lemma_flat_len(zeros: Seq<Seq<u8>>)
    requires
        forall|i: int| 0 <= i < zeros.len() ==> (#[trigger] zeros[i]).len() == 1,
    ensures
        zeros.flatten().len() == zeros.len(),
    decreases zeros.len(),
{
    if zeros.len() > 0 {
        lemma_flat_len(zeros.drop_first());
    }
}

proof fn lemma_taken_len(pieces: Seq<Piece>, data: Seq<u8>)
    ensures
        layout::take_pieces(pieces, data) matches Some(left) ==> data.len() >= layout::content(
            pieces,
        ).len() + left.len(),
    decreases pieces.len(),
{
    if pieces.len() > 0 {
        let rest = pieces.drop_first();
        match pieces[0] {
            Piece::Plain(b) => {
                lemma_taken_len(rest, data.skip(b.len() as int));
            },
            Piece::Counted(b) => {
                suffix::lemma_suffix_width(data.len());
                lemma_taken_len(rest, suffix::read_size(data).1.skip(b.len() as int));
            },
        }
    }
}

proof fn lemma_taken_meets(pieces: Seq<Piece>, after: Seq<u8>, tail: Seq<u8>, exact: bool)
    requires
        layout::take_pieces(pieces, layout::content(pieces) + after + tail) is Some,
        exact ==> layout::take_pieces(pieces, layout::content(pieces) + after + tail) == Some(
            after,
        ),
        !exact ==> after.len() == 0,
        layout::content(pieces).len() + after.len() + tail.len() <= usize::MAX,
    ensures
        layout::meets(
            layout::sizes(pieces),
            layout::shifted(layout::lefts(pieces), after.len()),
            tail,
            exact,
        ),
    decreases pieces.len(),
{
    let data = layout::content(pieces) + after + tail;
    if pieces.len() == 0 {
        if exact {
            assert(data.len() == after.len());
        }
    } else {
        let rest = pieces.drop_first();
        match pieces[0] {
            Piece::Plain(b) => {
                assert(data.skip(b.len() as int) =~= layout::content(rest) + after + tail);
                lemma_taken_meets(rest, after, tail, exact);
            },
            Piece::Counted(b) => {
                let w = suffix::suffix_width(data.len());
                suffix::lemma_suffix_width(data.len());
                let left = suffix::read_size(data).1;
                lemma_taken_len(rest, left.skip(b.len() as int));
                assert(w <= tail.len());
                let kept = tail.take(tail.len() - w);
                assert(layout::sizes(pieces).drop_first() =~= layout::sizes(rest));
                assert(layout::shifted(layout::lefts(pieces), after.len()).drop_first()
                    =~= layout::shifted(layout::lefts(rest), after.len()));
                assert(data.skip(data.len() - w) =~= tail.skip(tail.len() - w));
                assert(left =~= layout::content(pieces) + after + kept);
                assert(left.skip(b.len() as int) =~= layout::content(rest) + after + kept);
                lemma_taken_meets(rest, after, kept, exact);
            },
        }
    }
}

/// What five passes end with is kept wherever a reader takes the pieces out of the
/// buffer that it makes, and then exactly the bytes for a reader that takes all the
/// rest.
pub proof fn law_settled_suffixes_are_kept_where_they_read_back(
    pieces: Seq<Piece>,
    tail: Option<Seq<u8>>,
    all: Seq<u8>,
    passes: Seq<Seq<Seq<u8>>>,
)
    requires
        all == layout::content(pieces) + match tail {
            Some(b) => b,
            None => Seq::empty(),
        },
        passes.len() == 5,
        passes[0] == layout::encode_pass(
            layout::sizes(pieces).reverse(),
            ((all.len() as int + layout::sizes(pieces).len()) % (usize::MAX + 1)) as nat,
        ),
        forall|k: int|
            1 <= k < 5 ==> #[trigger] passes[k] == layout::encode_pass(
                layout::sizes(pieces).reverse(),
                ((all.len() as int + passes[k - 1].flatten().len()) % (usize::MAX + 1)) as nat,
            ),
        layout::takes_rest(pieces, tail, all + passes[4].flatten()),
        all.len() + passes[4].flatten().len() <= usize::MAX,
    ensures
        layout::laid_out_rest(pieces, tail) == all + passes[4].flatten(),
{
    let after = layout::tail_bytes(tail);
    let left = layout::shifted(layout::lefts(pieces), after.len());
    layout::lemma_lefts(pieces);
    assert(all.len() == layout::content(pieces).len() + after.len());
    assert(layout::lefts_for(layout::sizes(pieces), layout::starts(pieces), all.len()) == left);
    lemma_taken_meets(pieces, after, passes[4].flatten(), tail is Some);
    law_passes_refine_the_suffixes(
        layout::sizes(pieces),
        left,
        all.len(),
        tail is Some,
        passes,
    );
}

/// What each way of writing does to a builder.
pub proof fn law_builder_keeps_what_was_written(
    w: Written,
    pieces: Seq<Piece>,
    size: nat,
    tail: Seq<u8>,
    depth: u8,
)
    ensures
        Written::empty(depth).content.len() == 0,
        Written::empty(depth).sizes.len() == 0,
        Written::empty(depth).depth == depth,
        !Written::empty(depth).exact,
        w.with(pieces).content == w.content + layout::content(pieces),
        w.with(pieces).sizes == w.sizes + layout::sizes(pieces),
        w.with(pieces).depth == w.depth,
        w.with(pieces).exact <==> w.exact && layout::sizes(pieces).len() == 0,
        w.with_size(size).content == w.content,
        w.with_size(size).sizes == w.sizes.push(size),
        w.with_size(size).depth == w.depth,
        !w.with_size(size).exact,
        w.with_size(size).starts == w.starts.push(
            if size <= w.content.len() {
                (w.content.len() - size) as nat
            } else {
                0
            },
        ),
        w.with_tail(Some(tail)).content == w.content + tail,
        w.with_tail(Some(tail)).sizes == w.sizes,
        w.with_tail(Some(tail)).depth == w.depth,
        w.with_tail(Some(tail)).exact,
        w.with_tail(None) == w,
{
}

} // verus!
