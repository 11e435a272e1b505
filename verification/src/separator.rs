//! Separators between the elements of a collection.

use vstd::prelude::*;

verus! {

/// The separator between elements of a collection at nesting depth `depth`.
///
/// Its first byte never occurs in UTF-8.
pub open spec fn separator(depth: u8) -> Seq<u8> {
    seq![0xFEu8, 0xED, 0xFA, depth]
}

/// The separator magic for a nesting depth.
pub fn separator_for_depth(depth: u8) -> (sep: [u8; 4])
    ensures
        sep@ == separator(depth),
{
    let sep: [u8; 4] = [0xFE, 0xED, 0xFA, depth];
    proof {
        assert(sep@ =~= separator(depth));
    }
    sep
}

/// Whether `sep` stands in `data` at `i`.
pub open spec fn sep_at(data: Seq<u8>, sep: Seq<u8>, i: int) -> bool {
    0 <= i && i + sep.len() <= data.len() && data.subrange(i, i + sep.len()) == sep
}

/// The first place at or after `from` where `sep` stands in `data`, or the length
/// of `data` where there is none.
pub open spec fn find(data: Seq<u8>, sep: Seq<u8>, from: nat) -> nat
    decreases data.len() - from,
{
    if from + sep.len() > data.len() || from >= data.len() {
        data.len()
    } else if sep_at(data, sep, from as int) {
        from
    } else {
        find(data, sep, from + 1)
    }
}

/// `data` cut at every `sep`, from the front. Empty chunks are dropped.
pub open spec fn cut(data: Seq<u8>, sep: Seq<u8>) -> Seq<Seq<u8>>
    decreases data.len(),
{
    let i = find(data, sep, 0);
    if data.len() == 0 {
        Seq::empty()
    } else if i + sep.len() > data.len() || sep.len() == 0 {
        seq![data]
    } else {
        let rest = cut(data.skip((i + sep.len()) as int), sep);
        if i == 0 {
            rest
        } else {
            seq![data.take(i as int)] + rest
        }
    }
}

/// `chunks` in a row with `sep` between them.
pub open spec fn joined(chunks: Seq<Seq<u8>>, sep: Seq<u8>) -> Seq<u8>
    decreases chunks.len(),
{
    if chunks.len() == 0 {
        Seq::empty()
    } else if chunks.len() == 1 {
        chunks[0]
    } else {
        chunks[0] + sep + joined(chunks.drop_first(), sep)
    }
}

/// Whether `chunks` can be told apart once they are joined: none is empty, and
/// none makes `sep` stand anywhere but between two of them.
pub open spec fn separable(chunks: Seq<Seq<u8>>, sep: Seq<u8>) -> bool {
    &&& forall|i: int| 0 <= i < chunks.len() ==> (#[trigger] chunks[i]).len() > 0
    &&& forall|i: int|
        0 <= i < chunks.len() - 1 ==> find(#[trigger] chunks[i] + sep, sep, 0) == chunks[i].len()
    &&& chunks.len() > 0 ==> find(chunks.last(), sep, 0) == chunks.last().len()
}

/// What follows the first separator does not move it.
pub proof fn lemma_find_prefix(chunk: Seq<u8>, sep: Seq<u8>, tail: Seq<u8>, from: nat)
    requires
        sep.len() > 0,
        from <= chunk.len(),
        find(chunk + sep, sep, from) == chunk.len(),
    ensures
        find(chunk + sep + tail, sep, from) == chunk.len(),
    decreases chunk.len() - from,
{
    let short = chunk + sep;
    let long = short + tail;
    assert(long.subrange(from as int, (from + sep.len()) as int) =~= short.subrange(
        from as int,
        (from + sep.len()) as int,
    ));
    if from < chunk.len() {
        lemma_find_prefix(chunk, sep, tail, from + 1);
    } else {
        assert(short.subrange(from as int, (from + sep.len()) as int) =~= sep);
    }
}

/// Separable chunks come out of their join as they went in.
pub proof fn law_cut_undoes_join(chunks: Seq<Seq<u8>>, sep: Seq<u8>)
    requires
        sep.len() > 0,
        separable(chunks, sep),
    ensures
        cut(joined(chunks, sep), sep) == chunks,
    decreases chunks.len(),
{
    let data = joined(chunks, sep);
    if chunks.len() == 0 {
        assert(cut(data, sep) =~= chunks);
    } else if chunks.len() == 1 {
        assert(cut(data, sep) =~= chunks);
    } else {
        let first = chunks[0];
        let rest = chunks.drop_first();
        assert(rest.last() == chunks.last());
        assert forall|i: int| 0 <= i < rest.len() implies (#[trigger] rest[i]).len() > 0 by {
            assert(rest[i] == chunks[i + 1]);
        }
        assert forall|i: int| 0 <= i < rest.len() - 1 implies find(#[trigger] rest[i] + sep, sep, 0)
            == rest[i].len() by {
            assert(rest[i] == chunks[i + 1]);
        }
        law_cut_undoes_join(rest, sep);
        lemma_find_prefix(first, sep, joined(rest, sep), 0);
        assert(data.skip((first.len() + sep.len()) as int) =~= joined(rest, sep));
        assert(data.take(first.len() as int) =~= first);
        assert(cut(data, sep) =~= chunks);
    }
}

/// A place that is found holds the separator, or is the end.
pub proof fn lemma_find_place(data: Seq<u8>, sep: Seq<u8>, from: nat)
    requires
        from <= data.len(),
    ensures
        from <= find(data, sep, from) <= data.len(),
        find(data, sep, from) == data.len() || find(data, sep, from) + sep.len() <= data.len(),
    decreases data.len() - from,
{
    if from + sep.len() <= data.len() && from < data.len() && !sep_at(data, sep, from as int) {
        lemma_find_place(data, sep, from + 1);
    }
}

/// What follows the first separator is not needed to find it.
proof fn lemma_find_in_front(chunk: Seq<u8>, sep: Seq<u8>, tail: Seq<u8>, from: nat)
    requires
        sep.len() > 0,
        from <= chunk.len(),
        find(chunk + sep + tail, sep, from) == chunk.len(),
    ensures
        find(chunk + sep, sep, from) == chunk.len(),
    decreases chunk.len() - from,
{
    let short = chunk + sep;
    let long = short + tail;
    assert(long.subrange(from as int, (from + sep.len()) as int) =~= short.subrange(
        from as int,
        (from + sep.len()) as int,
    ));
    if from < chunk.len() {
        lemma_find_in_front(chunk, sep, tail, from + 1);
    } else {
        assert(short.subrange(from as int, (from + sep.len()) as int) =~= sep);
    }
}

/// A cut adds no bytes.
pub proof fn lemma_cut_len(data: Seq<u8>, sep: Seq<u8>)
    requires
        sep.len() > 0,
    ensures
        joined(cut(data, sep), sep).len() <= data.len(),
    decreases data.len(),
{
    let i = find(data, sep, 0);
    lemma_find_place(data, sep, 0);
    if data.len() > 0 && i + sep.len() <= data.len() {
        let rest = cut(data.skip((i + sep.len()) as int), sep);
        lemma_cut_len(data.skip((i + sep.len()) as int), sep);
        if i > 0 {
            assert(cut(data, sep).drop_first() =~= rest);
        }
    }
}

/// Only separable chunks come out of their join by a cut as they went in.
pub proof fn law_only_separable_chunks_are_cut_back(chunks: Seq<Seq<u8>>, sep: Seq<u8>)
    requires
        sep.len() > 0,
        cut(joined(chunks, sep), sep) == chunks,
    ensures
        separable(chunks, sep),
    decreases chunks.len(),
{
    let data = joined(chunks, sep);
    let i = find(data, sep, 0);
    lemma_find_place(data, sep, 0);
    if chunks.len() > 0 {
        assert(data.len() > 0);
        if i + sep.len() <= data.len() {
            let behind = data.skip((i + sep.len()) as int);
            lemma_cut_len(behind, sep);
            if i == 0 {
                assert(cut(behind, sep) == chunks);
                assert(false);
            }
            let rest = chunks.drop_first();
            assert(chunks[0] == data.take(i as int));
            assert(cut(behind, sep) =~= rest);
            if chunks.len() == 1 {
                assert(chunks[0].len() == data.len());
                assert(false);
            }
            assert(behind =~= joined(rest, sep));
            law_only_separable_chunks_are_cut_back(rest, sep);
            lemma_find_in_front(chunks[0], sep, joined(rest, sep), 0);
            assert(chunks.last() == rest.last());
            assert forall|j: int| 0 <= j < chunks.len() implies (#[trigger] chunks[j]).len()
                > 0 by {
                if j > 0 {
                    assert(chunks[j] == rest[j - 1]);
                }
            }
            assert forall|j: int| 0 <= j < chunks.len() - 1 implies find(
                #[trigger] chunks[j] + sep,
                sep,
                0,
            ) == chunks[j].len() by {
                if j > 0 {
                    assert(chunks[j] == rest[j - 1]);
                }
            }
        } else {
            assert(chunks =~= seq![data]);
        }
    }
}

/// A chunk without the byte that separators begin with holds no separator, and
/// none begins in it.
pub proof fn lemma_free_of_separators(chunk: Seq<u8>, depth: u8, from: nat)
    requires
        forall|i: int| 0 <= i < chunk.len() ==> #[trigger] chunk[i] != 0xFE,
        from <= chunk.len(),
    ensures
        find(chunk, separator(depth), from) == chunk.len(),
        find(chunk + separator(depth), separator(depth), from) == chunk.len(),
    decreases chunk.len() - from,
{
    let sep = separator(depth);
    let long = chunk + sep;
    if from < chunk.len() {
        lemma_free_of_separators(chunk, depth, from + 1);
        if sep_at(long, sep, from as int) {
            assert(long.subrange(from as int, (from + sep.len()) as int)[0] == chunk[from as int]);
        }
        if sep_at(chunk, sep, from as int) {
            assert(chunk.subrange(from as int, (from + sep.len()) as int)[0] == chunk[from as int]);
        }
    } else {
        assert(long.subrange(from as int, (from + sep.len()) as int) =~= sep);
    }
}

/// The first place at or after `from` where `sep` stands in `data`.
pub(crate) fn find_separator(data: &[u8], sep: &[u8; 4], from: usize) -> (at: usize)
    requires
        from <= data@.len(),
    ensures
        at == find(data@, sep@, from as nat),
        at <= data@.len(),
{
    let mut i: usize = from;
    while data.len() - i >= 4
        invariant
            from <= i <= data@.len(),
            find(data@, sep@, i as nat) == find(data@, sep@, from as nat),
        decreases data@.len() - i,
    {
        if data[i] == sep[0] && data[i + 1] == sep[1] && data[i + 2] == sep[2] && data[i + 3]
            == sep[3] {
            proof {
                assert(data@.subrange(i as int, i + 4) =~= sep@);
            }
            return i;
        }
        proof {
            if sep_at(data@, sep@, i as int) {
                let here = data@.subrange(i as int, i + 4);
                assert(here[0] == sep@[0] && here[1] == sep@[1] && here[2] == sep@[2] && here[3]
                    == sep@[3]);
            }
        }
        i = i + 1;
    }
    data.len()
}

} // verus!
