//! Chunks that would not come out of a collection as they went in.
//!
//! A reader takes a collection apart at its separators and makes nothing of an
//! empty chunk. So a chunk that is empty, or that makes a separator appear, cannot
//! stand in a collection as it is. It is written behind a separator of its own, as
//! if an empty chunk came before it, and with its bytes stuffed so that no separator
//! can begin in it. Chunks that stand as they are never leave an empty chunk, so
//! none of them is taken for a stuffed one.

use crate::separator;
use vstd::prelude::*;
use vstd::slice::slice_subrange;

verus! {

/// A byte as it stands in a stuffed chunk: the byte that separators begin with, and
/// the byte that marks it, become two.
pub open spec fn stuffed_byte(b: u8) -> Seq<u8> {
    if b == 0xFE {
        seq![0xFDu8, 1]
    } else if b == 0xFD {
        seq![0xFDu8, 0]
    } else {
        seq![b]
    }
}

/// Bytes as they stand in a stuffed chunk.
pub open spec fn stuffed_bytes(bytes: Seq<u8>) -> Seq<u8>
    decreases bytes.len(),
{
    if bytes.len() == 0 {
        Seq::empty()
    } else {
        stuffed_bytes(bytes.drop_last()) + stuffed_byte(bytes.last())
    }
}

/// A stuffed chunk. An empty one becomes a mark that nothing follows.
pub open spec fn stuffed(chunk: Seq<u8>) -> Seq<u8> {
    if chunk.len() == 0 {
        seq![0xFDu8]
    } else {
        stuffed_bytes(chunk)
    }
}

/// The chunk that was stuffed as `data`.
pub open spec fn unstuffed(data: Seq<u8>) -> Seq<u8>
    decreases data.len(),
{
    if data.len() == 0 {
        Seq::empty()
    } else if data[0] != 0xFD {
        seq![data[0]] + unstuffed(data.skip(1))
    } else if data.len() == 1 {
        Seq::empty()
    } else {
        seq![
            if data[1] == 1 {
                0xFEu8
            } else {
                0xFDu8
            },
        ] + unstuffed(data.skip(2))
    }
}

/// Whether a chunk can stand in a collection as it is: it is not empty, and no
/// separator appears in it, nor with the one that follows it unless it is the last.
pub open spec fn stands(chunk: Seq<u8>, sep: Seq<u8>, last: bool) -> bool {
    &&& chunk.len() > 0
    &&& if last {
        separator::find(chunk, sep, 0) == chunk.len()
    } else {
        separator::find(chunk + sep, sep, 0) == chunk.len()
    }
}

/// A chunk as it stands in a collection.
pub open spec fn guarded(chunk: Seq<u8>, sep: Seq<u8>, last: bool) -> Seq<u8> {
    if stands(chunk, sep, last) {
        chunk
    } else {
        sep + stuffed(chunk)
    }
}

/// The chunks of a collection as they stand in it.
pub open spec fn all_guarded(chunks: Seq<Seq<u8>>, sep: Seq<u8>) -> Seq<Seq<u8>> {
    Seq::new(chunks.len(), |i: int| guarded(chunks[i], sep, i + 1 == chunks.len()))
}

/// The chunks of the collection `data`, taken apart from the front. `marked` says
/// that an empty chunk came before, so that the next one is stuffed.
pub open spec fn taken_apart(data: Seq<u8>, sep: Seq<u8>, marked: bool) -> Seq<Seq<u8>>
    decreases data.len(),
{
    let i = separator::find(data, sep, 0);
    if data.len() == 0 {
        Seq::empty()
    } else if i + sep.len() > data.len() || sep.len() == 0 {
        seq![chunk_of(data, marked)]
    } else if i == 0 {
        taken_apart(data.skip(sep.len() as int), sep, true)
    } else {
        seq![chunk_of(data.take(i as int), marked)] + taken_apart(
            data.skip((i + sep.len()) as int),
            sep,
            false,
        )
    }
}

/// The chunk that stands in a collection as `data`.
pub open spec fn chunk_of(data: Seq<u8>, marked: bool) -> Seq<u8> {
    if marked {
        unstuffed(data)
    } else {
        data
    }
}

proof fn lemma_unstuff_append(bytes: Seq<u8>, more: Seq<u8>)
    ensures
        unstuffed(stuffed_bytes(bytes) + more) == bytes + unstuffed(more),
    decreases bytes.len(),
{
    if bytes.len() == 0 {
        assert(stuffed_bytes(bytes) + more =~= more);
        assert(bytes + unstuffed(more) =~= unstuffed(more));
    } else {
        let b = bytes.last();
        let tail = stuffed_byte(b) + more;
        lemma_unstuff_append(bytes.drop_last(), tail);
        assert(stuffed_bytes(bytes) + more =~= stuffed_bytes(bytes.drop_last()) + tail);
        assert(tail.skip(stuffed_byte(b).len() as int) =~= more);
        assert(unstuffed(tail) == seq![b] + unstuffed(more));
        assert(bytes.drop_last() + (seq![b] + unstuffed(more)) =~= bytes + unstuffed(more));
    }
}

proof fn lemma_stuffed_bytes(bytes: Seq<u8>)
    ensures
        stuffed_bytes(bytes).len() >= bytes.len(),
        forall|i: int|
            0 <= i < stuffed_bytes(bytes).len() ==> #[trigger] stuffed_bytes(bytes)[i] != 0xFE,
    decreases bytes.len(),
{
    if bytes.len() > 0 {
        let before = stuffed_bytes(bytes.drop_last());
        lemma_stuffed_bytes(bytes.drop_last());
        assert forall|i: int| 0 <= i < stuffed_bytes(bytes).len() implies #[trigger] stuffed_bytes(
            bytes,
        )[i] != 0xFE by {
            if i < before.len() {
                assert(stuffed_bytes(bytes)[i] == before[i]);
            }
        }
    }
}

/// What stuffing does to a chunk is undone when the chunk is read. A stuffed chunk
/// is not empty and leaves no separator in it.
pub proof fn law_stuffing_is_undone(chunk: Seq<u8>)
    ensures
        unstuffed(stuffed(chunk)) == chunk,
        stuffed(chunk).len() > 0,
        forall|i: int| 0 <= i < stuffed(chunk).len() ==> #[trigger] stuffed(chunk)[i] != 0xFE,
{
    if chunk.len() == 0 {
        assert(unstuffed(stuffed(chunk)) =~= chunk);
    } else {
        lemma_unstuff_append(chunk, Seq::empty());
        lemma_stuffed_bytes(chunk);
        assert(stuffed(chunk) + Seq::<u8>::empty() =~= stuffed(chunk));
        assert(unstuffed(Seq::<u8>::empty()) =~= Seq::<u8>::empty());
        assert(chunk + Seq::<u8>::empty() =~= chunk);
    }
}

/// Chunks come out of a collection as they went in, whatever they hold.
pub proof fn law_guarded_chunks_come_back(chunks: Seq<Seq<u8>>, depth: u8)
    ensures
        taken_apart(
            separator::joined(
                all_guarded(chunks, separator::separator(depth)),
                separator::separator(depth),
            ),
            separator::separator(depth),
            false,
        ) == chunks,
    decreases chunks.len(),
{
    let sep = separator::separator(depth);
    let all = all_guarded(chunks, sep);
    let data = separator::joined(all, sep);
    if chunks.len() == 0 {
        assert(taken_apart(data, sep, false) =~= chunks);
    } else {
        let chunk = chunks[0];
        let rest = chunks.drop_first();
        let last = chunks.len() == 1;
        let body = if stands(chunk, sep, last) {
            chunk
        } else {
            stuffed(chunk)
        };
        let marked = !stands(chunk, sep, last);
        // What is left for the first chunk, once a separator of its own is behind.
        let here = if last {
            body
        } else {
            body + sep + separator::joined(all_guarded(rest, sep), sep)
        };
        assert(all.drop_first() =~= all_guarded(rest, sep));
        law_guarded_chunks_come_back(rest, depth);
        law_stuffing_is_undone(chunk);
        assert(chunk_of(body, marked) == chunk);
        if marked {
            assert(data =~= sep + here);
            assert(data.subrange(0, sep.len() as int) =~= sep);
            assert(separator::find(data, sep, 0) == 0);
            assert(data.skip(sep.len() as int) =~= here);
            separator::lemma_free_of_separators(body, depth, 0);
        } else {
            assert(data =~= here);
        }
        if last {
            assert(rest =~= Seq::<Seq<u8>>::empty());
            assert(taken_apart(here, sep, marked) =~= chunks);
        } else {
            separator::lemma_find_prefix(body, sep, separator::joined(all_guarded(rest, sep), sep), 0);
            assert(here.take(body.len() as int) =~= body);
            assert(here.skip((body.len() + sep.len()) as int) =~= separator::joined(
                all_guarded(rest, sep),
                sep,
            ));
            assert(taken_apart(here, sep, marked) =~= chunks);
        }
    }
}

/// Chunks that a cut at the separators gives back from their join stand as they
/// are.
pub proof fn law_chunks_that_are_cut_back_stand(chunks: Seq<Seq<u8>>, sep: Seq<u8>)
    requires
        sep.len() > 0,
        separator::cut(separator::joined(chunks, sep), sep) == chunks,
    ensures
        all_guarded(chunks, sep) == chunks,
{
    separator::law_only_separable_chunks_are_cut_back(chunks, sep);
    assert forall|i: int| 0 <= i < chunks.len() implies #[trigger] all_guarded(chunks, sep)[i]
        == chunks[i] by {
        assert(chunks[i].len() > 0);
        if i + 1 == chunks.len() {
            assert(chunks[i] == chunks.last());
        }
    }
    assert(all_guarded(chunks, sep) =~= chunks);
}

/// A chunk as it stands in a collection at `depth`, where `last` says whether
/// nothing follows it.
pub fn guard_chunk(chunk: Vec<u8>, depth: u8, last: bool) -> (r: Vec<u8>)
    ensures
        r@ == guarded(chunk@, separator::separator(depth), last),
{
    let sep: [u8; 4] = separator::separator_for_depth(depth);
    let mut probe: Vec<u8> = Vec::new();
    probe.extend_from_slice(&chunk);
    proof {
        assert(probe@ =~= chunk@);
    }
    if !last {
        probe.extend_from_slice(&sep);
        proof {
            assert(probe@ =~= chunk@ + sep@);
        }
    }
    if chunk.len() > 0 && separator::find_separator(&probe, &sep, 0) == chunk.len() {
        return chunk;
    }
    let mut out: Vec<u8> = Vec::new();
    out.extend_from_slice(&sep);
    proof {
        assert(out@ =~= sep@);
    }
    if chunk.len() == 0 {
        out.push(0xFD);
        proof {
            assert(out@ =~= sep@ + stuffed(chunk@));
        }
        return out;
    }
    let mut i: usize = 0;
    proof {
        assert(chunk@.take(0) =~= Seq::<u8>::empty());
        assert(out@ =~= sep@ + stuffed_bytes(chunk@.take(0)));
    }
    while i < chunk.len()
        invariant
            i <= chunk@.len(),
            out@ == sep@ + stuffed_bytes(chunk@.take(i as int)),
        decreases chunk@.len() - i,
    {
        let b: u8 = chunk[i];
        if b == 0xFE {
            out.push(0xFD);
            out.push(1);
        } else if b == 0xFD {
            out.push(0xFD);
            out.push(0);
        } else {
            out.push(b);
        }
        proof {
            assert(chunk@.take(i + 1).drop_last() =~= chunk@.take(i as int));
            assert(out@ =~= sep@ + stuffed_bytes(chunk@.take(i + 1)));
        }
        i = i + 1;
    }
    proof {
        assert(chunk@.take(i as int) =~= chunk@);
    }
    out
}

/// The chunk that was stuffed as `data`.
fn unstuff(data: &[u8]) -> (r: Vec<u8>)
    ensures
        r@ == unstuffed(data@),
{
    let mut out: Vec<u8> = Vec::new();
    let ghost whole = unstuffed(data@);
    let mut i: usize = 0;
    proof {
        assert(data@.skip(0) =~= data@);
        assert(out@ + whole =~= whole);
    }
    while i < data.len()
        invariant
            i <= data@.len(),
            out@ + unstuffed(data@.skip(i as int)) == whole,
        decreases data@.len() - i,
    {
        let ghost before = out@;
        let ghost here = data@.skip(i as int);
        if data[i] != 0xFD {
            let b: u8 = data[i];
            out.push(b);
            proof {
                assert(here.skip(1) =~= data@.skip(i + 1));
                assert(before.push(b) + unstuffed(here.skip(1)) =~= before + (seq![b] + unstuffed(
                    here.skip(1),
                )));
            }
            i = i + 1;
        } else if data.len() - i == 1 {
            proof {
                assert(data@.skip(i + 1) =~= Seq::<u8>::empty());
            }
            i = i + 1;
        } else {
            let b: u8 = if data[i + 1] == 1 {
                0xFE
            } else {
                0xFD
            };
            out.push(b);
            proof {
                assert(here.skip(2) =~= data@.skip(i + 2));
                assert(before.push(b) + unstuffed(here.skip(2)) =~= before + (seq![b] + unstuffed(
                    here.skip(2),
                )));
            }
            i = i + 2;
        }
    }
    proof {
        assert(data@.skip(i as int) =~= Seq::<u8>::empty());
        assert(out@ + unstuffed(data@.skip(i as int)) =~= out@);
    }
    out
}

/// The chunk that stands in a collection as `data`.
fn read_chunk(data: &[u8], marked: bool) -> (r: Vec<u8>)
    ensures
        r@ == chunk_of(data@, marked),
{
    if marked {
        return unstuff(data);
    }
    let mut out: Vec<u8> = Vec::new();
    out.extend_from_slice(data);
    proof {
        assert(out@ =~= data@);
    }
    out
}

/// The chunks of a collection at `depth`.
pub fn take_apart(data: &[u8], depth: u8) -> (chunks: Vec<Vec<u8>>)
    ensures
        chunks@.len() == taken_apart(data@, separator::separator(depth), false).len(),
        forall|i: int|
            0 <= i < chunks@.len() ==> (#[trigger] chunks@[i])@ == taken_apart(
                data@,
                separator::separator(depth),
                false,
            )[i],
{
    let sep: [u8; 4] = separator::separator_for_depth(depth);
    let mut chunks: Vec<Vec<u8>> = Vec::new();
    let mut rest: &[u8] = data;
    let mut marked: bool = false;
    let ghost all = taken_apart(data@, sep@, false);
    let ghost mut done: Seq<Seq<u8>> = Seq::empty();
    proof {
        assert(done + taken_apart(rest@, sep@, marked) =~= all);
    }
    while rest.len() > 0
        invariant
            sep@ == separator::separator(depth),
            all == taken_apart(data@, sep@, false),
            done + taken_apart(rest@, sep@, marked) == all,
            chunks@.len() == done.len(),
            forall|i: int| 0 <= i < chunks@.len() ==> (#[trigger] chunks@[i])@ == done[i],
        decreases rest@.len(),
    {
        let at: usize = separator::find_separator(rest, &sep, 0);
        let ghost before = done;
        if rest.len() - at < 4 {
            let chunk: Vec<u8> = read_chunk(rest, marked);
            proof {
                done = done.push(chunk@);
                assert(done + taken_apart(Seq::<u8>::empty(), sep@, false) =~= all);
            }
            chunks.push(chunk);
            rest = slice_subrange(rest, rest.len(), rest.len());
            marked = false;
            proof {
                assert(rest@ =~= Seq::<u8>::empty());
            }
        } else {
            let next: &[u8] = slice_subrange(rest, at + 4, rest.len());
            proof {
                assert(next@ =~= rest@.skip(at + 4));
            }
            if at == 0 {
                marked = true;
            } else {
                let front: &[u8] = slice_subrange(rest, 0, at);
                let chunk: Vec<u8> = read_chunk(front, marked);
                proof {
                    assert(front@ =~= rest@.take(at as int));
                    done = done.push(chunk@);
                    assert(done + taken_apart(next@, sep@, false) =~= before + taken_apart(
                        rest@,
                        sep@,
                        marked,
                    ));
                }
                chunks.push(chunk);
                marked = false;
            }
            rest = next;
        }
    }
    proof {
        assert(done + taken_apart(rest@, sep@, marked) =~= done);
    }
    chunks
}

} // verus!
