//! The write side: a builder for byte sequences that [`Unstructured`] reads.
//!
//! [`Unstructured`]: crate::unstructured::Unstructured

use crate::endian;
use crate::layout;
use crate::layout::Piece;
use crate::separator;
use crate::suffix;
use vstd::prelude::*;
use vstd::slice::slice_subrange;

verus! {

/// A builder for byte sequences that can be parsed back by
/// [`Unstructured`](crate::unstructured::Unstructured).
///
/// Every read operation of the reader has a write operation here. Collection
/// sizes, which the reader takes from the end of its data, are kept apart until
/// [`into_bytes`](Structured::into_bytes) places them.
#[derive(Debug)]
pub struct Structured {
    /// Content bytes, written front to back.
    content: Vec<u8>,
    /// Byte sizes that have no suffix yet, in order of creation: the first one
    /// goes to the very end of the output.
    deferred_sizes: Vec<DeferredSize>,
    /// Separator nesting depth.
    separator_depth: u8,
    /// Whether bytes were written for a reader that takes all the rest.
    exact: bool,
}

/// A byte size that has no suffix yet.
#[derive(Clone, Copy, Debug)]
struct DeferredSize {
    /// The size that the reader is to get.
    size: usize,
    /// Where the bytes that it counts start in the content.
    start: usize,
}

/// What a builder holds.
#[verifier::ext_equal]
pub struct Written {
    /// The content bytes so far.
    pub content: Seq<u8>,
    /// The deferred byte sizes so far.
    pub sizes: Seq<nat>,
    /// Where the bytes that each size counts start in the content.
    pub starts: Seq<nat>,
    /// The separator nesting depth.
    pub depth: u8,
    /// Whether bytes were written for a reader that takes all the rest.
    pub exact: bool,
}

impl Written {
    /// A builder to which nothing was written.
    pub open spec fn empty(depth: u8) -> Written {
        Written {
            content: Seq::empty(),
            sizes: Seq::empty(),
            starts: Seq::empty(),
            depth,
            exact: false,
        }
    }

    /// The finished buffer.
    pub open spec fn finished(self) -> Seq<u8> {
        layout::finished(self.content, self.sizes, self.starts, self.exact)
    }

    /// A builder's state after `pieces` were written to it.
    pub open spec fn with(self, pieces: Seq<Piece>) -> Written {
        Written {
            content: self.content + layout::content(pieces),
            sizes: self.sizes + layout::sizes(pieces),
            starts: self.starts + layout::shifted(layout::starts(pieces), self.content.len()),
            depth: self.depth,
            exact: self.exact && layout::sizes(pieces).len() == 0,
        }
    }

    /// A builder's state after the byte size `size` was registered. Bytes for a
    /// reader that takes all the rest are counted then, and no longer the rest.
    pub open spec fn with_size(self, size: nat) -> Written {
        Written {
            sizes: self.sizes.push(size),
            starts: self.starts.push(start_before(self.content.len(), size)),
            exact: false,
            ..self
        }
    }

    /// A builder's state after `tail`, where there is one, was written to it for a
    /// reader that takes all the rest.
    pub open spec fn with_tail(self, tail: Option<Seq<u8>>) -> Written {
        match tail {
            Some(b) => Written { content: self.content + b, exact: true, ..self },
            None => self,
        }
    }

    /// What is written to an empty builder is laid out.
    pub proof fn lemma_finished(depth: u8, pieces: Seq<Piece>, tail: Option<Seq<u8>>)
        ensures
            Written::empty(depth).with(pieces).with_tail(tail).finished()
                == layout::laid_out_rest(pieces, tail),
    {
        let w = Written::empty(depth).with(pieces).with_tail(tail);
        assert(w.content =~= layout::content(pieces) + layout::tail_bytes(tail));
        assert(w.sizes =~= layout::sizes(pieces));
        assert(w.starts =~= layout::starts(pieces));
    }

    /// The depth that entering a collection returns brings the builder back to it,
    /// whatever was written inside.
    pub proof fn law_exit_undoes_enter(self, inside: Seq<Piece>)
        requires
            self.depth < u8::MAX,
        ensures
            ({
                let entered = Written { depth: (self.depth + 1) as u8, ..self };
                Written { depth: self.depth, ..entered.with(inside) } == self.with(inside)
            }),
    {
    }

    /// Bytes are counted bytes once their size is registered, whether they were
    /// written for a reader that takes all the rest or not.
    pub proof fn law_registered_bytes_are_counted(self, bytes: Seq<u8>)
        ensures
            self.with_tail(Some(bytes)).with_size(bytes.len()) == self.with(
                seq![Piece::Counted(bytes)],
            ),
            (Written { content: self.content + bytes, ..self }).with_size(bytes.len())
                == self.with(seq![Piece::Counted(bytes)]),
    {
        layout::lemma_counted(bytes);
        let counted = self.with(seq![Piece::Counted(bytes)]);
        assert(self.with_tail(Some(bytes)).with_size(bytes.len()) =~= counted);
        let plain = Written { content: self.content + bytes, ..self };
        assert(plain.with_size(bytes.len()) =~= counted);
    }

    /// Pieces that are written one after the other are written in a row.
    pub proof fn lemma_with_append(self, a: Seq<Piece>, b: Seq<Piece>)
        ensures
            self.with(a).with(b) == self.with(a + b),
    {
        layout::lemma_pieces_append(a, b);
        assert(self.with(a).with(b) =~= self.with(a + b));
    }
}

impl View for Structured {
    type V = Written;

    closed spec fn view(&self) -> Written {
        Written {
            content: self.content@,
            sizes: sizes_of(self.deferred_sizes@),
            starts: starts_of(self.deferred_sizes@),
            depth: self.separator_depth,
            exact: self.exact,
        }
    }
}

impl Structured {
    /// A new empty builder.
    pub fn new() -> (s: Self)
        ensures
            s@ == Written::empty(0),
    {
        Structured::new_with_depth(0)
    }

    /// A new empty builder with a specific separator nesting depth.
    pub fn new_with_depth(separator_depth: u8) -> (s: Self)
        ensures
            s@ == Written::empty(separator_depth),
    {
        let s = Structured {
            content: Vec::new(),
            deferred_sizes: Vec::new(),
            separator_depth,
            exact: false,
        };
        proof {
            assert(s@ =~= Written::empty(separator_depth));
        }
        s
    }

    /// The number of content bytes written so far.
    pub fn content_len(&self) -> (n: usize)
        ensures
            n == self@.content.len(),
    {
        self.content.len()
    }

    /// The current separator depth.
    pub fn separator_depth(&self) -> (depth: u8)
        ensures
            depth == self@.depth,
    {
        self.separator_depth
    }

    /// Writes raw bytes.
    pub fn write_bytes(&mut self, bytes: &[u8])
        ensures
            final(self)@ == (Written { content: old(self)@.content + bytes@, ..old(self)@ }),
    {
        self.content.extend_from_slice(bytes);
        proof {
            assert(self@.content =~= old(self)@.content + bytes@);
        }
    }

    /// Writes raw bytes for a reader that takes all it has left.
    pub fn write_rest(&mut self, bytes: &[u8])
        ensures
            final(self)@ == old(self)@.with_tail(Some(bytes@)),
    {
        self.write_bytes(bytes);
        self.exact = true;
    }

    /// Writes a separator for the current depth.
    pub fn write_separator(&mut self)
        ensures
            final(self)@ == (Written {
                content: old(self)@.content + separator::separator(old(self)@.depth),
                ..old(self)@
            }),
    {
        let sep: [u8; 4] = self.separator_magic();
        self.write_bytes(&sep);
    }

    /// The separator for the current nesting depth.
    fn separator_magic(&self) -> (sep: [u8; 4])
        ensures
            sep@ == separator::separator(self@.depth),
    {
        separator::separator_for_depth(self.separator_depth)
    }

    /// Increments the separator depth for a nested collection. Returns the depth
    /// before, for the caller to restore.
    pub fn enter_collection(&mut self) -> (prev: u8)
        requires
            old(self)@.depth < u8::MAX,
        ensures
            prev == old(self)@.depth,
            final(self)@ == (Written { depth: (old(self)@.depth + 1) as u8, ..old(self)@ }),
    {
        let prev: u8 = self.separator_depth;
        self.separator_depth = self.separator_depth + 1;
        prev
    }

    /// Restores the separator depth after a nested collection.
    pub fn exit_collection(&mut self, prev_depth: u8)
        ensures
            final(self)@ == (Written { depth: prev_depth, ..old(self)@ }),
    {
        self.separator_depth = prev_depth;
    }

    /// Registers a byte size, for one call of the reader's `arbitrary_byte_size`.
    /// Where sizes are registered each right after the bytes that it counts, the
    /// reader's place is known for each of them.
    ///
    /// [`into_bytes`](Structured::into_bytes) appends its suffix.
    pub fn write_byte_size(&mut self, byte_size: usize)
        ensures
            final(self)@ == old(self)@.with_size(byte_size as nat),
    {
        let start: usize = if byte_size <= self.content.len() {
            self.content.len() - byte_size
        } else {
            0
        };
        self.deferred_sizes.push(DeferredSize { size: byte_size, start });
        self.exact = false;
        proof {
            assert(self@.sizes =~= old(self)@.sizes.push(byte_size as nat));
            assert(self@.starts =~= old(self)@.starts.push(start as nat));
        }
    }

    /// Finishes the byte sequence.
    ///
    /// The suffixes of the deferred sizes follow the content in reverse order of
    /// creation: the last one comes first, and the first one ends the output. The
    /// width of a suffix depends on the length of the output, which depends on the
    /// widths, so the encodings are refined until they stay the same, at most
    /// [`layout::PASSES`] times. Where a reader would not get the sizes out of
    /// them, or one that takes all the rest would get more than was written for
    /// it, each suffix is made for what the reader has left when it comes to it.
    pub fn into_bytes(self) -> (bytes: Vec<u8>)
        ensures
            bytes@ == self@.finished(),
    {
        let Structured { content, deferred_sizes, separator_depth: _, exact } = self;
        let mut result: Vec<u8> = content;
        proof {
            layout::lemma_no_suffixes(
                layout::lefts_for(Seq::empty(), self@.starts, result@.len()),
                result@.len(),
                exact,
            );
        }
        if deferred_sizes.len() == 0 {
            proof {
                assert(self@.sizes =~= Seq::<nat>::empty());
                assert(result@ =~= self@.finished());
            }
            return result;
        }
        let lefts: Vec<usize> = reader_lefts(&deferred_sizes, result.len());
        let mut tail: Vec<u8> = settled_suffixes(&deferred_sizes, result.len());
        if !reader_meets(&deferred_sizes, &lefts, &tail, exact) {
            tail = placed_suffixes(&deferred_sizes, &lefts);
        }
        let ghost before = result@;
        result.extend_from_slice(&tail);
        proof {
            assert(result@ =~= before + tail@);
        }
        result
    }
}

impl Default for Structured {
    fn default() -> (s: Self)
        ensures
            s@ == Written::empty(0),
    {
        Self::new()
    }
}

/// Where `size` bytes start that end at `len`.
pub open spec fn start_before(len: nat, size: nat) -> nat {
    if size <= len {
        (len - size) as nat
    } else {
        0
    }
}

/// The sizes of `deferred`.
spec fn sizes_of(deferred: Seq<DeferredSize>) -> Seq<nat> {
    Seq::new(deferred.len(), |i: int| deferred[i].size as nat)
}

/// The starts of `deferred`.
spec fn starts_of(deferred: Seq<DeferredSize>) -> Seq<nat> {
    Seq::new(deferred.len(), |i: int| deferred[i].start as nat)
}

/// The numbers that `v` holds.
spec fn nats(v: Seq<usize>) -> Seq<nat> {
    Seq::new(v.len(), |i: int| v[i] as nat)
}

/// The bytes that each vector of `v` holds.
spec fn views(v: Seq<Vec<u8>>) -> Seq<Seq<u8>> {
    Seq::new(v.len(), |i: int| v[i]@)
}

/// Encodings that a pass leaves the same stay the same in every later pass.
proof fn lemma_settled(sizes: Seq<nat>, content_len: nat, from: nat, to: nat)
    requires
        from <= to,
        layout::settle(sizes, content_len, from + 1) == layout::settle(sizes, content_len, from),
    ensures
        layout::settle(sizes, content_len, to) == layout::settle(sizes, content_len, from),
    decreases to,
{
    if from < to {
        lemma_settled(sizes, content_len, from, (to - 1) as nat);
    }
}

/// Word arithmetic drops whole multiples of the word's range.
proof fn lemma_wrapping_add(a: int, b: int)
    ensures
        layout::word(a + b) == layout::word(a + layout::word(b)),
        layout::word(a - b) == layout::word(layout::word(a) - b),
        0 <= a <= usize::MAX ==> layout::word(a) == a,
        -(usize::MAX + 1) <= a < 0 ==> layout::word(a) == a + usize::MAX + 1,
        usize::MAX < a <= 2 * usize::MAX + 1 ==> layout::word(a) == a - usize::MAX - 1,
{
    let m = usize::MAX + 1;
    vstd::arithmetic::div_mod::lemma_add_mod_noop_right(a, b, m);
    vstd::arithmetic::div_mod::lemma_add_mod_noop_right(-b, a, m);
    if 0 <= a < m {
        vstd::arithmetic::div_mod::lemma_small_mod(a as nat, m as nat);
    }
    if -m <= a < 0 {
        vstd::arithmetic::div_mod::lemma_mod_add_multiples_vanish(a, m);
        vstd::arithmetic::div_mod::lemma_small_mod((a + m) as nat, m as nat);
    }
    if m <= a < 2 * m {
        vstd::arithmetic::div_mod::lemma_mod_add_multiples_vanish(a - m, m);
        vstd::arithmetic::div_mod::lemma_small_mod((a - m) as nat, m as nat);
    }
}

/// The number of bytes of all encodings, as a machine word.
fn wrapped_len(encodings: &Vec<Vec<u8>>) -> (n: usize)
    ensures
        n == layout::word(views(encodings@).flatten().len() as int),
{
    let ghost all = views(encodings@);
    let mut n: usize = 0;
    let mut i: usize = encodings.len();
    proof {
        assert(all.skip(all.len() as int) =~= Seq::<Seq<u8>>::empty());
        lemma_wrapping_add(0, 0);
    }
    while i > 0
        invariant
            all == views(encodings@),
            i <= encodings@.len(),
            n == layout::word(all.skip(i as int).flatten().len() as int),
        decreases i,
    {
        i = i - 1;
        let len: usize = encodings[i].len();
        proof {
            let rest = all.skip(i + 1).flatten().len() as int;
            assert(all.skip(i as int).drop_first() =~= all.skip(i + 1));
            assert(all.skip(i as int)[0] == encodings@[i as int]@);
            lemma_wrapping_add(len as int, rest);
            lemma_wrapping_add(len as int + n as int, 0);
        }
        n = len.wrapping_add(n);
    }
    proof {
        assert(all.skip(0) =~= all);
    }
    n
}

/// One pass over the sizes for a reader that starts at `reader_len` bytes.
fn encode_sizes(sizes: &Vec<usize>, reader_len: usize) -> (encodings: Vec<Vec<u8>>)
    ensures
        views(encodings@) == layout::encode_pass(nats(sizes@), reader_len as nat),
{
    let ghost all = nats(sizes@);
    let mut encodings: Vec<Vec<u8>> = Vec::new();
    let mut len: usize = reader_len;
    let mut i: usize = 0;
    proof {
        assert(all.skip(0) =~= all);
        assert(views(encodings@) + layout::encode_pass(all, len as nat) =~= layout::encode_pass(
            all,
            len as nat,
        ));
    }
    while i < sizes.len()
        invariant
            i <= sizes@.len(),
            all == nats(sizes@),
            views(encodings@) + layout::encode_pass(all.skip(i as int), len as nat)
                == layout::encode_pass(all, reader_len as nat),
        decreases sizes@.len() - i,
    {
        let desired: usize = sizes[i];
        let encoding: Vec<u8> = suffix::encode_byte_size(desired, len);
        let enc_len: usize = encoding.len();
        let ghost before = views(encodings@);
        let ghost e = encoding@;
        let ghost next = layout::word(len - e.len() - desired);
        proof {
            assert(all.skip(i as int)[0] == desired);
            assert(all.skip(i as int).drop_first() =~= all.skip(i + 1));
            lemma_wrapping_add(len as int - enc_len as int, desired as int);
            lemma_wrapping_add(
                layout::word(len as int - enc_len as int) as int - desired as int,
                0,
            );
        }
        encodings.push(encoding);
        len = len.wrapping_sub(enc_len).wrapping_sub(desired);
        proof {
            assert(len == next);
            assert(views(encodings@) =~= before.push(e));
            assert(before.push(e) + layout::encode_pass(all.skip(i + 1), next) =~= before + (seq![
                e,
            ] + layout::encode_pass(all.skip(i + 1), next)));
        }
        i = i + 1;
    }
    proof {
        assert(all.skip(i as int) =~= Seq::<nat>::empty());
        assert(views(encodings@) + layout::encode_pass(all.skip(i as int), len as nat) =~= views(
            encodings@,
        ));
    }
    encodings
}

/// Whether two lists of encodings hold the same bytes.
fn same_encodings(a: &Vec<Vec<u8>>, b: &Vec<Vec<u8>>) -> (same: bool)
    ensures
        same == (views(a@) == views(b@)),
{
    let same: bool = *a == *b;
    proof {
        if same {
            assert forall|i: int| 0 <= i < a@.len() implies (#[trigger] a@[i])@ == b@[i]@ by {
                assert(a@[i]@ =~= b@[i]@);
            }
            assert(views(a@) =~= views(b@));
        } else if views(a@) == views(b@) {
            assert(views(a@).len() == views(b@).len());
            assert forall|i: int| 0 <= i < a@.len() implies (#[trigger] a@[i])@ == b@[i]@ by {
                assert(views(a@)[i] == views(b@)[i]);
            }
        }
    }
    same
}

/// The suffixes that the passes settle on.
fn settled_suffixes(deferred: &Vec<DeferredSize>, content_len: usize) -> (tail: Vec<u8>)
    ensures
        tail@ == layout::settle(
            sizes_of(deferred@).reverse(),
            content_len as nat,
            layout::PASSES as nat,
        ).flatten(),
{
    let ghost sizes = sizes_of(deferred@).reverse();
    let ghost len = content_len as nat;
    // The reader takes the first deferred size from the very end.
    let mut reversed: Vec<usize> = Vec::new();
    let mut encodings: Vec<Vec<u8>> = Vec::new();
    let mut i: usize = deferred.len();
    while i > 0
        invariant
            i <= deferred@.len(),
            reversed@.len() == deferred@.len() - i,
            encodings@.len() == reversed@.len(),
            forall|j: int|
                0 <= j < reversed@.len() ==> #[trigger] reversed@[j] == deferred@[deferred@.len()
                    - 1 - j].size,
            forall|j: int| 0 <= j < encodings@.len() ==> (#[trigger] encodings@[j])@ == seq![0u8],
        decreases i,
    {
        i = i - 1;
        reversed.push(deferred[i].size);
        let mut zero: Vec<u8> = Vec::new();
        zero.push(0);
        proof {
            assert(zero@ =~= seq![0u8]);
        }
        encodings.push(zero);
    }
    proof {
        assert(nats(reversed@) =~= sizes);
        assert(views(encodings@) =~= layout::settle(sizes, len, 0));
    }

    let mut pass: usize = 0;
    let mut stable: bool = false;
    while pass < layout::PASSES && !stable
        invariant
            pass <= layout::PASSES,
            len == content_len,
            nats(reversed@) == sizes,
            views(encodings@) == layout::settle(sizes, len, pass as nat),
            stable ==> layout::settle(sizes, len, layout::PASSES as nat) == views(encodings@),
        decreases layout::PASSES - pass,
    {
        let suffix_len: usize = wrapped_len(&encodings);
        let reader_len: usize = content_len.wrapping_add(suffix_len);
        proof {
            lemma_wrapping_add(content_len as int, views(encodings@).flatten().len() as int);
            lemma_wrapping_add(content_len as int + suffix_len as int, 0);
            assert(layout::settle(sizes, len, (pass + 1) as nat) == layout::encode_pass(
                sizes,
                reader_len as nat,
            ));
        }
        let new_encodings: Vec<Vec<u8>> = encode_sizes(&reversed, reader_len);
        stable = same_encodings(&new_encodings, &encodings);
        proof {
            if stable {
                lemma_settled(sizes, len, pass as nat, layout::PASSES as nat);
            }
        }
        encodings = new_encodings;
        pass = pass + 1;
    }

    let ghost all = views(encodings@);
    let mut tail: Vec<u8> = Vec::new();
    let mut k: usize = 0;
    proof {
        assert(all.skip(0) =~= all);
        assert(tail@ + all.flatten() =~= all.flatten());
    }
    while k < encodings.len()
        invariant
            k <= encodings@.len(),
            all == views(encodings@),
            tail@ + all.skip(k as int).flatten() == all.flatten(),
        decreases encodings@.len() - k,
    {
        let ghost before = tail@;
        proof {
            assert(all.skip(k as int).drop_first() =~= all.skip(k + 1));
            assert(all.skip(k as int)[0] == encodings@[k as int]@);
            assert(before + all.skip(k as int).flatten() =~= (before + encodings@[k as int]@)
                + all.skip(k + 1).flatten());
        }
        tail.extend_from_slice(&encodings[k]);
        proof {
            assert(tail@ =~= before + encodings@[k as int]@);
        }
        k = k + 1;
    }
    proof {
        assert(all.skip(k as int) =~= Seq::<Seq<u8>>::empty());
        assert(tail@ + all.skip(k as int).flatten() =~= tail@);
    }
    tail
}

/// The content bytes that the reader has left for a deferred size.
fn left_for(deferred: &DeferredSize, content_len: usize) -> (left: usize)
    ensures
        left == if deferred.start <= content_len {
            content_len - deferred.start
        } else {
            0
        },
{
    if deferred.start <= content_len {
        content_len - deferred.start
    } else {
        0
    }
}

/// Whether the stretches that the deferred sizes count follow one another.
fn stretches_in_order(deferred: &Vec<DeferredSize>) -> (r: bool)
    ensures
        r == layout::in_order(sizes_of(deferred@), starts_of(deferred@)),
{
    let ghost sizes = sizes_of(deferred@);
    let ghost starts = starts_of(deferred@);
    let mut i: usize = 1;
    while i < deferred.len()
        invariant
            1 <= i,
            sizes == sizes_of(deferred@),
            starts == starts_of(deferred@),
            forall|j: int|
                0 <= j < i - 1 && j < deferred@.len() - 1 ==> (#[trigger] starts[j]) + sizes[j]
                    <= starts[j + 1],
        decreases deferred@.len() - i,
    {
        let next: usize = deferred[i].start;
        if next < deferred[i - 1].size || next - deferred[i - 1].size < deferred[i - 1].start {
            proof {
                assert(!(starts[i - 1] + sizes[i - 1] <= starts[i - 1 + 1]));
            }
            return false;
        }
        i = i + 1;
    }
    true
}

/// What the reader has left of the content for each deferred size.
fn reader_lefts(deferred: &Vec<DeferredSize>, content_len: usize) -> (lefts: Vec<usize>)
    ensures
        lefts@.len() == deferred@.len(),
        nats(lefts@) == layout::lefts_for(
            sizes_of(deferred@),
            starts_of(deferred@),
            content_len as nat,
        ),
{
    let ghost sizes = sizes_of(deferred@);
    let mut lefts: Vec<usize> = Vec::new();
    let mut i: usize = 0;
    if stretches_in_order(deferred) {
        while i < deferred.len()
            invariant
                i <= deferred@.len(),
                lefts@.len() == i,
                nats(lefts@) == layout::lefts_of(starts_of(deferred@), content_len as nat).take(
                    i as int,
                ),
            decreases deferred@.len() - i,
        {
            let ghost before = nats(lefts@);
            let left: usize = left_for(&deferred[i], content_len);
            lefts.push(left);
            proof {
                assert(nats(lefts@) =~= before.push(left as nat));
                assert(nats(lefts@) =~= layout::lefts_of(
                    starts_of(deferred@),
                    content_len as nat,
                ).take(i + 1));
            }
            i = i + 1;
        }
        proof {
            assert(nats(lefts@) =~= layout::lefts_of(starts_of(deferred@), content_len as nat));
        }
    } else {
        let mut left: usize = content_len;
        let ghost whole = layout::row_lefts(sizes, content_len as nat);
        proof {
            assert(sizes.skip(0) =~= sizes);
            assert(nats(lefts@) + whole =~= whole);
        }
        while i < deferred.len()
            invariant
                i <= deferred@.len(),
                lefts@.len() == i,
                sizes == sizes_of(deferred@),
                nats(lefts@) + layout::row_lefts(sizes.skip(i as int), left as nat) == whole,
            decreases deferred@.len() - i,
        {
            let ghost before = nats(lefts@);
            let ghost here = left as nat;
            proof {
                assert(sizes.skip(i as int).drop_first() =~= sizes.skip(i + 1));
                assert(sizes.skip(i as int)[0] == deferred@[i as int].size);
            }
            lefts.push(left);
            left = if deferred[i].size <= left {
                left - deferred[i].size
            } else {
                0
            };
            proof {
                let row = layout::row_lefts(sizes.skip(i + 1), left as nat);
                assert(nats(lefts@) =~= before.push(here));
                assert(before.push(here) + row =~= before + (seq![here] + row));
            }
            i = i + 1;
        }
        proof {
            assert(sizes.skip(i as int) =~= Seq::<nat>::empty());
            assert(nats(lefts@) + layout::row_lefts(sizes.skip(i as int), left as nat) =~= nats(
                lefts@,
            ));
        }
    }
    lefts
}

/// Whether a reader gets the deferred sizes out of the suffixes `tail`, with
/// nothing left over where it has to be exact.
fn reader_meets(
    deferred: &Vec<DeferredSize>,
    lefts: &Vec<usize>,
    tail: &Vec<u8>,
    exact: bool,
) -> (met: bool)
    requires
        lefts@.len() == deferred@.len(),
    ensures
        met == layout::meets(sizes_of(deferred@), nats(lefts@), tail@, exact),
{
    let ghost sizes = sizes_of(deferred@);
    let ghost all = nats(lefts@);
    let mut end: usize = tail.len();
    let mut k: usize = 0;
    proof {
        assert(sizes.skip(0) =~= sizes);
        assert(all.skip(0) =~= all);
        assert(tail@.take(end as int) =~= tail@);
    }
    while k < deferred.len()
        invariant
            k <= deferred@.len(),
            end <= tail@.len(),
            lefts@.len() == deferred@.len(),
            sizes == sizes_of(deferred@),
            all == nats(lefts@),
            layout::meets(sizes, all, tail@, exact) == layout::meets(
                sizes.skip(k as int),
                all.skip(k as int),
                tail@.take(end as int),
                exact,
            ),
        decreases deferred@.len() - k,
    {
        let left: usize = lefts[k];
        let ghost here = tail@.take(end as int);
        proof {
            assert(sizes.skip(k as int).drop_first() =~= sizes.skip(k + 1));
            assert(all.skip(k as int).drop_first() =~= all.skip(k + 1));
            assert(all.skip(k as int)[0] == left);
        }
        let len: usize = match left.checked_add(end) {
            Some(len) => len,
            None => {
                return false;
            },
        };
        let width: usize = suffix::width_for(len);
        if width > end {
            return false;
        }
        let stored: &[u8] = slice_subrange(tail.as_slice(), end - width, end);
        proof {
            suffix::lemma_suffix_width(len as nat);
            assert(stored@ =~= here.skip(here.len() - width));
            assert(here.take(here.len() - width) =~= tail@.take(end - width));
        }
        let value: u64 = endian::from_be(stored);
        let read: u64 = if width == 0 {
            proof {
                assert(stored@.len() == 0);
                assert(endian::be_value(stored@) == 0);
            }
            0
        } else {
            value % ((len - width) as u64 + 1)
        };
        if read != deferred[k].size as u64 {
            return false;
        }
        end = end - width;
        k = k + 1;
    }
    !exact || end == 0
}

/// How wide a suffix is that comes after `room` bytes.
fn width_behind(room: usize) -> (width: usize)
    ensures
        width == layout::width_after(room as nat),
{
    let room: u64 = room as u64;
    if room < 0x100 {
        1
    } else if room < 0x1_0000 {
        2
    } else if room < 0x1_0000_0000 {
        4
    } else {
        8
    }
}

/// The suffixes of the deferred sizes, each as wide as the reader takes it.
fn placed_suffixes(deferred: &Vec<DeferredSize>, lefts: &Vec<usize>) -> (tail: Vec<u8>)
    requires
        lefts@.len() == deferred@.len(),
    ensures
        tail@ == layout::placed(sizes_of(deferred@), nats(lefts@)),
{
    let ghost sizes = sizes_of(deferred@);
    let ghost all = nats(lefts@);
    let mut tail: Vec<u8> = Vec::new();
    let mut k: usize = deferred.len();
    proof {
        assert(tail@ =~= Seq::<u8>::empty());
    }
    while k > 0
        invariant
            k <= deferred@.len(),
            lefts@.len() == deferred@.len(),
            sizes == sizes_of(deferred@),
            all == nats(lefts@),
            tail@ == layout::placed(sizes.skip(k as int), all.skip(k as int)),
        decreases k,
    {
        k = k - 1;
        proof {
            assert(sizes.skip(k as int).drop_first() =~= sizes.skip(k + 1));
            assert(all.skip(k as int).drop_first() =~= all.skip(k + 1));
            assert(all.skip(k as int)[0] == lefts@[k as int]);
        }
        let room: usize = lefts[k].saturating_add(tail.len());
        let len: usize = room.saturating_add(width_behind(room));
        let encoding: Vec<u8> = suffix::encode_byte_size(deferred[k].size, len);
        let ghost before = tail@;
        tail.extend_from_slice(&encoding);
        proof {
            assert(tail@ =~= before + encoding@);
        }
    }
    proof {
        assert(sizes.skip(0) =~= sizes);
        assert(all.skip(0) =~= all);
    }
    tail
}

} // verus!
