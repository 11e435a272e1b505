//! The read side: raw bytes from which values are taken.

use crate::endian;
use crate::suffix;
use vstd::prelude::*;
use vstd::slice::slice_subrange;

verus! {

/// Why a value could not be read.
#[derive(Debug, Clone, Copy, PartialEq, Eq, Structural)]
pub enum Error {
    /// More bytes were asked for than are left.
    NotEnoughData,
}

/// Raw bytes that are consumed from both ends: values from the front, collection
/// sizes from the back.
#[derive(Debug)]
pub struct Unstructured<'a> {
    /// The bytes that are left.
    data: &'a [u8],
    /// Separator nesting depth.
    separator_depth: u8,
}

impl<'a> View for Unstructured<'a> {
    type V = Seq<u8>;

    closed spec fn view(&self) -> Seq<u8> {
        self.data@
    }
}

/// How many of the next `n` bytes there are.
pub open spec fn available(data: Seq<u8>, n: nat) -> int {
    if n <= data.len() {
        n as int
    } else {
        data.len() as int
    }
}

impl<'a> Unstructured<'a> {
    /// The separator nesting depth.
    pub closed spec fn depth(&self) -> u8 {
        self.separator_depth
    }

    /// A reader of `data`.
    pub fn new(data: &'a [u8]) -> (u: Self)
        ensures
            u@ == data@,
            u.depth() == 0,
    {
        Unstructured { data, separator_depth: 0 }
    }

    /// A reader of `data` with a specific separator nesting depth.
    pub fn new_with_depth(data: &'a [u8], separator_depth: u8) -> (u: Self)
        ensures
            u@ == data@,
            u.depth() == separator_depth,
    {
        Unstructured { data, separator_depth }
    }

    /// The number of bytes that are left.
    pub fn len(&self) -> (n: usize)
        ensures
            n == self@.len(),
    {
        self.data.len()
    }

    /// Whether no bytes are left.
    pub fn is_empty(&self) -> (b: bool)
        ensures
            b == (self@.len() == 0),
    {
        self.data.len() == 0
    }

    /// The separator nesting depth.
    pub fn separator_depth(&self) -> (depth: u8)
        ensures
            depth == self.depth(),
    {
        self.separator_depth
    }

    /// Takes the next `n` bytes.
    pub fn bytes(&mut self, n: usize) -> (r: Result<&'a [u8], Error>)
        ensures
            final(self).depth() == old(self).depth(),
            match r {
                Ok(b) => n <= old(self)@.len() && b@ == old(self)@.take(n as int) && final(self)@
                    == old(self)@.skip(n as int),
                Err(e) => n > old(self)@.len() && e == Error::NotEnoughData && final(self)@
                    == old(self)@,
            },
    {
        if n > self.data.len() {
            return Err(Error::NotEnoughData);
        }
        let whole: &'a [u8] = self.data;
        let b: &'a [u8] = slice_subrange(whole, 0, n);
        self.data = slice_subrange(whole, n, whole.len());
        proof {
            assert(b@ =~= old(self)@.take(n as int));
            assert(self@ =~= old(self)@.skip(n as int));
        }
        Ok(b)
    }

    /// The next `n` bytes, which are left in place.
    pub fn peek_bytes(&self, n: usize) -> (b: &'a [u8])
        requires
            n <= self@.len(),
        ensures
            b@ == self@.take(n as int),
    {
        let b: &'a [u8] = slice_subrange(self.data, 0, n);
        proof {
            assert(b@ =~= self@.take(n as int));
        }
        b
    }

    /// Takes all bytes that are left.
    pub fn take_rest(self) -> (b: &'a [u8])
        ensures
            b@ == self@,
    {
        self.data
    }

    /// Takes the next `n` bytes as a little-endian number. Bytes that are missing
    /// count as zero.
    pub fn uint_le(&mut self, n: usize) -> (v: u128)
        requires
            n <= 16,
        ensures
            final(self).depth() == old(self).depth(),
            v == endian::le_value(old(self)@.take(available(old(self)@, n as nat))),
            final(self)@ == old(self)@.skip(available(old(self)@, n as nat)),
    {
        let m: usize = if n <= self.data.len() {
            n
        } else {
            self.data.len()
        };
        let whole: &'a [u8] = self.data;
        let b: &'a [u8] = slice_subrange(whole, 0, m);
        self.data = slice_subrange(whole, m, whole.len());
        proof {
            assert(b@ =~= old(self)@.take(m as int));
            assert(self@ =~= old(self)@.skip(m as int));
        }
        endian::from_le(b)
    }

    /// Takes a byte size from the end of the data. The size never exceeds what is
    /// left then.
    pub fn arbitrary_byte_size(&mut self) -> (n: usize)
        ensures
            final(self).depth() == old(self).depth(),
            (n as nat, final(self)@) == suffix::read_size(old(self)@),
            n <= final(self)@.len(),
    {
        let whole: &'a [u8] = self.data;
        let width: usize = suffix::width_for(whole.len());
        proof {
            suffix::lemma_suffix_width(whole@.len());
        }
        let max_size: usize = whole.len() - width;
        let for_size: &'a [u8] = slice_subrange(whole, max_size, whole.len());
        self.data = slice_subrange(whole, 0, max_size);
        proof {
            assert(for_size@ =~= old(self)@.skip(max_size as int));
            assert(self@ =~= old(self)@.take(max_size as int));
            assert(width == suffix::suffix_width(old(self)@.len()));
        }
        let stored: u64 = endian::from_be(for_size);
        if width == 0 {
            proof {
                assert(for_size@.len() == 0);
                assert(endian::be_value(for_size@) == 0);
            }
            return 0;
        }
        let n: u64 = stored % (max_size as u64 + 1);
        n as usize
    }
}

} // verus!
