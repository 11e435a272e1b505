//! Size suffixes: how a byte size is written at the end of a buffer, and how it
//! is read from there.
//!
//! The width of a suffix is not stored. It follows from the length of the buffer
//! that the suffix ends, the suffix included.

use crate::endian;
use vstd::prelude::*;

verus! {

/// How many bytes a reader of a buffer of `len` bytes takes for a byte size.
pub open spec fn suffix_width(len: nat) -> nat {
    if len == 0 {
        0
    } else if len <= 0x100 {
        1
    } else if len <= 0x1_0001 {
        2
    } else if len <= 0x1_0000_0003 {
        4
    } else {
        8
    }
}

/// The suffix for the byte size `size` in a buffer of `len` bytes: big-endian,
/// reduced to the sizes that such a buffer has room for.
pub open spec fn size_suffix(size: nat, len: nat) -> Seq<u8> {
    let w = suffix_width(len);
    endian::be_bytes(size as int % (len - w + 1), w)
}

/// What a reader takes for a byte size from the end of `data`, and what is left
/// of `data` then.
pub open spec fn read_size(data: Seq<u8>) -> (nat, Seq<u8>) {
    let max = (data.len() - suffix_width(data.len())) as nat;
    (endian::be_value(data.skip(max as int)) % (max + 1), data.take(max as int))
}

/// The widths leave the buffer's length intact and suffice for what is stored.
pub proof fn lemma_suffix_width(len: nat)
    ensures
        suffix_width(len) <= len,
        suffix_width(len) <= 8,
        len <= u64::MAX ==> len - suffix_width(len) < endian::pow256(suffix_width(len)),
{
    endian::lemma_pow256_widths();
}

/// A size suffix has the width that the reader takes.
pub proof fn lemma_size_suffix_len(size: nat, len: nat)
    ensures
        size_suffix(size, len).len() == suffix_width(len),
{
    let w = suffix_width(len);
    endian::lemma_bytes_len(size as int % (len - w + 1), w);
}

/// A size that its buffer has room for is read back from its suffix, and the
/// reader is left with what stands before the suffix.
pub proof fn law_size_suffix_reads_back(before: Seq<u8>, size: nat, len: nat)
    requires
        len == before.len() + suffix_width(len),
        size <= before.len(),
        len <= u64::MAX,
    ensures
        read_size(before + size_suffix(size, len)) == (size, before),
{
    let w = suffix_width(len);
    let data = before + size_suffix(size, len);
    lemma_size_suffix_len(size, len);
    lemma_suffix_width(len);
    vstd::arithmetic::div_mod::lemma_small_mod(size, (len - w + 1) as nat);
    assert(data.skip(before.len() as int) =~= size_suffix(size, len));
    assert(data.take(before.len() as int) =~= before);
    endian::lemma_be_value_of_bytes(size as int, w);
}

/// How many bytes a reader whose buffer holds `len` bytes takes for a byte size.
pub fn width_for(len: usize) -> (width: usize)
    ensures
        width == suffix_width(len as nat),
{
    let len: u64 = len as u64;
    if len == 0 {
        0
    } else if len <= 0x100 {
        1
    } else if len <= 0x1_0001 {
        2
    } else if len <= 0x1_0000_0003 {
        4
    } else {
        8
    }
}

/// Encodes a desired byte size as the suffix that a reader whose buffer holds
/// `reader_data_len` bytes reads to get that size.
pub fn encode_byte_size(desired_size: usize, reader_data_len: usize) -> (suffix: Vec<u8>)
    ensures
        suffix@ == size_suffix(desired_size as nat, reader_data_len as nat),
{
    if reader_data_len == 0 {
        return Vec::new();
    }
    let width: usize = width_for(reader_data_len);
    let max_size: usize = reader_data_len - width;
    let val: usize = desired_size % (max_size + 1);
    endian::to_be(val as u64, width)
}

} // verus!
