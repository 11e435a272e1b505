//! Integers: little-endian, in the width of their type.

use crate::arbitrary::{Arbitrary, Modelled};
use crate::dearbitrary::Dearbitrary;
use crate::endian;
use crate::layout;
use crate::layout::Piece;
use crate::structured::Structured;
use crate::unstructured;
use crate::unstructured::{Error, Unstructured};
use vstd::prelude::*;

verus! {

/// What a reader of `n` bytes gets for an unsigned number: bytes that are missing
/// count as zero.
pub open spec fn read_unsigned(data: Seq<u8>, n: nat) -> nat {
    endian::le_value(data.take(unstructured::available(data, n)))
}

/// What a reader of `n` bytes gets for a signed number in two's complement.
pub open spec fn read_signed(data: Seq<u8>, n: nat) -> int {
    endian::signed_value(read_unsigned(data, n), n)
}

/// What a reader of `n` bytes leaves.
pub open spec fn after(data: Seq<u8>, n: nat) -> Seq<u8> {
    data.skip(unstructured::available(data, n))
}

/// The piece that a number in `n` bytes is written as.
pub open spec fn number(v: int, n: nat) -> Seq<Piece> {
    seq![Piece::Plain(endian::le_bytes(v, n))]
}

/// Written numbers have the width of their type and read back modulo its range.
pub proof fn lemma_number(v: int, n: nat)
    ensures
        layout::sizes(number(v, n)).len() == 0,
        layout::content(number(v, n)).len() == n,
        forall|data: Seq<u8>| #[trigger]
            layout::take_pieces(number(v, n), data) matches Some(rest) ==> rest == after(data, n)
                && read_unsigned(data, n) == v % (endian::pow256(n) as int),
{
    layout::lemma_plain(endian::le_bytes(v, n));
    endian::lemma_bytes_len(v, n);
    endian::lemma_le_value_of_bytes(v, n);
}

/// A number that is read in `n` bytes fits them.
pub proof fn lemma_read_fits(data: Seq<u8>, n: nat)
    ensures
        read_unsigned(data, n) < endian::pow256(n),
{
    let m = unstructured::available(data, n);
    endian::lemma_value_bound(data.take(m));
    endian::lemma_pow256_monotone(m as nat, n);
}

/// Writes the `n` low bytes of `v`.
fn write_number(v: u128, n: usize, s: &mut Structured)
    ensures
        final(s)@ == old(s)@.with(number(v as int, n as nat)),
{
    let bytes: Vec<u8> = endian::to_le(v, n);
    s.write_bytes(&bytes);
    proof {
        layout::lemma_plain(endian::le_bytes(v as int, n as nat));
        assert(s@ =~= old(s)@.with(number(v as int, n as nat)));
    }
}

impl Modelled for u8 {
    type Model = u8;

    open spec fn model(&self) -> u8 {
        *self
    }
}

impl Arbitrary for u8 {
    open spec fn hint(depth: usize) -> (usize, Option<usize>) {
        (1, Some(1))
    }

    open spec fn read(data: Seq<u8>, depth: u8) -> (Result<u8, Error>, Seq<u8>) {
        (Ok(read_unsigned(data, 1) as u8), after(data, 1))
    }

    fn arbitrary(u: &mut Unstructured<'_>) -> (r: Result<Self, Error>) {
        proof {
            lemma_read_fits(u@, 1);
            endian::lemma_pow256_widths();
        }
        let v: u128 = u.uint_le(1);
        Ok(v as u8)
    }

    fn arbitrary_take_rest(u: Unstructured<'_>) -> (r: Result<Self, Error>) {
        let mut u: Unstructured<'_> = u;
        Self::arbitrary(&mut u)
    }

    fn size_hint(depth: usize) -> (hint: (usize, Option<usize>)) {
        (1, Some(1))
    }
}

impl Dearbitrary for u8 {
    open spec fn pieces(&self, depth: u8) -> Seq<Piece> {
        number(*self as int, 1)
    }

    open spec fn readable(&self, depth: u8) -> bool {
        true
    }

    fn write_to(&self, s: &mut Structured) {
        write_number(*self as u128, 1, s)
    }

    fn write_take_rest_to(&self, s: &mut Structured) {
        self.write_to(s)
    }

    proof fn reads_back(&self, depth: u8, data: Seq<u8>) {
        lemma_number(*self as int, 1);
        endian::lemma_pow256_widths();
        vstd::arithmetic::div_mod::lemma_small_mod(*self as nat, endian::pow256(1));
    }

    proof fn rest_reads_back(&self, depth: u8, data: Seq<u8>) {
        self.reads_back(depth, data);
    }

    proof fn hint_holds(&self, depth: u8, hint_depth: usize) {
        lemma_number(*self as int, 1);
    }

    proof fn depth_is_ignored(&self, hint_depth: usize, depth: u8, other: u8) {
    }
}

impl Modelled for u16 {
    type Model = u16;

    open spec fn model(&self) -> u16 {
        *self
    }
}

impl Arbitrary for u16 {
    open spec fn hint(depth: usize) -> (usize, Option<usize>) {
        (2, Some(2))
    }

    open spec fn read(data: Seq<u8>, depth: u8) -> (Result<u16, Error>, Seq<u8>) {
        (Ok(read_unsigned(data, 2) as u16), after(data, 2))
    }

    fn arbitrary(u: &mut Unstructured<'_>) -> (r: Result<Self, Error>) {
        proof {
            lemma_read_fits(u@, 2);
            endian::lemma_pow256_widths();
        }
        let v: u128 = u.uint_le(2);
        Ok(v as u16)
    }

    fn arbitrary_take_rest(u: Unstructured<'_>) -> (r: Result<Self, Error>) {
        let mut u: Unstructured<'_> = u;
        Self::arbitrary(&mut u)
    }

    fn size_hint(depth: usize) -> (hint: (usize, Option<usize>)) {
        (2, Some(2))
    }
}

impl Dearbitrary for u16 {
    open spec fn pieces(&self, depth: u8) -> Seq<Piece> {
        number(*self as int, 2)
    }

    open spec fn readable(&self, depth: u8) -> bool {
        true
    }

    fn write_to(&self, s: &mut Structured) {
        write_number(*self as u128, 2, s)
    }

    fn write_take_rest_to(&self, s: &mut Structured) {
        self.write_to(s)
    }

    proof fn reads_back(&self, depth: u8, data: Seq<u8>) {
        lemma_number(*self as int, 2);
        endian::lemma_pow256_widths();
        vstd::arithmetic::div_mod::lemma_small_mod(*self as nat, endian::pow256(2));
    }

    proof fn rest_reads_back(&self, depth: u8, data: Seq<u8>) {
        self.reads_back(depth, data);
    }

    proof fn hint_holds(&self, depth: u8, hint_depth: usize) {
        lemma_number(*self as int, 2);
    }

    proof fn depth_is_ignored(&self, hint_depth: usize, depth: u8, other: u8) {
    }
}

impl Modelled for u32 {
    type Model = u32;

    open spec fn model(&self) -> u32 {
        *self
    }
}

impl Arbitrary for u32 {
    open spec fn hint(depth: usize) -> (usize, Option<usize>) {
        (4, Some(4))
    }

    open spec fn read(data: Seq<u8>, depth: u8) -> (Result<u32, Error>, Seq<u8>) {
        (Ok(read_unsigned(data, 4) as u32), after(data, 4))
    }

    fn arbitrary(u: &mut Unstructured<'_>) -> (r: Result<Self, Error>) {
        proof {
            lemma_read_fits(u@, 4);
            endian::lemma_pow256_widths();
        }
        let v: u128 = u.uint_le(4);
        Ok(v as u32)
    }

    fn arbitrary_take_rest(u: Unstructured<'_>) -> (r: Result<Self, Error>) {
        let mut u: Unstructured<'_> = u;
        Self::arbitrary(&mut u)
    }

    fn size_hint(depth: usize) -> (hint: (usize, Option<usize>)) {
        (4, Some(4))
    }
}

impl Dearbitrary for u32 {
    open spec fn pieces(&self, depth: u8) -> Seq<Piece> {
        number(*self as int, 4)
    }

    open spec fn readable(&self, depth: u8) -> bool {
        true
    }

    fn write_to(&self, s: &mut Structured) {
        write_number(*self as u128, 4, s)
    }

    fn write_take_rest_to(&self, s: &mut Structured) {
        self.write_to(s)
    }

    proof fn reads_back(&self, depth: u8, data: Seq<u8>) {
        lemma_number(*self as int, 4);
        endian::lemma_pow256_widths();
        vstd::arithmetic::div_mod::lemma_small_mod(*self as nat, endian::pow256(4));
    }

    proof fn rest_reads_back(&self, depth: u8, data: Seq<u8>) {
        self.reads_back(depth, data);
    }

    proof fn hint_holds(&self, depth: u8, hint_depth: usize) {
        lemma_number(*self as int, 4);
    }

    proof fn depth_is_ignored(&self, hint_depth: usize, depth: u8, other: u8) {
    }
}

impl Modelled for u64 {
    type Model = u64;

    open spec fn model(&self) -> u64 {
        *self
    }
}

impl Arbitrary for u64 {
    open spec fn hint(depth: usize) -> (usize, Option<usize>) {
        (8, Some(8))
    }

    open spec fn read(data: Seq<u8>, depth: u8) -> (Result<u64, Error>, Seq<u8>) {
        (Ok(read_unsigned(data, 8) as u64), after(data, 8))
    }

    fn arbitrary(u: &mut Unstructured<'_>) -> (r: Result<Self, Error>) {
        proof {
            lemma_read_fits(u@, 8);
            endian::lemma_pow256_widths();
        }
        let v: u128 = u.uint_le(8);
        Ok(v as u64)
    }

    fn arbitrary_take_rest(u: Unstructured<'_>) -> (r: Result<Self, Error>) {
        let mut u: Unstructured<'_> = u;
        Self::arbitrary(&mut u)
    }

    fn size_hint(depth: usize) -> (hint: (usize, Option<usize>)) {
        (8, Some(8))
    }
}

impl Dearbitrary for u64 {
    open spec fn pieces(&self, depth: u8) -> Seq<Piece> {
        number(*self as int, 8)
    }

    open spec fn readable(&self, depth: u8) -> bool {
        true
    }

    fn write_to(&self, s: &mut Structured) {
        write_number(*self as u128, 8, s)
    }

    fn write_take_rest_to(&self, s: &mut Structured) {
        self.write_to(s)
    }

    proof fn reads_back(&self, depth: u8, data: Seq<u8>) {
        lemma_number(*self as int, 8);
        endian::lemma_pow256_widths();
        vstd::arithmetic::div_mod::lemma_small_mod(*self as nat, endian::pow256(8));
    }

    proof fn rest_reads_back(&self, depth: u8, data: Seq<u8>) {
        self.reads_back(depth, data);
    }

    proof fn hint_holds(&self, depth: u8, hint_depth: usize) {
        lemma_number(*self as int, 8);
    }

    proof fn depth_is_ignored(&self, hint_depth: usize, depth: u8, other: u8) {
    }
}

impl Modelled for u128 {
    type Model = u128;

    open spec fn model(&self) -> u128 {
        *self
    }
}

impl Arbitrary for u128 {
    open spec fn hint(depth: usize) -> (usize, Option<usize>) {
        (16, Some(16))
    }

    open spec fn read(data: Seq<u8>, depth: u8) -> (Result<u128, Error>, Seq<u8>) {
        (Ok(read_unsigned(data, 16) as u128), after(data, 16))
    }

    fn arbitrary(u: &mut Unstructured<'_>) -> (r: Result<Self, Error>) {
        proof {
            lemma_read_fits(u@, 16);
            endian::lemma_pow256_widths();
        }
        let v: u128 = u.uint_le(16);
        Ok(v as u128)
    }

    fn arbitrary_take_rest(u: Unstructured<'_>) -> (r: Result<Self, Error>) {
        let mut u: Unstructured<'_> = u;
        Self::arbitrary(&mut u)
    }

    fn size_hint(depth: usize) -> (hint: (usize, Option<usize>)) {
        (16, Some(16))
    }
}

impl Dearbitrary for u128 {
    open spec fn pieces(&self, depth: u8) -> Seq<Piece> {
        number(*self as int, 16)
    }

    open spec fn readable(&self, depth: u8) -> bool {
        true
    }

    fn write_to(&self, s: &mut Structured) {
        write_number(*self as u128, 16, s)
    }

    fn write_take_rest_to(&self, s: &mut Structured) {
        self.write_to(s)
    }

    proof fn reads_back(&self, depth: u8, data: Seq<u8>) {
        lemma_number(*self as int, 16);
        endian::lemma_pow256_widths();
        vstd::arithmetic::div_mod::lemma_small_mod(*self as nat, endian::pow256(16));
    }

    proof fn rest_reads_back(&self, depth: u8, data: Seq<u8>) {
        self.reads_back(depth, data);
    }

    proof fn hint_holds(&self, depth: u8, hint_depth: usize) {
        lemma_number(*self as int, 16);
    }

    proof fn depth_is_ignored(&self, hint_depth: usize, depth: u8, other: u8) {
    }
}

impl Modelled for i8 {
    type Model = i8;

    open spec fn model(&self) -> i8 {
        *self
    }
}

impl Arbitrary for i8 {
    open spec fn hint(depth: usize) -> (usize, Option<usize>) {
        (1, Some(1))
    }

    open spec fn read(data: Seq<u8>, depth: u8) -> (Result<i8, Error>, Seq<u8>) {
        (Ok(read_signed(data, 1) as i8), after(data, 1))
    }

    fn arbitrary(u: &mut Unstructured<'_>) -> (r: Result<Self, Error>) {
        proof {
            lemma_read_fits(u@, 1);
            endian::lemma_pow256_widths();
        }
        let v: u128 = u.uint_le(1);
        if v >= 0x80 {
            Ok((v as i128 - 0x100) as i8)
        } else {
            Ok(v as i8)
        }
    }

    fn arbitrary_take_rest(u: Unstructured<'_>) -> (r: Result<Self, Error>) {
        let mut u: Unstructured<'_> = u;
        Self::arbitrary(&mut u)
    }

    fn size_hint(depth: usize) -> (hint: (usize, Option<usize>)) {
        (1, Some(1))
    }
}

impl Dearbitrary for i8 {
    open spec fn pieces(&self, depth: u8) -> Seq<Piece> {
        number(*self as int, 1)
    }

    open spec fn readable(&self, depth: u8) -> bool {
        true
    }

    fn write_to(&self, s: &mut Structured) {
        if *self >= 0 {
            write_number(*self as u128, 1, s)
        } else {
            proof {
                endian::lemma_pow256_widths();
                endian::lemma_le_bytes_congruent(*self as int, 1);
            }
            write_number((*self as i128 + 0x100) as u128, 1, s)
        }
    }

    fn write_take_rest_to(&self, s: &mut Structured) {
        self.write_to(s)
    }

    proof fn reads_back(&self, depth: u8, data: Seq<u8>) {
        lemma_number(*self as int, 1);
        endian::lemma_pow256_widths();
        let m = endian::pow256(1) as int;
        if *self >= 0 {
            vstd::arithmetic::div_mod::lemma_small_mod(*self as nat, m as nat);
        } else {
            vstd::arithmetic::div_mod::lemma_mod_add_multiples_vanish(*self as int, m);
            vstd::arithmetic::div_mod::lemma_small_mod((*self + m) as nat, m as nat);
        }
    }

    proof fn rest_reads_back(&self, depth: u8, data: Seq<u8>) {
        self.reads_back(depth, data);
    }

    proof fn hint_holds(&self, depth: u8, hint_depth: usize) {
        lemma_number(*self as int, 1);
    }

    proof fn depth_is_ignored(&self, hint_depth: usize, depth: u8, other: u8) {
    }
}

impl Modelled for i16 {
    type Model = i16;

    open spec fn model(&self) -> i16 {
        *self
    }
}

impl Arbitrary for i16 {
    open spec fn hint(depth: usize) -> (usize, Option<usize>) {
        (2, Some(2))
    }

    open spec fn read(data: Seq<u8>, depth: u8) -> (Result<i16, Error>, Seq<u8>) {
        (Ok(read_signed(data, 2) as i16), after(data, 2))
    }

    fn arbitrary(u: &mut Unstructured<'_>) -> (r: Result<Self, Error>) {
        proof {
            lemma_read_fits(u@, 2);
            endian::lemma_pow256_widths();
        }
        let v: u128 = u.uint_le(2);
        if v >= 0x8000 {
            Ok((v as i128 - 0x1_0000) as i16)
        } else {
            Ok(v as i16)
        }
    }

    fn arbitrary_take_rest(u: Unstructured<'_>) -> (r: Result<Self, Error>) {
        let mut u: Unstructured<'_> = u;
        Self::arbitrary(&mut u)
    }

    fn size_hint(depth: usize) -> (hint: (usize, Option<usize>)) {
        (2, Some(2))
    }
}

impl Dearbitrary for i16 {
    open spec fn pieces(&self, depth: u8) -> Seq<Piece> {
        number(*self as int, 2)
    }

    open spec fn readable(&self, depth: u8) -> bool {
        true
    }

    fn write_to(&self, s: &mut Structured) {
        if *self >= 0 {
            write_number(*self as u128, 2, s)
        } else {
            proof {
                endian::lemma_pow256_widths();
                endian::lemma_le_bytes_congruent(*self as int, 2);
            }
            write_number((*self as i128 + 0x1_0000) as u128, 2, s)
        }
    }

    fn write_take_rest_to(&self, s: &mut Structured) {
        self.write_to(s)
    }

    proof fn reads_back(&self, depth: u8, data: Seq<u8>) {
        lemma_number(*self as int, 2);
        endian::lemma_pow256_widths();
        let m = endian::pow256(2) as int;
        if *self >= 0 {
            vstd::arithmetic::div_mod::lemma_small_mod(*self as nat, m as nat);
        } else {
            vstd::arithmetic::div_mod::lemma_mod_add_multiples_vanish(*self as int, m);
            vstd::arithmetic::div_mod::lemma_small_mod((*self + m) as nat, m as nat);
        }
    }

    proof fn rest_reads_back(&self, depth: u8, data: Seq<u8>) {
        self.reads_back(depth, data);
    }

    proof fn hint_holds(&self, depth: u8, hint_depth: usize) {
        lemma_number(*self as int, 2);
    }

    proof fn depth_is_ignored(&self, hint_depth: usize, depth: u8, other: u8) {
    }
}

impl Modelled for i32 {
    type Model = i32;

    open spec fn model(&self) -> i32 {
        *self
    }
}

impl Arbitrary for i32 {
    open spec fn hint(depth: usize) -> (usize, Option<usize>) {
        (4, Some(4))
    }

    open spec fn read(data: Seq<u8>, depth: u8) -> (Result<i32, Error>, Seq<u8>) {
        (Ok(read_signed(data, 4) as i32), after(data, 4))
    }

    fn arbitrary(u: &mut Unstructured<'_>) -> (r: Result<Self, Error>) {
        proof {
            lemma_read_fits(u@, 4);
            endian::lemma_pow256_widths();
        }
        let v: u128 = u.uint_le(4);
        if v >= 0x8000_0000 {
            Ok((v as i128 - 0x1_0000_0000) as i32)
        } else {
            Ok(v as i32)
        }
    }

    fn arbitrary_take_rest(u: Unstructured<'_>) -> (r: Result<Self, Error>) {
        let mut u: Unstructured<'_> = u;
        Self::arbitrary(&mut u)
    }

    fn size_hint(depth: usize) -> (hint: (usize, Option<usize>)) {
        (4, Some(4))
    }
}

impl Dearbitrary for i32 {
    open spec fn pieces(&self, depth: u8) -> Seq<Piece> {
        number(*self as int, 4)
    }

    open spec fn readable(&self, depth: u8) -> bool {
        true
    }

    fn write_to(&self, s: &mut Structured) {
        if *self >= 0 {
            write_number(*self as u128, 4, s)
        } else {
            proof {
                endian::lemma_pow256_widths();
                endian::lemma_le_bytes_congruent(*self as int, 4);
            }
            write_number((*self as i128 + 0x1_0000_0000) as u128, 4, s)
        }
    }

    fn write_take_rest_to(&self, s: &mut Structured) {
        self.write_to(s)
    }

    proof fn reads_back(&self, depth: u8, data: Seq<u8>) {
        lemma_number(*self as int, 4);
        endian::lemma_pow256_widths();
        let m = endian::pow256(4) as int;
        if *self >= 0 {
            vstd::arithmetic::div_mod::lemma_small_mod(*self as nat, m as nat);
        } else {
            vstd::arithmetic::div_mod::lemma_mod_add_multiples_vanish(*self as int, m);
            vstd::arithmetic::div_mod::lemma_small_mod((*self + m) as nat, m as nat);
        }
    }

    proof fn rest_reads_back(&self, depth: u8, data: Seq<u8>) {
        self.reads_back(depth, data);
    }

    proof fn hint_holds(&self, depth: u8, hint_depth: usize) {
        lemma_number(*self as int, 4);
    }

    proof fn depth_is_ignored(&self, hint_depth: usize, depth: u8, other: u8) {
    }
}

impl Modelled for i64 {
    type Model = i64;

    open spec fn model(&self) -> i64 {
        *self
    }
}

impl Arbitrary for i64 {
    open spec fn hint(depth: usize) -> (usize, Option<usize>) {
        (8, Some(8))
    }

    open spec fn read(data: Seq<u8>, depth: u8) -> (Result<i64, Error>, Seq<u8>) {
        (Ok(read_signed(data, 8) as i64), after(data, 8))
    }

    fn arbitrary(u: &mut Unstructured<'_>) -> (r: Result<Self, Error>) {
        proof {
            lemma_read_fits(u@, 8);
            endian::lemma_pow256_widths();
        }
        let v: u128 = u.uint_le(8);
        if v >= 0x8000_0000_0000_0000 {
            Ok((v as i128 - 0x1_0000_0000_0000_0000) as i64)
        } else {
            Ok(v as i64)
        }
    }

    fn arbitrary_take_rest(u: Unstructured<'_>) -> (r: Result<Self, Error>) {
        let mut u: Unstructured<'_> = u;
        Self::arbitrary(&mut u)
    }

    fn size_hint(depth: usize) -> (hint: (usize, Option<usize>)) {
        (8, Some(8))
    }
}

impl Dearbitrary for i64 {
    open spec fn pieces(&self, depth: u8) -> Seq<Piece> {
        number(*self as int, 8)
    }

    open spec fn readable(&self, depth: u8) -> bool {
        true
    }

    fn write_to(&self, s: &mut Structured) {
        if *self >= 0 {
            write_number(*self as u128, 8, s)
        } else {
            proof {
                endian::lemma_pow256_widths();
                endian::lemma_le_bytes_congruent(*self as int, 8);
            }
            write_number((*self as i128 + 0x1_0000_0000_0000_0000) as u128, 8, s)
        }
    }

    fn write_take_rest_to(&self, s: &mut Structured) {
        self.write_to(s)
    }

    proof fn reads_back(&self, depth: u8, data: Seq<u8>) {
        lemma_number(*self as int, 8);
        endian::lemma_pow256_widths();
        let m = endian::pow256(8) as int;
        if *self >= 0 {
            vstd::arithmetic::div_mod::lemma_small_mod(*self as nat, m as nat);
        } else {
            vstd::arithmetic::div_mod::lemma_mod_add_multiples_vanish(*self as int, m);
            vstd::arithmetic::div_mod::lemma_small_mod((*self + m) as nat, m as nat);
        }
    }

    proof fn rest_reads_back(&self, depth: u8, data: Seq<u8>) {
        self.reads_back(depth, data);
    }

    proof fn hint_holds(&self, depth: u8, hint_depth: usize) {
        lemma_number(*self as int, 8);
    }

    proof fn depth_is_ignored(&self, hint_depth: usize, depth: u8, other: u8) {
    }
}

impl Modelled for i128 {
    type Model = i128;

    open spec fn model(&self) -> i128 {
        *self
    }
}

impl Arbitrary for i128 {
    open spec fn hint(depth: usize) -> (usize, Option<usize>) {
        (16, Some(16))
    }

    open spec fn read(data: Seq<u8>, depth: u8) -> (Result<i128, Error>, Seq<u8>) {
        (Ok(read_signed(data, 16) as i128), after(data, 16))
    }

    fn arbitrary(u: &mut Unstructured<'_>) -> (r: Result<Self, Error>) {
        proof {
            lemma_read_fits(u@, 16);
            endian::lemma_pow256_widths();
        }
        let v: u128 = u.uint_le(16);
        if v >= 0x8000_0000_0000_0000_0000_0000_0000_0000 {
            Ok((v - 0x8000_0000_0000_0000_0000_0000_0000_0000) as i128 + i128::MIN)
        } else {
            Ok(v as i128)
        }
    }

    fn arbitrary_take_rest(u: Unstructured<'_>) -> (r: Result<Self, Error>) {
        let mut u: Unstructured<'_> = u;
        Self::arbitrary(&mut u)
    }

    fn size_hint(depth: usize) -> (hint: (usize, Option<usize>)) {
        (16, Some(16))
    }
}

impl Dearbitrary for i128 {
    open spec fn pieces(&self, depth: u8) -> Seq<Piece> {
        number(*self as int, 16)
    }

    open spec fn readable(&self, depth: u8) -> bool {
        true
    }

    fn write_to(&self, s: &mut Structured) {
        if *self >= 0 {
            write_number(*self as u128, 16, s)
        } else {
            proof {
                endian::lemma_pow256_widths();
                endian::lemma_le_bytes_congruent(*self as int, 16);
            }
            write_number((*self - i128::MIN) as u128 + 0x8000_0000_0000_0000_0000_0000_0000_0000, 16, s)
        }
    }

    fn write_take_rest_to(&self, s: &mut Structured) {
        self.write_to(s)
    }

    proof fn reads_back(&self, depth: u8, data: Seq<u8>) {
        lemma_number(*self as int, 16);
        endian::lemma_pow256_widths();
        let m = endian::pow256(16) as int;
        if *self >= 0 {
            vstd::arithmetic::div_mod::lemma_small_mod(*self as nat, m as nat);
        } else {
            vstd::arithmetic::div_mod::lemma_mod_add_multiples_vanish(*self as int, m);
            vstd::arithmetic::div_mod::lemma_small_mod((*self + m) as nat, m as nat);
        }
    }

    proof fn rest_reads_back(&self, depth: u8, data: Seq<u8>) {
        self.reads_back(depth, data);
    }

    proof fn hint_holds(&self, depth: u8, hint_depth: usize) {
        lemma_number(*self as int, 16);
    }

    proof fn depth_is_ignored(&self, hint_depth: usize, depth: u8, other: u8) {
    }
}

impl Modelled for usize {
    type Model = usize;

    open spec fn model(&self) -> usize {
        *self
    }
}

/// `usize` is read as `u64` on every platform.
impl Arbitrary for usize {
    open spec fn hint(depth: usize) -> (usize, Option<usize>) {
        u64::hint(depth)
    }

    open spec fn read(data: Seq<u8>, depth: u8) -> (Result<usize, Error>, Seq<u8>) {
        match u64::read(data, depth) {
            (Ok(v), rest) => (Ok(v as usize), rest),
            (Err(e), rest) => (Err(e), rest),
        }
    }

    fn arbitrary(u: &mut Unstructured<'_>) -> (r: Result<Self, Error>) {
        match u64::arbitrary(u) {
            Ok(v) => Ok(#[verifier::truncate] (v as usize)),
            Err(e) => Err(e),
        }
    }

    fn arbitrary_take_rest(u: Unstructured<'_>) -> (r: Result<Self, Error>) {
        let mut u: Unstructured<'_> = u;
        Self::arbitrary(&mut u)
    }

    fn size_hint(depth: usize) -> (hint: (usize, Option<usize>)) {
        u64::size_hint(depth)
    }
}

/// `usize` is written as `u64` on every platform.
impl Dearbitrary for usize {
    open spec fn pieces(&self, depth: u8) -> Seq<Piece> {
        (*self as u64).pieces(depth)
    }

    open spec fn readable(&self, depth: u8) -> bool {
        true
    }

    fn write_to(&self, s: &mut Structured) {
        (*self as u64).write_to(s)
    }

    fn write_take_rest_to(&self, s: &mut Structured) {
        self.write_to(s)
    }

    proof fn reads_back(&self, depth: u8, data: Seq<u8>) {
        (*self as u64).reads_back(depth, data);
    }

    proof fn rest_reads_back(&self, depth: u8, data: Seq<u8>) {
        self.reads_back(depth, data);
    }

    proof fn hint_holds(&self, depth: u8, hint_depth: usize) {
        (*self as u64).hint_holds(depth, hint_depth);
    }

    proof fn depth_is_ignored(&self, hint_depth: usize, depth: u8, other: u8) {
    }
}

impl Modelled for isize {
    type Model = isize;

    open spec fn model(&self) -> isize {
        *self
    }
}

/// `isize` is read as `i64` on every platform.
impl Arbitrary for isize {
    open spec fn hint(depth: usize) -> (usize, Option<usize>) {
        i64::hint(depth)
    }

    open spec fn read(data: Seq<u8>, depth: u8) -> (Result<isize, Error>, Seq<u8>) {
        match i64::read(data, depth) {
            (Ok(v), rest) => (Ok(v as isize), rest),
            (Err(e), rest) => (Err(e), rest),
        }
    }

    fn arbitrary(u: &mut Unstructured<'_>) -> (r: Result<Self, Error>) {
        match i64::arbitrary(u) {
            Ok(v) => Ok(#[verifier::truncate] (v as isize)),
            Err(e) => Err(e),
        }
    }

    fn arbitrary_take_rest(u: Unstructured<'_>) -> (r: Result<Self, Error>) {
        let mut u: Unstructured<'_> = u;
        Self::arbitrary(&mut u)
    }

    fn size_hint(depth: usize) -> (hint: (usize, Option<usize>)) {
        i64::size_hint(depth)
    }
}

/// `isize` is written as `i64` on every platform.
impl Dearbitrary for isize {
    open spec fn pieces(&self, depth: u8) -> Seq<Piece> {
        (*self as i64).pieces(depth)
    }

    open spec fn readable(&self, depth: u8) -> bool {
        true
    }

    fn write_to(&self, s: &mut Structured) {
        (*self as i64).write_to(s)
    }

    fn write_take_rest_to(&self, s: &mut Structured) {
        self.write_to(s)
    }

    proof fn reads_back(&self, depth: u8, data: Seq<u8>) {
        (*self as i64).reads_back(depth, data);
    }

    proof fn rest_reads_back(&self, depth: u8, data: Seq<u8>) {
        self.reads_back(depth, data);
    }

    proof fn hint_holds(&self, depth: u8, hint_depth: usize) {
        (*self as i64).hint_holds(depth, hint_depth);
    }

    proof fn depth_is_ignored(&self, hint_depth: usize, depth: u8, other: u8) {
    }
}

} // verus!
