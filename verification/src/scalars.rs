//! `bool`, `char`, `()`, and floating-point numbers by their bits.

use crate::arbitrary::{Arbitrary, Modelled};
use crate::dearbitrary::Dearbitrary;
use crate::integers;
use crate::layout;
use crate::layout::Piece;
use crate::structured::Structured;
use crate::unstructured::{Error, Unstructured};
use vstd::prelude::*;
use vstd::utf8;

verus! {

impl Modelled for bool {
    type Model = bool;

    open spec fn model(&self) -> bool {
        *self
    }
}

/// A byte, of which the low bit counts.
impl Arbitrary for bool {
    open spec fn hint(depth: usize) -> (usize, Option<usize>) {
        (1, Some(1))
    }

    open spec fn read(data: Seq<u8>, depth: u8) -> (Result<bool, Error>, Seq<u8>) {
        (Ok(integers::read_unsigned(data, 1) % 2 == 1), integers::after(data, 1))
    }

    fn arbitrary(u: &mut Unstructured<'_>) -> (r: Result<Self, Error>) {
        let v: u128 = u.uint_le(1);
        Ok(v % 2 == 1)
    }

    fn arbitrary_take_rest(u: Unstructured<'_>) -> (r: Result<Self, Error>) {
        let mut u: Unstructured<'_> = u;
        Self::arbitrary(&mut u)
    }

    fn size_hint(depth: usize) -> (hint: (usize, Option<usize>)) {
        (1, Some(1))
    }
}

/// One byte, 1 or 0.
impl Dearbitrary for bool {
    open spec fn pieces(&self, depth: u8) -> Seq<Piece> {
        integers::number(if *self { 1 } else { 0 }, 1)
    }

    open spec fn readable(&self, depth: u8) -> bool {
        true
    }

    fn write_to(&self, s: &mut Structured) {
        let byte: u8 = if *self {
            1
        } else {
            0
        };
        byte.write_to(s)
    }

    fn write_take_rest_to(&self, s: &mut Structured) {
        self.write_to(s)
    }

    proof fn reads_back(&self, depth: u8, data: Seq<u8>) {
        let byte: u8 = if *self { 1 } else { 0 };
        byte.reads_back(depth, data);
        integers::lemma_read_fits(data, 1);
        crate::endian::lemma_pow256_widths();
    }

    proof fn rest_reads_back(&self, depth: u8, data: Seq<u8>) {
        self.reads_back(depth, data);
    }

    proof fn hint_holds(&self, depth: u8, hint_depth: usize) {
        integers::lemma_number(if *self { 1 } else { 0 }, 1);
    }

    proof fn depth_is_ignored(&self, hint_depth: usize, depth: u8, other: u8) {
    }
}

/// `char::from_u32` of the standard library: the character with the code `i`,
/// or `None` where `i` is no Unicode scalar value.
pub assume_specification[ char::from_u32 ](i: u32) -> (c: Option<char>)
    ensures
        match c {
            Some(c) => c as u32 == i,
            None => !utf8::is_scalar(i),
        },
;

/// The character that is read where the code is no Unicode scalar value.
pub const REPLACEMENT: char = '\u{FFFD}';

impl Modelled for char {
    type Model = char;

    open spec fn model(&self) -> char {
        *self
    }
}

/// A `u32`. Codes of no character read as the replacement character.
impl Arbitrary for char {
    open spec fn hint(depth: usize) -> (usize, Option<usize>) {
        u32::hint(depth)
    }

    open spec fn read(data: Seq<u8>, depth: u8) -> (Result<char, Error>, Seq<u8>) {
        match u32::read(data, depth) {
            (Ok(v), rest) => (
                Ok(
                    if utf8::is_scalar(v) {
                        v as char
                    } else {
                        REPLACEMENT
                    },
                ),
                rest,
            ),
            (Err(e), rest) => (Err(e), rest),
        }
    }

    fn arbitrary(u: &mut Unstructured<'_>) -> (r: Result<Self, Error>) {
        match u32::arbitrary(u) {
            Ok(v) => match char::from_u32(v) {
                Some(c) => {
                    proof {
                        utf8::char_is_scalar(c);
                        utf8::char_u32_cast(c, v);
                    }
                    Ok(c)
                },
                None => Ok(REPLACEMENT),
            },
            Err(e) => Err(e),
        }
    }

    fn arbitrary_take_rest(u: Unstructured<'_>) -> (r: Result<Self, Error>) {
        let mut u: Unstructured<'_> = u;
        Self::arbitrary(&mut u)
    }

    fn size_hint(depth: usize) -> (hint: (usize, Option<usize>)) {
        u32::size_hint(depth)
    }
}

/// The character's code as a `u32`.
impl Dearbitrary for char {
    open spec fn pieces(&self, depth: u8) -> Seq<Piece> {
        (*self as u32).pieces(depth)
    }

    open spec fn readable(&self, depth: u8) -> bool {
        true
    }

    fn write_to(&self, s: &mut Structured) {
        (*self as u32).write_to(s)
    }

    fn write_take_rest_to(&self, s: &mut Structured) {
        self.write_to(s)
    }

    proof fn reads_back(&self, depth: u8, data: Seq<u8>) {
        (*self as u32).reads_back(depth, data);
        utf8::char_is_scalar(*self);
        utf8::char_u32_cast(*self, *self as u32);
    }

    proof fn rest_reads_back(&self, depth: u8, data: Seq<u8>) {
        self.reads_back(depth, data);
    }

    proof fn hint_holds(&self, depth: u8, hint_depth: usize) {
        (*self as u32).hint_holds(depth, hint_depth);
    }

    proof fn depth_is_ignored(&self, hint_depth: usize, depth: u8, other: u8) {
    }
}

impl Modelled for () {
    type Model = ();

    open spec fn model(&self) -> () {
        ()
    }
}

/// No bytes at all.
impl Arbitrary for () {
    open spec fn hint(depth: usize) -> (usize, Option<usize>) {
        (0, Some(0))
    }

    open spec fn read(data: Seq<u8>, depth: u8) -> (Result<(), Error>, Seq<u8>) {
        (Ok(()), data)
    }

    fn arbitrary(u: &mut Unstructured<'_>) -> (r: Result<Self, Error>) {
        Ok(())
    }

    fn arbitrary_take_rest(u: Unstructured<'_>) -> (r: Result<Self, Error>) {
        Ok(())
    }

    fn size_hint(depth: usize) -> (hint: (usize, Option<usize>)) {
        (0, Some(0))
    }
}

/// No bytes at all.
impl Dearbitrary for () {
    open spec fn pieces(&self, depth: u8) -> Seq<Piece> {
        Seq::empty()
    }

    open spec fn readable(&self, depth: u8) -> bool {
        true
    }

    fn write_to(&self, s: &mut Structured) {
        proof {
            assert(s@ =~= s@.with(Seq::empty()));
        }
    }

    fn write_take_rest_to(&self, s: &mut Structured) {
        self.write_to(s)
    }

    proof fn reads_back(&self, depth: u8, data: Seq<u8>) {
    }

    proof fn rest_reads_back(&self, depth: u8, data: Seq<u8>) {
    }

    proof fn hint_holds(&self, depth: u8, hint_depth: usize) {
    }

    proof fn depth_is_ignored(&self, hint_depth: usize, depth: u8, other: u8) {
    }
}

/// A 32-bit floating-point number by its bits.
#[derive(Debug, Clone, Copy, PartialEq, Eq, Structural)]
pub struct F32Bits {
    /// The bits, as `f32::to_bits` gives them.
    pub bits: u32,
}

/// A 64-bit floating-point number by its bits.
#[derive(Debug, Clone, Copy, PartialEq, Eq, Structural)]
pub struct F64Bits {
    /// The bits, as `f64::to_bits` gives them.
    pub bits: u64,
}

impl Modelled for F32Bits {
    type Model = F32Bits;

    open spec fn model(&self) -> F32Bits {
        *self
    }
}

/// The bits as a `u32`.
impl Arbitrary for F32Bits {
    open spec fn hint(depth: usize) -> (usize, Option<usize>) {
        u32::hint(depth)
    }

    open spec fn read(data: Seq<u8>, depth: u8) -> (Result<F32Bits, Error>, Seq<u8>) {
        match u32::read(data, depth) {
            (Ok(bits), rest) => (Ok(F32Bits { bits }), rest),
            (Err(e), rest) => (Err(e), rest),
        }
    }

    fn arbitrary(u: &mut Unstructured<'_>) -> (r: Result<Self, Error>) {
        match u32::arbitrary(u) {
            Ok(bits) => Ok(F32Bits { bits }),
            Err(e) => Err(e),
        }
    }

    fn arbitrary_take_rest(u: Unstructured<'_>) -> (r: Result<Self, Error>) {
        let mut u: Unstructured<'_> = u;
        Self::arbitrary(&mut u)
    }

    fn size_hint(depth: usize) -> (hint: (usize, Option<usize>)) {
        u32::size_hint(depth)
    }
}

/// The bits as a `u32`.
impl Dearbitrary for F32Bits {
    open spec fn pieces(&self, depth: u8) -> Seq<Piece> {
        self.bits.pieces(depth)
    }

    open spec fn readable(&self, depth: u8) -> bool {
        true
    }

    fn write_to(&self, s: &mut Structured) {
        self.bits.write_to(s)
    }

    fn write_take_rest_to(&self, s: &mut Structured) {
        self.write_to(s)
    }

    proof fn reads_back(&self, depth: u8, data: Seq<u8>) {
        self.bits.reads_back(depth, data);
    }

    proof fn rest_reads_back(&self, depth: u8, data: Seq<u8>) {
        self.reads_back(depth, data);
    }

    proof fn hint_holds(&self, depth: u8, hint_depth: usize) {
        self.bits.hint_holds(depth, hint_depth);
    }

    proof fn depth_is_ignored(&self, hint_depth: usize, depth: u8, other: u8) {
    }
}

impl Modelled for F64Bits {
    type Model = F64Bits;

    open spec fn model(&self) -> F64Bits {
        *self
    }
}

/// The bits as a `u64`.
impl Arbitrary for F64Bits {
    open spec fn hint(depth: usize) -> (usize, Option<usize>) {
        u64::hint(depth)
    }

    open spec fn read(data: Seq<u8>, depth: u8) -> (Result<F64Bits, Error>, Seq<u8>) {
        match u64::read(data, depth) {
            (Ok(bits), rest) => (Ok(F64Bits { bits }), rest),
            (Err(e), rest) => (Err(e), rest),
        }
    }

    fn arbitrary(u: &mut Unstructured<'_>) -> (r: Result<Self, Error>) {
        match u64::arbitrary(u) {
            Ok(bits) => Ok(F64Bits { bits }),
            Err(e) => Err(e),
        }
    }

    fn arbitrary_take_rest(u: Unstructured<'_>) -> (r: Result<Self, Error>) {
        let mut u: Unstructured<'_> = u;
        Self::arbitrary(&mut u)
    }

    fn size_hint(depth: usize) -> (hint: (usize, Option<usize>)) {
        u64::size_hint(depth)
    }
}

/// The bits as a `u64`.
impl Dearbitrary for F64Bits {
    open spec fn pieces(&self, depth: u8) -> Seq<Piece> {
        self.bits.pieces(depth)
    }

    open spec fn readable(&self, depth: u8) -> bool {
        true
    }

    fn write_to(&self, s: &mut Structured) {
        self.bits.write_to(s)
    }

    fn write_take_rest_to(&self, s: &mut Structured) {
        self.write_to(s)
    }

    proof fn reads_back(&self, depth: u8, data: Seq<u8>) {
        self.bits.reads_back(depth, data);
    }

    proof fn rest_reads_back(&self, depth: u8, data: Seq<u8>) {
        self.reads_back(depth, data);
    }

    proof fn hint_holds(&self, depth: u8, hint_depth: usize) {
        self.bits.hint_holds(depth, hint_depth);
    }

    proof fn depth_is_ignored(&self, hint_depth: usize, depth: u8, other: u8) {
    }
}

} // verus!
