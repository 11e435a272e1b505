//! The bytes of plain values, digit by digit, and what any bytes are read as.

use crate::arbitrary::{Arbitrary, Modelled};
use crate::dearbitrary::Dearbitrary;
use crate::endian;
use crate::integers;
use crate::layout::Piece;
use crate::scalars::{F32Bits, F64Bits};
use crate::size_hint;
use crate::unstructured;
use crate::unstructured::Error;
use std::rc::Rc;
use std::sync::Arc;
use vstd::arithmetic::power;
use vstd::prelude::*;

verus! {

/// The powers of 256.
pub proof fn lemma_power(n: nat)
    ensures
        endian::pow256(n) == power::pow(256, n),
        endian::pow256(n) > 0,
    decreases n,
{
    reveal(power::pow);
    if n > 0 {
        lemma_power((n - 1) as nat);
    }
}

proof fn lemma_division_in_steps(v: int, p: int)
    requires
        p > 0,
    ensures
        (v / 256) / p == v / (256 * p),
{
    let q = (v / 256) / p;
    let r = 256 * ((v / 256) % p) + v % 256;
    vstd::arithmetic::div_mod::lemma_fundamental_div_mod(v / 256, p);
    vstd::arithmetic::div_mod::lemma_mod_bound(v / 256, p);
    assert(256 * (p * q) == q * (256 * p)) by (nonlinear_arith);
    vstd::arithmetic::div_mod::lemma_fundamental_div_mod_converse(v, 256 * p, q, r);
}

/// Little-endian bytes are the base-256 digits of the number, the lowest first, and
/// big-endian bytes the same digits in reverse.
pub proof fn law_bytes_are_digits(v: int, n: nat, i: nat)
    requires
        i < n,
    ensures
        endian::le_bytes(v, n).len() == n,
        endian::le_bytes(v, n)[i as int] == (v / power::pow(256, i)) % 256,
        endian::be_bytes(v, n).len() == n,
        endian::be_bytes(v, n)[n - 1 - i] == (v / power::pow(256, i)) % 256,
    decreases n,
{
    endian::lemma_bytes_len(v, n);
    lemma_power(i);
    if i > 0 {
        let p = endian::pow256((i - 1) as nat);
        law_bytes_are_digits(v / 256, (n - 1) as nat, (i - 1) as nat);
        lemma_power((i - 1) as nat);
        lemma_division_in_steps(v, p as int);
    }
}

/// The digits of the number that little-endian bytes stand for are those bytes, with
/// zeros behind them.
pub proof fn law_digits_are_bytes(s: Seq<u8>, i: nat)
    ensures
        (endian::le_value(s) as int / power::pow(256, i)) % 256 == if i < s.len() {
            s[i as int] as int
        } else {
            0
        },
    decreases s.len(),
{
    lemma_power(i);
    if s.len() == 0 {
        assert(0int / power::pow(256, i) == 0) by {
            vstd::arithmetic::div_mod::lemma_div_basics(power::pow(256, i));
        }
    } else if i > 0 {
        let p = endian::pow256((i - 1) as nat);
        law_digits_are_bytes(s.drop_first(), (i - 1) as nat);
        lemma_power((i - 1) as nat);
        lemma_division_in_steps(endian::le_value(s) as int, p as int);
        assert(endian::le_value(s) / 256 == endian::le_value(s.drop_first()));
    } else {
        assert(endian::le_value(s) as int / 1 == endian::le_value(s));
    }
}

/// The digits of the number that big-endian bytes stand for are those bytes, the last
/// one lowest.
pub proof fn law_digits_are_big_endian_bytes(s: Seq<u8>, i: nat)
    ensures
        (endian::be_value(s) as int / power::pow(256, i)) % 256 == if i < s.len() {
            s[s.len() - 1 - i] as int
        } else {
            0
        },
    decreases s.len(),
{
    lemma_power(i);
    if s.len() == 0 {
        assert(0int / power::pow(256, i) == 0) by {
            vstd::arithmetic::div_mod::lemma_div_basics(power::pow(256, i));
        }
    } else if i > 0 {
        let p = endian::pow256((i - 1) as nat);
        law_digits_are_big_endian_bytes(s.drop_last(), (i - 1) as nat);
        lemma_power((i - 1) as nat);
        lemma_division_in_steps(endian::be_value(s) as int, p as int);
        assert(endian::be_value(s) / 256 == endian::be_value(s.drop_last()));
    } else {
        assert(endian::be_value(s) as int / 1 == endian::be_value(s));
    }
}

proof fn lemma_read_digits(data: Seq<u8>, n: nat)
    ensures
        forall|i: nat|
            i < n ==> (integers::read_unsigned(data, n) as int / #[trigger] power::pow(256, i)) % 256
                == if i < data.len() {
                data[i as int] as int
            } else {
                0
            },
        forall|i: nat|
            i < n ==> (integers::read_signed(data, n) / #[trigger] power::pow(256, i)) % 256 == if i
                < data.len() {
                data[i as int] as int
            } else {
                0
            },
{
    let u = integers::read_unsigned(data, n);
    let v = integers::read_signed(data, n);
    assert forall|i: nat| i < n implies ({
        let d = if i < data.len() {
            data[i as int] as int
        } else {
            0
        };
        &&& (u as int / #[trigger] power::pow(256, i)) % 256 == d
        &&& (v / power::pow(256, i)) % 256 == d
    }) by {
        law_digits_are_bytes(data.take(unstructured::available(data, n)), i);
        law_bytes_are_digits(u as int, n, i);
        law_bytes_are_digits(v, n, i);
        if v != u {
            endian::lemma_le_bytes_congruent(v, n);
        }
    }
}

proof fn lemma_written_digits(v: int, n: nat)
    ensures
        endian::le_bytes(v, n).len() == n,
        forall|i: nat|
            i < n ==> #[trigger] endian::le_bytes(v, n)[i as int] == (v / power::pow(256, i)) % 256,
{
    endian::lemma_bytes_len(v, n);
    assert forall|i: nat| i < n implies #[trigger] endian::le_bytes(v, n)[i as int] == (v / power::pow(
        256,
        i,
    )) % 256 by {
        law_bytes_are_digits(v, n, i);
    }
}

/// One byte, the lowest digit first, are written for a `u8`; the same are read, with
/// zeros for those that are missing, and no others are taken.
pub proof fn law_digits_of_u8(v: u8, data: Seq<u8>, depth: u8, hint_depth: usize)
    ensures
        v.model() == v,
        u8::hint(hint_depth) == (1usize, Some(1usize)),
        v.pieces(depth).len() == 1,
        v.pieces(depth)[0] matches Piece::Plain(b) && b.len() == 1 && forall|i: nat|
            i < 1 ==> #[trigger] b[i as int] == (v as int / power::pow(256, i)) % 256,
        match u8::read(data, depth) {
            (Ok(r), left) => {
                &&& left == data.skip(
                    if data.len() < 1 {
                        data.len() as int
                    } else {
                        1
                    },
                )
                &&& forall|i: nat|
                    i < 1 ==> (r as int / #[trigger] power::pow(256, i)) % 256 == if i < data.len() {
                        data[i as int] as int
                    } else {
                        0
                    }
            },
            (Err(_), _) => false,
        },
        v.readable(depth),
        v.rest_readable(depth),
        v.rest_pieces(depth) == v.pieces(depth),
        v.rest_tail(depth) is None,
        u8::read_rest(data, depth) == u8::read(data, depth).0,
{
    lemma_written_digits(v as int, 1);
    lemma_read_digits(data, 1);
    integers::lemma_read_fits(data, 1);
    endian::lemma_pow256_widths();
}

/// Two bytes, the lowest digit first, are written for a `u16`; the same are read, with
/// zeros for those that are missing, and no others are taken.
pub proof fn law_digits_of_u16(v: u16, data: Seq<u8>, depth: u8, hint_depth: usize)
    ensures
        v.model() == v,
        u16::hint(hint_depth) == (2usize, Some(2usize)),
        v.pieces(depth).len() == 1,
        v.pieces(depth)[0] matches Piece::Plain(b) && b.len() == 2 && forall|i: nat|
            i < 2 ==> #[trigger] b[i as int] == (v as int / power::pow(256, i)) % 256,
        match u16::read(data, depth) {
            (Ok(r), left) => {
                &&& left == data.skip(
                    if data.len() < 2 {
                        data.len() as int
                    } else {
                        2
                    },
                )
                &&& forall|i: nat|
                    i < 2 ==> (r as int / #[trigger] power::pow(256, i)) % 256 == if i < data.len() {
                        data[i as int] as int
                    } else {
                        0
                    }
            },
            (Err(_), _) => false,
        },
        v.readable(depth),
        v.rest_readable(depth),
        v.rest_pieces(depth) == v.pieces(depth),
        v.rest_tail(depth) is None,
        u16::read_rest(data, depth) == u16::read(data, depth).0,
{
    lemma_written_digits(v as int, 2);
    lemma_read_digits(data, 2);
    integers::lemma_read_fits(data, 2);
    endian::lemma_pow256_widths();
}

/// Four bytes, the lowest digit first, are written for a `u32`; the same are read, with
/// zeros for those that are missing, and no others are taken.
pub proof fn law_digits_of_u32(v: u32, data: Seq<u8>, depth: u8, hint_depth: usize)
    ensures
        v.model() == v,
        u32::hint(hint_depth) == (4usize, Some(4usize)),
        v.pieces(depth).len() == 1,
        v.pieces(depth)[0] matches Piece::Plain(b) && b.len() == 4 && forall|i: nat|
            i < 4 ==> #[trigger] b[i as int] == (v as int / power::pow(256, i)) % 256,
        match u32::read(data, depth) {
            (Ok(r), left) => {
                &&& left == data.skip(
                    if data.len() < 4 {
                        data.len() as int
                    } else {
                        4
                    },
                )
                &&& forall|i: nat|
                    i < 4 ==> (r as int / #[trigger] power::pow(256, i)) % 256 == if i < data.len() {
                        data[i as int] as int
                    } else {
                        0
                    }
            },
            (Err(_), _) => false,
        },
        v.readable(depth),
        v.rest_readable(depth),
        v.rest_pieces(depth) == v.pieces(depth),
        v.rest_tail(depth) is None,
        u32::read_rest(data, depth) == u32::read(data, depth).0,
{
    lemma_written_digits(v as int, 4);
    lemma_read_digits(data, 4);
    integers::lemma_read_fits(data, 4);
    endian::lemma_pow256_widths();
}

/// Eight bytes, the lowest digit first, are written for a `u64`; the same are read, with
/// zeros for those that are missing, and no others are taken.
pub proof fn law_digits_of_u64(v: u64, data: Seq<u8>, depth: u8, hint_depth: usize)
    ensures
        v.model() == v,
        u64::hint(hint_depth) == (8usize, Some(8usize)),
        v.pieces(depth).len() == 1,
        v.pieces(depth)[0] matches Piece::Plain(b) && b.len() == 8 && forall|i: nat|
            i < 8 ==> #[trigger] b[i as int] == (v as int / power::pow(256, i)) % 256,
        match u64::read(data, depth) {
            (Ok(r), left) => {
                &&& left == data.skip(
                    if data.len() < 8 {
                        data.len() as int
                    } else {
                        8
                    },
                )
                &&& forall|i: nat|
                    i < 8 ==> (r as int / #[trigger] power::pow(256, i)) % 256 == if i < data.len() {
                        data[i as int] as int
                    } else {
                        0
                    }
            },
            (Err(_), _) => false,
        },
        v.readable(depth),
        v.rest_readable(depth),
        v.rest_pieces(depth) == v.pieces(depth),
        v.rest_tail(depth) is None,
        u64::read_rest(data, depth) == u64::read(data, depth).0,
{
    lemma_written_digits(v as int, 8);
    lemma_read_digits(data, 8);
    integers::lemma_read_fits(data, 8);
    endian::lemma_pow256_widths();
}

/// Sixteen bytes, the lowest digit first, are written for a `u128`; the same are read, with
/// zeros for those that are missing, and no others are taken.
pub proof fn law_digits_of_u128(v: u128, data: Seq<u8>, depth: u8, hint_depth: usize)
    ensures
        v.model() == v,
        u128::hint(hint_depth) == (16usize, Some(16usize)),
        v.pieces(depth).len() == 1,
        v.pieces(depth)[0] matches Piece::Plain(b) && b.len() == 16 && forall|i: nat|
            i < 16 ==> #[trigger] b[i as int] == (v as int / power::pow(256, i)) % 256,
        match u128::read(data, depth) {
            (Ok(r), left) => {
                &&& left == data.skip(
                    if data.len() < 16 {
                        data.len() as int
                    } else {
                        16
                    },
                )
                &&& forall|i: nat|
                    i < 16 ==> (r as int / #[trigger] power::pow(256, i)) % 256 == if i < data.len() {
                        data[i as int] as int
                    } else {
                        0
                    }
            },
            (Err(_), _) => false,
        },
        v.readable(depth),
        v.rest_readable(depth),
        v.rest_pieces(depth) == v.pieces(depth),
        v.rest_tail(depth) is None,
        u128::read_rest(data, depth) == u128::read(data, depth).0,
{
    lemma_written_digits(v as int, 16);
    lemma_read_digits(data, 16);
    integers::lemma_read_fits(data, 16);
    endian::lemma_pow256_widths();
}

/// One byte, the lowest digit first, are written for an `i8`; the same are read, with
/// zeros for those that are missing, and no others are taken.
pub proof fn law_digits_of_i8(v: i8, data: Seq<u8>, depth: u8, hint_depth: usize)
    ensures
        v.model() == v,
        i8::hint(hint_depth) == (1usize, Some(1usize)),
        v.pieces(depth).len() == 1,
        v.pieces(depth)[0] matches Piece::Plain(b) && b.len() == 1 && forall|i: nat|
            i < 1 ==> #[trigger] b[i as int] == (v as int / power::pow(256, i)) % 256,
        match i8::read(data, depth) {
            (Ok(r), left) => {
                &&& left == data.skip(
                    if data.len() < 1 {
                        data.len() as int
                    } else {
                        1
                    },
                )
                &&& forall|i: nat|
                    i < 1 ==> (r as int / #[trigger] power::pow(256, i)) % 256 == if i < data.len() {
                        data[i as int] as int
                    } else {
                        0
                    }
            },
            (Err(_), _) => false,
        },
        v.readable(depth),
        v.rest_readable(depth),
        v.rest_pieces(depth) == v.pieces(depth),
        v.rest_tail(depth) is None,
        i8::read_rest(data, depth) == i8::read(data, depth).0,
{
    lemma_written_digits(v as int, 1);
    lemma_read_digits(data, 1);
    integers::lemma_read_fits(data, 1);
    endian::lemma_pow256_widths();
}

/// Two bytes, the lowest digit first, are written for an `i16`; the same are read, with
/// zeros for those that are missing, and no others are taken.
pub proof fn law_digits_of_i16(v: i16, data: Seq<u8>, depth: u8, hint_depth: usize)
    ensures
        v.model() == v,
        i16::hint(hint_depth) == (2usize, Some(2usize)),
        v.pieces(depth).len() == 1,
        v.pieces(depth)[0] matches Piece::Plain(b) && b.len() == 2 && forall|i: nat|
            i < 2 ==> #[trigger] b[i as int] == (v as int / power::pow(256, i)) % 256,
        match i16::read(data, depth) {
            (Ok(r), left) => {
                &&& left == data.skip(
                    if data.len() < 2 {
                        data.len() as int
                    } else {
                        2
                    },
                )
                &&& forall|i: nat|
                    i < 2 ==> (r as int / #[trigger] power::pow(256, i)) % 256 == if i < data.len() {
                        data[i as int] as int
                    } else {
                        0
                    }
            },
            (Err(_), _) => false,
        },
        v.readable(depth),
        v.rest_readable(depth),
        v.rest_pieces(depth) == v.pieces(depth),
        v.rest_tail(depth) is None,
        i16::read_rest(data, depth) == i16::read(data, depth).0,
{
    lemma_written_digits(v as int, 2);
    lemma_read_digits(data, 2);
    integers::lemma_read_fits(data, 2);
    endian::lemma_pow256_widths();
}

/// Four bytes, the lowest digit first, are written for an `i32`; the same are read, with
/// zeros for those that are missing, and no others are taken.
pub proof fn law_digits_of_i32(v: i32, data: Seq<u8>, depth: u8, hint_depth: usize)
    ensures
        v.model() == v,
        i32::hint(hint_depth) == (4usize, Some(4usize)),
        v.pieces(depth).len() == 1,
        v.pieces(depth)[0] matches Piece::Plain(b) && b.len() == 4 && forall|i: nat|
            i < 4 ==> #[trigger] b[i as int] == (v as int / power::pow(256, i)) % 256,
        match i32::read(data, depth) {
            (Ok(r), left) => {
                &&& left == data.skip(
                    if data.len() < 4 {
                        data.len() as int
                    } else {
                        4
                    },
                )
                &&& forall|i: nat|
                    i < 4 ==> (r as int / #[trigger] power::pow(256, i)) % 256 == if i < data.len() {
                        data[i as int] as int
                    } else {
                        0
                    }
            },
            (Err(_), _) => false,
        },
        v.readable(depth),
        v.rest_readable(depth),
        v.rest_pieces(depth) == v.pieces(depth),
        v.rest_tail(depth) is None,
        i32::read_rest(data, depth) == i32::read(data, depth).0,
{
    lemma_written_digits(v as int, 4);
    lemma_read_digits(data, 4);
    integers::lemma_read_fits(data, 4);
    endian::lemma_pow256_widths();
}

/// Eight bytes, the lowest digit first, are written for an `i64`; the same are read, with
/// zeros for those that are missing, and no others are taken.
pub proof fn law_digits_of_i64(v: i64, data: Seq<u8>, depth: u8, hint_depth: usize)
    ensures
        v.model() == v,
        i64::hint(hint_depth) == (8usize, Some(8usize)),
        v.pieces(depth).len() == 1,
        v.pieces(depth)[0] matches Piece::Plain(b) && b.len() == 8 && forall|i: nat|
            i < 8 ==> #[trigger] b[i as int] == (v as int / power::pow(256, i)) % 256,
        match i64::read(data, depth) {
            (Ok(r), left) => {
                &&& left == data.skip(
                    if data.len() < 8 {
                        data.len() as int
                    } else {
                        8
                    },
                )
                &&& forall|i: nat|
                    i < 8 ==> (r as int / #[trigger] power::pow(256, i)) % 256 == if i < data.len() {
                        data[i as int] as int
                    } else {
                        0
                    }
            },
            (Err(_), _) => false,
        },
        v.readable(depth),
        v.rest_readable(depth),
        v.rest_pieces(depth) == v.pieces(depth),
        v.rest_tail(depth) is None,
        i64::read_rest(data, depth) == i64::read(data, depth).0,
{
    lemma_written_digits(v as int, 8);
    lemma_read_digits(data, 8);
    integers::lemma_read_fits(data, 8);
    endian::lemma_pow256_widths();
}

/// Sixteen bytes, the lowest digit first, are written for an `i128`; the same are read, with
/// zeros for those that are missing, and no others are taken.
pub proof fn law_digits_of_i128(v: i128, data: Seq<u8>, depth: u8, hint_depth: usize)
    ensures
        v.model() == v,
        i128::hint(hint_depth) == (16usize, Some(16usize)),
        v.pieces(depth).len() == 1,
        v.pieces(depth)[0] matches Piece::Plain(b) && b.len() == 16 && forall|i: nat|
            i < 16 ==> #[trigger] b[i as int] == (v as int / power::pow(256, i)) % 256,
        match i128::read(data, depth) {
            (Ok(r), left) => {
                &&& left == data.skip(
                    if data.len() < 16 {
                        data.len() as int
                    } else {
                        16
                    },
                )
                &&& forall|i: nat|
                    i < 16 ==> (r as int / #[trigger] power::pow(256, i)) % 256 == if i < data.len() {
                        data[i as int] as int
                    } else {
                        0
                    }
            },
            (Err(_), _) => false,
        },
        v.readable(depth),
        v.rest_readable(depth),
        v.rest_pieces(depth) == v.pieces(depth),
        v.rest_tail(depth) is None,
        i128::read_rest(data, depth) == i128::read(data, depth).0,
{
    lemma_written_digits(v as int, 16);
    lemma_read_digits(data, 16);
    integers::lemma_read_fits(data, 16);
    endian::lemma_pow256_widths();
}

/// A `usize` is a `u64` on every platform, as far as the platform has it.
pub proof fn law_usize_is_u64(v: usize, data: Seq<u8>, depth: u8, hint_depth: usize)
    ensures
        v.model() == v,
        usize::hint(hint_depth) == (8usize, Some(8usize)),
        v.pieces(depth).len() == 1,
        v.pieces(depth)[0] matches Piece::Plain(b) && b.len() == 8 && forall|i: nat|
            i < 8 ==> #[trigger] b[i as int] == (v as int / power::pow(256, i)) % 256,
        match (usize::read(data, depth), u64::read(data, depth)) {
            ((Ok(r), left), (Ok(w), after)) => {
                &&& left == after
                &&& usize::MIN <= w <= usize::MAX ==> r == w
            },
            _ => false,
        },
        v.readable(depth),
        v.rest_readable(depth),
        v.rest_pieces(depth) == v.pieces(depth),
        v.rest_tail(depth) is None,
        usize::read_rest(data, depth) == usize::read(data, depth).0,
{
    law_digits_of_u64(v as u64, data, depth, hint_depth);
}

/// A `isize` is a `i64` on every platform, as far as the platform has it.
pub proof fn law_isize_is_i64(v: isize, data: Seq<u8>, depth: u8, hint_depth: usize)
    ensures
        v.model() == v,
        isize::hint(hint_depth) == (8usize, Some(8usize)),
        v.pieces(depth).len() == 1,
        v.pieces(depth)[0] matches Piece::Plain(b) && b.len() == 8 && forall|i: nat|
            i < 8 ==> #[trigger] b[i as int] == (v as int / power::pow(256, i)) % 256,
        match (isize::read(data, depth), i64::read(data, depth)) {
            ((Ok(r), left), (Ok(w), after)) => {
                &&& left == after
                &&& isize::MIN <= w <= isize::MAX ==> r == w
            },
            _ => false,
        },
        v.readable(depth),
        v.rest_readable(depth),
        v.rest_pieces(depth) == v.pieces(depth),
        v.rest_tail(depth) is None,
        isize::read_rest(data, depth) == isize::read(data, depth).0,
{
    law_digits_of_i64(v as i64, data, depth, hint_depth);
}

/// A `bool` is one byte. The lowest bit is what counts; no byte reads as `false`.
pub proof fn law_low_bit_is_the_bool(v: bool, data: Seq<u8>, depth: u8, hint_depth: usize)
    ensures
        v.model() == v,
        bool::hint(hint_depth) == (1usize, Some(1usize)),
        v.pieces(depth) == seq![
            Piece::Plain(
                seq![
                    if v {
                        1u8
                    } else {
                        0u8
                    },
                ],
            ),
        ],
        data.len() > 0 ==> bool::read(data, depth) == (
            Ok::<bool, Error>(data[0] & 1 == 1),
            data.skip(1),
        ),
        data.len() == 0 ==> bool::read(data, depth) == (Ok::<bool, Error>(false), data),
        v.readable(depth),
        v.rest_readable(depth),
        v.rest_pieces(depth) == v.pieces(depth),
        v.rest_tail(depth) is None,
        bool::read_rest(data, depth) == bool::read(data, depth).0,
{
    let byte: int = if v { 1 } else { 0 };
    reveal_with_fuel(endian::le_bytes, 2);
    reveal_with_fuel(endian::le_value, 2);
    assert(endian::le_bytes(byte, 1) =~= seq![byte as u8]);
    if data.len() > 0 {
        let b = data[0];
        assert((b & 1 == 1) == (b % 2 == 1)) by (bit_vector);
        assert(data.take(1).drop_first() =~= Seq::<u8>::empty());
    } else {
        assert(data.take(0) =~= Seq::<u8>::empty());
        assert(data.skip(0) =~= data);
    }
}

/// A byte reads as the same `bool` whatever its upper seven bits are, and as the other
/// one once its lowest bit is turned.
pub proof fn law_upper_bits_of_a_bool_are_ignored(b: u8, mask: u8, rest: Seq<u8>, depth: u8)
    ensures
        bool::read(seq![b] + rest, depth) == bool::read(
            seq![b ^ (mask & 0xFE)] + rest,
            depth,
        ),
        bool::read(seq![b] + rest, depth).0 != bool::read(seq![b ^ 1] + rest, depth).0,
{
    law_low_bit_is_the_bool(true, seq![b] + rest, depth, 0);
    law_low_bit_is_the_bool(true, seq![b ^ (mask & 0xFE)] + rest, depth, 0);
    law_low_bit_is_the_bool(true, seq![b ^ 1] + rest, depth, 0);
    assert((b ^ (mask & 0xFE)) & 1 == b & 1) by (bit_vector);
    assert(((b ^ 1) & 1 == 1) != (b & 1 == 1)) by (bit_vector);
    assert((seq![b] + rest).skip(1) =~= rest);
    assert((seq![b ^ (mask & 0xFE)] + rest).skip(1) =~= rest);
}

/// A `char` is the `u32` of its code. Codes up to U+10FFFF outside of the surrogates
/// read as their characters, all others as U+FFFD.
pub proof fn law_char_is_its_code(v: char, data: Seq<u8>, depth: u8, hint_depth: usize)
    ensures
        v.model() == v,
        char::hint(hint_depth) == (4usize, Some(4usize)),
        v.pieces(depth) == (v as u32).pieces(depth),
        match (char::read(data, depth), u32::read(data, depth)) {
            ((Ok(c), left), (Ok(code), after)) => {
                &&& left == after
                &&& c as u32 == if code < 0xD800 || 0xE000 <= code < 0x11_0000 {
                    code
                } else {
                    0xFFFD
                }
            },
            _ => false,
        },
        v.readable(depth),
        v.rest_readable(depth),
        v.rest_pieces(depth) == v.pieces(depth),
        v.rest_tail(depth) is None,
        char::read_rest(data, depth) == char::read(data, depth).0,
{
}

/// The unit value is no bytes.
pub proof fn law_unit_is_no_bytes(data: Seq<u8>, depth: u8, hint_depth: usize)
    ensures
        <()>::hint(hint_depth) == (0usize, Some(0usize)),
        ().pieces(depth).len() == 0,
        <()>::read(data, depth) == (Ok::<(), Error>(()), data),
        ().readable(depth),
        ().rest_readable(depth),
        ().rest_pieces(depth).len() == 0,
        ().rest_tail(depth) is None,
        <()>::read_rest(data, depth) == Ok::<(), Error>(()),
{
}

/// The bits of a floating-point number are a `u32`.
pub proof fn law_float_is_u32(v: F32Bits, data: Seq<u8>, depth: u8, hint_depth: usize)
    ensures
        v.model() == v,
        F32Bits::hint(hint_depth) == (4usize, Some(4usize)),
        v.pieces(depth) == v.bits.pieces(depth),
        match (F32Bits::read(data, depth), u32::read(data, depth)) {
            ((Ok(f), left), (Ok(bits), after)) => f.bits == bits && left == after,
            _ => false,
        },
        v.readable(depth),
        v.rest_readable(depth),
        v.rest_pieces(depth) == v.pieces(depth),
        v.rest_tail(depth) is None,
        F32Bits::read_rest(data, depth) == F32Bits::read(data, depth).0,
{
}

/// The bits of a floating-point number are a `u64`.
pub proof fn law_float_is_u64(v: F64Bits, data: Seq<u8>, depth: u8, hint_depth: usize)
    ensures
        v.model() == v,
        F64Bits::hint(hint_depth) == (8usize, Some(8usize)),
        v.pieces(depth) == v.bits.pieces(depth),
        match (F64Bits::read(data, depth), u64::read(data, depth)) {
            ((Ok(f), left), (Ok(bits), after)) => f.bits == bits && left == after,
            _ => false,
        },
        v.readable(depth),
        v.rest_readable(depth),
        v.rest_pieces(depth) == v.pieces(depth),
        v.rest_tail(depth) is None,
        F64Bits::read_rest(data, depth) == F64Bits::read(data, depth).0,
{
}

/// A `Box` has the bytes of what it points to. Its hint is one level deeper, up to
/// twenty-one levels, and gives up beyond.
pub proof fn law_box_is_what_it_points_to<A: Dearbitrary>(
    v: Box<A>,
    data: Seq<u8>,
    depth: u8,
    hint_depth: usize,
)
    ensures
        v.model() == (*v).model(),
        v.pieces(depth) == (*v).pieces(depth),
        <Box<A>>::read(data, depth) == A::read(data, depth),
        <Box<A>>::hint(hint_depth) == if hint_depth <= 20 {
            A::hint((hint_depth + 1) as usize)
        } else {
            (0usize, None::<usize>)
        },
        v.readable(depth) == (*v).readable(depth),
        v.rest_readable(depth) == v.readable(depth),
        v.rest_pieces(depth) == v.pieces(depth),
        v.rest_tail(depth) is None,
        <Box<A>>::read_rest(data, depth) == A::read(data, depth).0,
{
}

/// A `Rc` has the bytes of what it points to. Its hint is one level deeper, up to
/// twenty-one levels, and gives up beyond.
pub proof fn law_rc_is_what_it_points_to<A: Dearbitrary>(
    v: Rc<A>,
    data: Seq<u8>,
    depth: u8,
    hint_depth: usize,
)
    ensures
        v.model() == (*v).model(),
        v.pieces(depth) == (*v).pieces(depth),
        <Rc<A>>::read(data, depth) == A::read(data, depth),
        <Rc<A>>::hint(hint_depth) == if hint_depth <= 20 {
            A::hint((hint_depth + 1) as usize)
        } else {
            (0usize, None::<usize>)
        },
        v.readable(depth) == (*v).readable(depth),
        v.rest_readable(depth) == v.readable(depth),
        v.rest_pieces(depth) == v.pieces(depth),
        v.rest_tail(depth) is None,
        <Rc<A>>::read_rest(data, depth) == A::read(data, depth).0,
{
}

/// An `Arc` has the bytes of what it points to. Its hint is one level deeper, up to
/// twenty-one levels, and gives up beyond.
pub proof fn law_arc_is_what_it_points_to<A: Dearbitrary>(
    v: Arc<A>,
    data: Seq<u8>,
    depth: u8,
    hint_depth: usize,
)
    ensures
        v.model() == (*v).model(),
        v.pieces(depth) == (*v).pieces(depth),
        <Arc<A>>::read(data, depth) == A::read(data, depth),
        <Arc<A>>::hint(hint_depth) == if hint_depth <= 20 {
            A::hint((hint_depth + 1) as usize)
        } else {
            (0usize, None::<usize>)
        },
        v.readable(depth) == (*v).readable(depth),
        v.rest_readable(depth) == v.readable(depth),
        v.rest_pieces(depth) == v.pieces(depth),
        v.rest_tail(depth) is None,
        <Arc<A>>::read_rest(data, depth) == A::read(data, depth).0,
{
}

/// An `Option` is the byte 1 and its value, or the byte 0. An odd byte reads as a value
/// to come, an even one and no byte as none.
pub proof fn law_option_is_a_tag_and_a_value<A: Dearbitrary>(
    v: Option<A>,
    data: Seq<u8>,
    depth: u8,
)
    ensures
        v.model() is Some <==> v is Some,
        v is Some ==> v.model()->0 == v->0.model(),
        v is Some ==> v.pieces(depth) == seq![Piece::Plain(seq![1u8])] + v->0.pieces(depth),
        v is None ==> v.pieces(depth) == seq![Piece::Plain(seq![0u8])],
        data.len() > 0 && data[0] & 1 == 1 ==> match A::read(data.skip(1), depth) {
            (Ok(m), left) => <Option<A>>::read(data, depth) == (
                Ok::<Option<A::Model>, Error>(Some(m)),
                left,
            ),
            (Err(e), left) => <Option<A>>::read(data, depth) == (
                Err::<Option<A::Model>, Error>(e),
                left,
            ),
        },
        data.len() > 0 && data[0] & 1 != 1 ==> <Option<A>>::read(data, depth) == (
            Ok::<Option<A::Model>, Error>(None),
            data.skip(1),
        ),
        data.len() == 0 ==> <Option<A>>::read(data, depth) == (
            Ok::<Option<A::Model>, Error>(None),
            data,
        ),
        v.readable(depth) == (v is Some ==> v->0.readable(depth)),
        v.rest_readable(depth) == v.readable(depth),
        v.rest_pieces(depth) == v.pieces(depth),
        v.rest_tail(depth) is None,
        <Option<A>>::read_rest(data, depth) == <Option<A>>::read(data, depth).0,
{
    law_low_bit_is_the_bool(true, data, depth, 0);
    law_low_bit_is_the_bool(false, data, depth, 0);
}

/// A `Result` is the byte 1 and its value, or the byte 0 and its error. An odd byte
/// reads as a value to come, an even one and no byte as an error to come.
pub proof fn law_result_is_a_tag_and_a_value<A: Dearbitrary, B: Dearbitrary>(
    v: Result<A, B>,
    data: Seq<u8>,
    depth: u8,
)
    ensures
        v.model() is Ok <==> v is Ok,
        v is Ok ==> v.model()->Ok_0 == v->Ok_0.model(),
        v is Err ==> v.model()->Err_0 == v->Err_0.model(),
        v is Ok ==> v.pieces(depth) == seq![Piece::Plain(seq![1u8])] + v->Ok_0.pieces(depth),
        v is Err ==> v.pieces(depth) == seq![Piece::Plain(seq![0u8])] + v->Err_0.pieces(depth),
        data.len() > 0 && data[0] & 1 == 1 ==> match A::read(data.skip(1), depth) {
            (Ok(m), left) => <Result<A, B>>::read(data, depth) == (
                Ok::<Result<A::Model, B::Model>, Error>(Ok(m)),
                left,
            ),
            (Err(e), left) => <Result<A, B>>::read(data, depth) == (
                Err::<Result<A::Model, B::Model>, Error>(e),
                left,
            ),
        },
        data.len() == 0 || data[0] & 1 != 1 ==> match B::read(
            if data.len() == 0 {
                data
            } else {
                data.skip(1)
            },
            depth,
        ) {
            (Ok(m), left) => <Result<A, B>>::read(data, depth) == (
                Ok::<Result<A::Model, B::Model>, Error>(Err(m)),
                left,
            ),
            (Err(e), left) => <Result<A, B>>::read(data, depth) == (
                Err::<Result<A::Model, B::Model>, Error>(e),
                left,
            ),
        },
        v.readable(depth) == match v {
            Ok(a) => a.readable(depth),
            Err(b) => b.readable(depth),
        },
        v.rest_readable(depth) == v.readable(depth),
        v.rest_pieces(depth) == v.pieces(depth),
        v.rest_tail(depth) is None,
        <Result<A, B>>::read_rest(data, depth) == <Result<A, B>>::read(data, depth).0,
{
    law_low_bit_is_the_bool(true, data, depth, 0);
    law_low_bit_is_the_bool(false, data, depth, 0);
}

/// The hint of an `Option` is one byte more than nothing or the value.
pub proof fn law_option_hint<A: Arbitrary>(hint_depth: usize)
    ensures
        <Option<A>>::hint(hint_depth).0 == 1,
        match A::hint(hint_depth).1 {
            Some(upper) if upper < usize::MAX => <Option<A>>::hint(hint_depth).1 == Some(
                (upper + 1) as usize,
            ),
            _ => <Option<A>>::hint(hint_depth).1 is None,
        },
{
}

/// The hint of a `Result` is one byte more than the value or the error.
pub proof fn law_result_hint<A: Arbitrary, B: Arbitrary>(hint_depth: usize)
    ensures
        ({
            let h = <Result<A, B>>::hint(hint_depth);
            let a = A::hint(hint_depth);
            let b = B::hint(hint_depth);
            &&& h.0 <= a.0 + 1 && h.0 <= b.0 + 1
            &&& h.0 == a.0 + 1 || h.0 == b.0 + 1 || h.0 == usize::MAX
            &&& h.0 == usize::MAX ==> a.0 + 1 >= usize::MAX && b.0 + 1 >= usize::MAX
            &&& h.1 matches Some(u) ==> {
                &&& a.1 matches Some(ua) && b.1 matches Some(ub) && ua < u && ub < u && (u == ua + 1
                    || u == ub + 1)
            }
            &&& h.1 is None ==> match (a.1, b.1) {
                (Some(ua), Some(ub)) => ua == usize::MAX || ub == usize::MAX,
                _ => true,
            }
        }),
{
}

/// The bounds for two values in a row add up. A sum that is out of range is
/// `usize::MAX` below and no bound above.
pub proof fn law_bounds_in_a_row_add_up(
    lhs: (usize, Option<usize>),
    rhs: (usize, Option<usize>),
)
    ensures
        ({
            let h = size_hint::both(lhs, rhs);
            &&& lhs.0 + rhs.0 <= usize::MAX ==> h.0 == lhs.0 + rhs.0
            &&& lhs.0 + rhs.0 > usize::MAX ==> h.0 == usize::MAX
            &&& h.1 is Some <==> lhs.1 is Some && rhs.1 is Some && lhs.1->0 + rhs.1->0
                <= usize::MAX
            &&& h.1 matches Some(u) ==> u == lhs.1->0 + rhs.1->0
            &&& size_hint::both(rhs, lhs) == h
            &&& size_hint::both((0, Some(0)), rhs) == rhs
        }),
{
}

/// The bounds for one of two values are the smaller lower and the larger upper bound.
pub proof fn law_bounds_of_one_of_two(lhs: (usize, Option<usize>), rhs: (usize, Option<usize>))
    ensures
        ({
            let h = size_hint::either(lhs, rhs);
            &&& h.0 <= lhs.0 && h.0 <= rhs.0 && (h.0 == lhs.0 || h.0 == rhs.0)
            &&& h.1 is Some <==> lhs.1 is Some && rhs.1 is Some
            &&& h.1 matches Some(u) ==> u >= lhs.1->0 && u >= rhs.1->0 && (u == lhs.1->0 || u
                == rhs.1->0)
            &&& size_hint::either(rhs, lhs) == h
            &&& size_hint::either(lhs, lhs) == lhs
        }),
{
}

/// The bounds for one value more in a row are those for the row and for the value
/// together, as far as the sums are in range.
pub proof fn law_repeated_bounds_add_up(hint: (usize, Option<usize>), n: usize)
    ensures
        size_hint::repeated(hint, 0) == (0usize, if hint.1 is Some {
            Some(0usize)
        } else {
            None
        }),
        n < usize::MAX ==> size_hint::repeated(hint, (n + 1) as usize) == size_hint::both(
            size_hint::repeated(hint, n),
            hint,
        ),
{
    assert(hint.0 * (n + 1) == hint.0 * n + hint.0) by (nonlinear_arith);
    assert(hint.0 * n >= 0) by (nonlinear_arith);
    if let Some(upper) = hint.1 {
        assert(upper * (n + 1) == upper * n + upper) by (nonlinear_arith);
        assert(upper * n >= 0) by (nonlinear_arith);
    }
}

} // verus!
