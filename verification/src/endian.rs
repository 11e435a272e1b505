//! Fixed-width little-endian and big-endian digits in base 256.

use vstd::prelude::*;

verus! {

/// `256` to the power `n`.
pub open spec fn pow256(n: nat) -> nat
    decreases n,
{
    if n == 0 {
        1
    } else {
        256 * pow256((n - 1) as nat)
    }
}

/// The `n` low base-256 digits of `v`, least significant first. A negative `v`
/// gives the digits of its two's complement.
pub open spec fn le_bytes(v: int, n: nat) -> Seq<u8>
    decreases n,
{
    if n == 0 {
        Seq::empty()
    } else {
        seq![(v % 256) as u8] + le_bytes(v / 256, (n - 1) as nat)
    }
}

/// The number whose base-256 digits are `s`, least significant first.
pub open spec fn le_value(s: Seq<u8>) -> nat
    decreases s.len(),
{
    if s.len() == 0 {
        0
    } else {
        s[0] as nat + 256 * le_value(s.drop_first())
    }
}

/// The `n` low base-256 digits of `v`, most significant first.
pub open spec fn be_bytes(v: int, n: nat) -> Seq<u8>
    decreases n,
{
    if n == 0 {
        Seq::empty()
    } else {
        be_bytes(v / 256, (n - 1) as nat).push((v % 256) as u8)
    }
}

/// The number whose base-256 digits are `s`, most significant first.
pub open spec fn be_value(s: Seq<u8>) -> nat
    decreases s.len(),
{
    if s.len() == 0 {
        0
    } else {
        256 * be_value(s.drop_last()) + s.last() as nat
    }
}

/// The value in the signed range of `n` bytes that is congruent to `u`.
pub open spec fn signed_value(u: nat, n: nat) -> int {
    if 2 * u >= pow256(n) {
        u - pow256(n)
    } else {
        u as int
    }
}

/// The powers that the integer widths use.
pub proof fn lemma_pow256_widths()
    ensures
        pow256(0) == 1,
        pow256(1) == 0x100,
        pow256(2) == 0x1_0000,
        pow256(4) == 0x1_0000_0000,
        pow256(8) == 0x1_0000_0000_0000_0000,
        pow256(16) == 0x1_0000_0000_0000_0000_0000_0000_0000_0000,
{
    reveal_with_fuel(pow256, 17);
}

/// Digits have the width asked for.
pub proof fn lemma_bytes_len(v: int, n: nat)
    ensures
        le_bytes(v, n).len() == n,
        be_bytes(v, n).len() == n,
    decreases n,
{
    if n > 0 {
        lemma_bytes_len(v / 256, (n - 1) as nat);
    }
}

/// The digits of `v` are the digits of its residue modulo `256^n`.
pub proof fn lemma_le_value_of_bytes(v: int, n: nat)
    ensures
        le_value(le_bytes(v, n)) == v % (pow256(n) as int),
        pow256(n) > 0,
    decreases n,
{
    if n > 0 {
        let m = (n - 1) as nat;
        lemma_le_value_of_bytes(v / 256, m);
        assert(le_bytes(v, n).drop_first() =~= le_bytes(v / 256, m));
        let p = pow256(m) as int;
        let q = (v / 256) / p;
        let r = 256 * ((v / 256) % p) + v % 256;
        vstd::arithmetic::div_mod::lemma_fundamental_div_mod(v / 256, p);
        vstd::arithmetic::div_mod::lemma_mod_bound(v / 256, p);
        assert(256 * (p * q) == q * (256 * p)) by (nonlinear_arith);
        vstd::arithmetic::div_mod::lemma_fundamental_div_mod_converse(v, 256 * p, q, r);
    }
}

/// Big-endian digits of a number that fits the width stand for that number.
pub proof fn lemma_be_value_of_bytes(v: int, n: nat)
    requires
        0 <= v < pow256(n),
    ensures
        be_value(be_bytes(v, n)) == v,
    decreases n,
{
    if n > 0 {
        let m = (n - 1) as nat;
        lemma_be_value_of_bytes(v / 256, m);
        assert(be_bytes(v, n).drop_last() =~= be_bytes(v / 256, m));
    }
}

/// A number never reaches the power of its digit count.
pub proof fn lemma_value_bound(s: Seq<u8>)
    ensures
        le_value(s) < pow256(s.len()),
        be_value(s) < pow256(s.len()),
    decreases s.len(),
{
    if s.len() > 0 {
        lemma_value_bound(s.drop_first());
        lemma_value_bound(s.drop_last());
    }
}

/// Numbers that are congruent modulo `256^n` have the same `n` low digits.
pub proof fn lemma_le_bytes_congruent(v: int, n: nat)
    ensures
        le_bytes(v + pow256(n), n) == le_bytes(v, n),
    decreases n,
{
    if n > 0 {
        let m = (n - 1) as nat;
        lemma_le_bytes_congruent(v / 256, m);
        assert((v + pow256(n)) / 256 == v / 256 + pow256(m));
        assert((v + pow256(n)) % 256 == v % 256);
    }
}

/// Big-endian digits of a number that fits `n` bytes, in a wider field, end in
/// its digits in `n` bytes.
pub proof fn lemma_be_bytes_narrow(v: int, n: nat, wide: nat)
    requires
        n <= wide,
    ensures
        be_bytes(v, wide).skip(wide - n) == be_bytes(v, n),
    decreases n,
{
    lemma_bytes_len(v, wide);
    lemma_bytes_len(v, n);
    if n > 0 {
        lemma_be_bytes_narrow(v / 256, (n - 1) as nat, (wide - 1) as nat);
        lemma_bytes_len(v / 256, (wide - 1) as nat);
        assert(be_bytes(v, wide).skip(wide - n) =~= be_bytes(v / 256, (wide - 1) as nat).skip(
            wide - n,
        ).push((v % 256) as u8));
    } else {
        assert(be_bytes(v, wide).skip(wide as int) =~= Seq::<u8>::empty());
    }
}

/// The `n` low bytes of `v`, least significant first.
pub fn to_le(v: u128, n: usize) -> (out: Vec<u8>)
    ensures
        out@ == le_bytes(v as int, n as nat),
{
    let mut out: Vec<u8> = Vec::new();
    let mut rest: u128 = v;
    let mut i: usize = 0;
    while i < n
        invariant
            i <= n,
            out@ + le_bytes(rest as int, (n - i) as nat) == le_bytes(v as int, n as nat),
        decreases n - i,
    {
        let ghost before = out@;
        let digit: u8 = (rest % 256) as u8;
        out.push(digit);
        proof {
            assert(out@ + le_bytes(rest as int / 256, (n - i - 1) as nat) =~= before + le_bytes(
                rest as int,
                (n - i) as nat,
            ));
        }
        rest = rest / 256;
        i = i + 1;
    }
    proof {
        assert(out@ =~= out@ + le_bytes(rest as int, 0));
    }
    out
}

/// The `n` low bytes of `v`, most significant first.
pub fn to_be(v: u64, n: usize) -> (out: Vec<u8>)
    ensures
        out@ == be_bytes(v as int, n as nat),
    decreases n,
{
    if n == 0 {
        Vec::new()
    } else {
        let mut out: Vec<u8> = to_be(v / 256, n - 1);
        out.push((v % 256) as u8);
        out
    }
}

/// The number whose little-endian digits are `bytes`.
pub fn from_le(bytes: &[u8]) -> (v: u128)
    requires
        bytes@.len() <= 16,
    ensures
        v == le_value(bytes@),
{
    let mut v: u128 = 0;
    let mut i: usize = bytes.len();
    while i > 0
        invariant
            bytes@.len() <= 16,
            i <= bytes@.len(),
            v == le_value(bytes@.skip(i as int)),
        decreases i,
    {
        i = i - 1;
        proof {
            assert(bytes@.skip(i as int).drop_first() =~= bytes@.skip(i + 1));
            lemma_value_bound(bytes@.skip(i as int));
            lemma_pow256_monotone(bytes@.skip(i as int).len(), 16);
            lemma_pow256_widths();
        }
        v = bytes[i] as u128 + 256 * v;
    }
    proof {
        assert(bytes@.skip(0) =~= bytes@);
    }
    v
}

/// The number whose big-endian digits are `bytes`.
pub fn from_be(bytes: &[u8]) -> (v: u64)
    requires
        bytes@.len() <= 8,
    ensures
        v == be_value(bytes@),
{
    let mut v: u64 = 0;
    let mut i: usize = 0;
    while i < bytes.len()
        invariant
            bytes@.len() <= 8,
            i <= bytes@.len(),
            v == be_value(bytes@.take(i as int)),
        decreases bytes@.len() - i,
    {
        proof {
            assert(bytes@.take(i + 1).drop_last() =~= bytes@.take(i as int));
            lemma_value_bound(bytes@.take(i + 1));
            lemma_pow256_monotone(bytes@.take(i + 1).len(), 8);
            lemma_pow256_widths();
        }
        v = 256 * v + bytes[i] as u64;
        i = i + 1;
    }
    proof {
        assert(bytes@.take(bytes@.len() as int) =~= bytes@);
    }
    v
}

/// Wider fields reach further.
pub proof fn lemma_pow256_monotone(m: nat, n: nat)
    requires
        m <= n,
    ensures
        pow256(m) <= pow256(n),
        pow256(m) > 0,
    decreases n,
{
    if m < n {
        lemma_pow256_monotone(m, (n - 1) as nat);
    } else if n > 0 {
        lemma_pow256_monotone((m - 1) as nat, (n - 1) as nat);
    }
}

} // verus!
