//! The `u32` that selects an enum variant.

use vstd::prelude::*;

verus! {

/// How many variants can be told apart by a `u32` selector at the midpoint of
/// each variant's share.
pub const MAX_VARIANTS: u64 = 0x8000_0000;

/// The selector that is written for the variant at `index` out of `count`: the
/// midpoint of the selectors that choose it.
pub open spec fn selector(index: int, count: int) -> int {
    if count == 1 {
        0
    } else {
        ((2 * index + 1) * 0x1_0000_0000) / (2 * count)
    }
}

/// The variant that a selector chooses out of `count`, by multiply and shift.
pub open spec fn chosen(selector: int, count: int) -> int {
    (selector * count) / 0x1_0000_0000
}

proof fn lemma_selector(index: int, count: int)
    requires
        0 <= index < count <= MAX_VARIANTS,
    ensures
        0 <= selector(index, count) <= u32::MAX,
        0 <= (2 * index + 1) * 0x1_0000_0000 <= u64::MAX,
        index * 0x1_0000_0000 <= selector(index, count) * count < (index + 1) * 0x1_0000_0000,
{
    let q = (2 * index + 1) * 0x1_0000_0000;
    let d = 2 * count;
    let v = q / d;
    vstd::arithmetic::div_mod::lemma_fundamental_div_mod(q, d);
    vstd::arithmetic::div_mod::lemma_mod_bound(q, d);
    assert(d * v == 2 * (v * count)) by (nonlinear_arith)
        requires
            d == 2 * count,
    ;
    assert(v >= 0) by {
        vstd::arithmetic::div_mod::lemma_div_pos_is_pos(q, d);
    }
    assert(v < 0x1_0000_0000) by (nonlinear_arith)
        requires
            d * v <= q,
            q < d * 0x1_0000_0000,
            d > 0,
    ;
}

/// The midpoint selector of a variant chooses that variant.
pub proof fn law_selector_chooses_its_variant(index: int, count: int)
    requires
        0 <= index < count <= MAX_VARIANTS,
    ensures
        0 <= selector(index, count) <= u32::MAX,
        chosen(selector(index, count), count) == index,
{
    lemma_selector(index, count);
    let x = selector(index, count) * count;
    assert(x / 0x1_0000_0000 == index) by (nonlinear_arith)
        requires
            index * 0x1_0000_0000 <= x < (index + 1) * 0x1_0000_0000,
    ;
}

/// The selector that is written for one of several variants is the midpoint of its
/// share of the selectors, rounded down; a single variant gets zero.
pub proof fn law_selector_is_the_midpoint(index: int, count: int)
    requires
        0 <= index < count,
    ensures
        count == 1 ==> selector(index, count) == 0,
        count > 1 ==> selector(index, count) * (2 * count) <= (2 * index + 1) * 0x1_0000_0000 < (
        selector(index, count) + 1) * (2 * count),
{
    let q = (2 * index + 1) * 0x1_0000_0000;
    let d = 2 * count;
    vstd::arithmetic::div_mod::lemma_fundamental_div_mod(q, d);
    vstd::arithmetic::div_mod::lemma_mod_bound(q, d);
    assert(d * (q / d) == (q / d) * d) by (nonlinear_arith);
    assert((q / d + 1) * d == (q / d) * d + d) by (nonlinear_arith);
}

/// A selector chooses the variant in whose share of the selectors it lies.
pub proof fn law_chosen_variant_holds_the_selector(selector: int, count: int)
    requires
        0 <= selector,
        0 < count,
    ensures
        chosen(selector, count) * 0x1_0000_0000 <= selector * count < (chosen(selector, count) + 1)
            * 0x1_0000_0000,
{
}

/// Every selector chooses one of the variants.
pub proof fn law_every_selector_chooses(selector: u32, count: int)
    requires
        0 < count,
    ensures
        0 <= chosen(selector as int, count) < count,
{
    let x = selector * count;
    assert(0 <= x < count * 0x1_0000_0000) by (nonlinear_arith)
        requires
            x == selector * count,
            0 < count,
            0 <= selector < 0x1_0000_0000,
    ;
    assert(0 <= x / 0x1_0000_0000 < count) by (nonlinear_arith)
        requires
            0 <= x < count * 0x1_0000_0000,
    ;
}

/// The selector to write for the variant at `index` out of `count`.
///
/// Any selector works for a single variant; it gets zero.
pub fn variant_selector(index: u64, count: u64) -> (r: u32)
    requires
        index < count <= MAX_VARIANTS,
    ensures
        r == selector(index as int, count as int),
{
    if count == 1 {
        0
    } else {
        proof {
            lemma_selector(index as int, count as int);
        }
        (((2 * index + 1) * 0x1_0000_0000) / (2 * count)) as u32
    }
}

/// The variant that `selector` chooses out of `count`.
pub fn variant_index(selector: u32, count: u64) -> (r: u64)
    requires
        count <= 0x1_0000_0000,
    ensures
        r == chosen(selector as int, count as int),
{
    let x: u64 = selector as u64;
    assert(x * count <= u64::MAX) by (nonlinear_arith)
        requires
            x <= 0xffff_ffff,
            count <= 0x1_0000_0000,
    ;
    let y: u64 = x * count;
    assert(y >> 32 == y / 0x1_0000_0000) by (bit_vector);
    y >> 32
}

} // verus!
