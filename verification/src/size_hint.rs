//! Bounds on how many bytes a value takes, and how they combine.

use vstd::prelude::*;

verus! {

/// Whether `len` bytes and `sizes` size suffixes are within the hint: a hint with
/// an upper bound admits no suffixes.
pub open spec fn within(hint: (usize, Option<usize>), sizes: nat, len: nat) -> bool {
    hint.1 matches Some(upper) ==> sizes == 0 && hint.0 <= len <= upper
}

/// The hint for two values in a row. A lower bound that is out of range is
/// `usize::MAX`; an upper bound that is out of range is none.
pub open spec fn both(lhs: (usize, Option<usize>), rhs: (usize, Option<usize>)) -> (
    usize,
    Option<usize>,
) {
    (
        if lhs.0 + rhs.0 > usize::MAX {
            usize::MAX
        } else {
            (lhs.0 + rhs.0) as usize
        },
        match (lhs.1, rhs.1) {
            (Some(l), Some(r)) => if l + r > usize::MAX {
                None
            } else {
                Some((l + r) as usize)
            },
            _ => None,
        },
    )
}

/// The hint for one of two values.
pub open spec fn either(lhs: (usize, Option<usize>), rhs: (usize, Option<usize>)) -> (
    usize,
    Option<usize>,
) {
    (
        if lhs.0 <= rhs.0 {
            lhs.0
        } else {
            rhs.0
        },
        match (lhs.1, rhs.1) {
            (Some(l), Some(r)) => Some(
                if l >= r {
                    l
                } else {
                    r
                },
            ),
            _ => None,
        },
    )
}

/// The hint for `n` values in a row.
pub open spec fn repeated(hint: (usize, Option<usize>), n: usize) -> (usize, Option<usize>) {
    (
        if hint.0 * n > usize::MAX {
            usize::MAX
        } else {
            (hint.0 * n) as usize
        },
        match hint.1 {
            Some(upper) => if upper * n > usize::MAX {
                None
            } else {
                Some((upper * n) as usize)
            },
            None => None,
        },
    )
}

/// The nesting beyond which a hint gives up.
pub const MAX_DEPTH: usize = 20;

/// Two values in a row stay within both hints together.
pub proof fn lemma_both(
    lhs: (usize, Option<usize>),
    rhs: (usize, Option<usize>),
    s1: nat,
    n1: nat,
    s2: nat,
    n2: nat,
)
    requires
        within(lhs, s1, n1),
        within(rhs, s2, n2),
    ensures
        within(both(lhs, rhs), s1 + s2, n1 + n2),
{
}

/// One of two values stays within the hint for either.
pub proof fn lemma_either(
    lhs: (usize, Option<usize>),
    rhs: (usize, Option<usize>),
    sizes: nat,
    len: nat,
)
    requires
        within(lhs, sizes, len) || within(rhs, sizes, len),
    ensures
        within(either(lhs, rhs), sizes, len),
{
}

/// The hint for two values in a row.
pub fn and(lhs: (usize, Option<usize>), rhs: (usize, Option<usize>)) -> (hint: (
    usize,
    Option<usize>,
))
    ensures
        hint == both(lhs, rhs),
{
    let lower: usize = match lhs.0.checked_add(rhs.0) {
        Some(sum) => sum,
        None => usize::MAX,
    };
    let upper: Option<usize> = match (lhs.1, rhs.1) {
        (Some(l), Some(r)) => l.checked_add(r),
        _ => None,
    };
    (lower, upper)
}

/// The hint for one of two values.
pub fn or(lhs: (usize, Option<usize>), rhs: (usize, Option<usize>)) -> (hint: (
    usize,
    Option<usize>,
))
    ensures
        hint == either(lhs, rhs),
{
    let lower: usize = if lhs.0 <= rhs.0 {
        lhs.0
    } else {
        rhs.0
    };
    let upper: Option<usize> = match (lhs.1, rhs.1) {
        (Some(l), Some(r)) => Some(
            if l >= r {
                l
            } else {
                r
            },
        ),
        _ => None,
    };
    (lower, upper)
}

/// The hint for `n` values in a row.
pub fn times(hint: (usize, Option<usize>), n: usize) -> (result: (usize, Option<usize>))
    ensures
        result == repeated(hint, n),
{
    let lower: usize = match hint.0.checked_mul(n) {
        Some(product) => product,
        None => usize::MAX,
    };
    let upper: Option<usize> = match hint.1 {
        Some(upper) => upper.checked_mul(n),
        None => None,
    };
    (lower, upper)
}

} // verus!
