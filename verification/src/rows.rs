//! Tuples of every length: the bytes of their parts in a row, and nothing else.

use crate::arbitrary::{Arbitrary, Modelled};
use crate::dearbitrary::Dearbitrary;
use crate::unstructured::Error;
use vstd::prelude::*;

verus! {

/// What reading a tuple comes to where all its parts are read.
#[verifier::inline]
pub open spec fn done<T: Arbitrary>(model: T::Model, left: Seq<u8>) -> (
    Result<T::Model, Error>,
    Seq<u8>,
) {
    (Ok(model), left)
}

/// What reading a tuple comes to where one of its parts fails.
#[verifier::inline]
pub open spec fn failed<T: Arbitrary>(e: Error, left: Seq<u8>) -> (
    Result<T::Model, Error>,
    Seq<u8>,
) {
    (Err(e), left)
}

/// A tuple of one.
pub proof fn law_tuple_of_one<A: Dearbitrary>(
    v: (A,),
    d0: Seq<u8>,
    depth: u8,
    hint_depth: usize,
)
    ensures
        v.model() == (v.0.model(),),
        v.pieces(depth) == v.0.pieces(depth),
        ({
            let r = <(A,)>::read(d0, depth);
            let (ra, d1) = A::read(d0, depth);
            &&& ra is Ok ==> r == done::<(A,)>((ra->Ok_0,), d1)
            &&& ra is Err ==> r == failed::<(A,)>(
                ra->Err_0,
                d1,
            )
        }),
        ({
            let lower = A::hint(hint_depth).0;
            <(A,)>::hint(hint_depth).0 == if lower > usize::MAX {
                usize::MAX as int
            } else {
                lower as int
            }
        }),
        match <(A,)>::hint(hint_depth).1 {
            Some(upper) => {
                &&& A::hint(hint_depth).1 is Some
                &&& upper == A::hint(hint_depth).1->0
            },
            None => !(A::hint(hint_depth).1 is Some
                && A::hint(hint_depth).1->0 <= usize::MAX),
        },
        v.readable(depth) == (v.0.readable(depth)),
        v.rest_readable(depth) == v.readable(depth),
        v.rest_pieces(depth) == v.pieces(depth),
        v.rest_tail(depth) is None,
        <(A,)>::read_rest(d0, depth) == <(A,)>::read(d0, depth).0,
{
}

/// A tuple of two.
pub proof fn law_tuple_of_two<A: Dearbitrary, B: Dearbitrary>(
    v: (A, B),
    d0: Seq<u8>,
    depth: u8,
    hint_depth: usize,
)
    ensures
        v.model() == (v.0.model(), v.1.model()),
        v.pieces(depth) == v.0.pieces(depth) + v.1.pieces(depth),
        ({
            let r = <(A, B)>::read(d0, depth);
            let (ra, d1) = A::read(d0, depth);
            let (rb, d2) = B::read(d1, depth);
            &&& ra is Ok && rb is Ok ==> r == done::<(A, B)>((ra->Ok_0, rb->Ok_0), d2)
            &&& ra is Err ==> r == failed::<(A, B)>(
                ra->Err_0,
                d1,
            )
            &&& ra is Ok && rb is Err ==> r == failed::<(A, B)>(
                rb->Err_0,
                d2,
            )
        }),
        ({
            let lower = A::hint(hint_depth).0 + B::hint(hint_depth).0;
            <(A, B)>::hint(hint_depth).0 == if lower > usize::MAX {
                usize::MAX as int
            } else {
                lower as int
            }
        }),
        match <(A, B)>::hint(hint_depth).1 {
            Some(upper) => {
                &&& A::hint(hint_depth).1 is Some && B::hint(hint_depth).1 is Some
                &&& upper == A::hint(hint_depth).1->0 + B::hint(hint_depth).1->0
            },
            None => !(A::hint(hint_depth).1 is Some && B::hint(hint_depth).1 is Some
                && A::hint(hint_depth).1->0 + B::hint(hint_depth).1->0 <= usize::MAX),
        },
        v.readable(depth) == (v.0.readable(depth) && v.1.readable(depth)),
        v.rest_readable(depth) == v.readable(depth),
        v.rest_pieces(depth) == v.pieces(depth),
        v.rest_tail(depth) is None,
        <(A, B)>::read_rest(d0, depth) == <(A, B)>::read(d0, depth).0,
{
    law_tuple_of_one((v.1,), A::read(d0, depth).1, depth, hint_depth);
}

/// A tuple of three.
pub proof fn law_tuple_of_three<A: Dearbitrary, B: Dearbitrary, C: Dearbitrary>(
    v: (A, B, C),
    d0: Seq<u8>,
    depth: u8,
    hint_depth: usize,
)
    ensures
        v.model() == (v.0.model(), v.1.model(), v.2.model()),
        v.pieces(depth) == v.0.pieces(depth) + v.1.pieces(depth) + v.2.pieces(depth),
        ({
            let r = <(A, B, C)>::read(d0, depth);
            let (ra, d1) = A::read(d0, depth);
            let (rb, d2) = B::read(d1, depth);
            let (rc, d3) = C::read(d2, depth);
            &&& ra is Ok && rb is Ok && rc is Ok ==> r == done::<(A, B, C)>((ra->Ok_0, rb->Ok_0, rc->Ok_0), d3)
            &&& ra is Err ==> r == failed::<(A, B, C)>(
                ra->Err_0,
                d1,
            )
            &&& ra is Ok && rb is Err ==> r == failed::<(A, B, C)>(
                rb->Err_0,
                d2,
            )
            &&& ra is Ok && rb is Ok && rc is Err ==> r == failed::<(A, B, C)>(
                rc->Err_0,
                d3,
            )
        }),
        ({
            let lower = A::hint(hint_depth).0 + B::hint(hint_depth).0 + C::hint(hint_depth).0;
            <(A, B, C)>::hint(hint_depth).0 == if lower > usize::MAX {
                usize::MAX as int
            } else {
                lower as int
            }
        }),
        match <(A, B, C)>::hint(hint_depth).1 {
            Some(upper) => {
                &&& A::hint(hint_depth).1 is Some && B::hint(hint_depth).1 is Some
                && C::hint(hint_depth).1 is Some
                &&& upper == A::hint(hint_depth).1->0 + B::hint(hint_depth).1->0 + C::hint(hint_depth).1->0
            },
            None => !(A::hint(hint_depth).1 is Some && B::hint(hint_depth).1 is Some
                && C::hint(hint_depth).1 is Some
                && A::hint(hint_depth).1->0 + B::hint(hint_depth).1->0 + C::hint(hint_depth).1->0 <= usize::MAX),
        },
        v.readable(depth) == (v.0.readable(depth) && v.1.readable(depth) && v.2.readable(depth)),
        v.rest_readable(depth) == v.readable(depth),
        v.rest_pieces(depth) == v.pieces(depth),
        v.rest_tail(depth) is None,
        <(A, B, C)>::read_rest(d0, depth) == <(A, B, C)>::read(d0, depth).0,
{
    law_tuple_of_two((v.1, v.2), A::read(d0, depth).1, depth, hint_depth);
    assert(v.pieces(depth) =~= v.0.pieces(depth) + v.1.pieces(depth) + v.2.pieces(depth));
}

/// A tuple of four.
pub proof fn law_tuple_of_four<A: Dearbitrary, B: Dearbitrary, C: Dearbitrary, D: Dearbitrary>(
    v: (A, B, C, D),
    d0: Seq<u8>,
    depth: u8,
    hint_depth: usize,
)
    ensures
        v.model() == (v.0.model(), v.1.model(), v.2.model(), v.3.model()),
        v.pieces(depth) == v.0.pieces(depth) + v.1.pieces(depth) + v.2.pieces(depth) + v.3.pieces(depth),
        ({
            let r = <(A, B, C, D)>::read(d0, depth);
            let (ra, d1) = A::read(d0, depth);
            let (rb, d2) = B::read(d1, depth);
            let (rc, d3) = C::read(d2, depth);
            let (rd, d4) = D::read(d3, depth);
            &&& ra is Ok && rb is Ok && rc is Ok && rd is Ok ==> r == done::<(A, B, C, D)>((ra->Ok_0, rb->Ok_0, rc->Ok_0, rd->Ok_0), d4)
            &&& ra is Err ==> r == failed::<(A, B, C, D)>(
                ra->Err_0,
                d1,
            )
            &&& ra is Ok && rb is Err ==> r == failed::<(A, B, C, D)>(
                rb->Err_0,
                d2,
            )
            &&& ra is Ok && rb is Ok && rc is Err ==> r == failed::<(A, B, C, D)>(
                rc->Err_0,
                d3,
            )
            &&& ra is Ok && rb is Ok && rc is Ok && rd is Err ==> r == failed::<(A, B, C, D)>(
                rd->Err_0,
                d4,
            )
        }),
        ({
            let lower = A::hint(hint_depth).0 + B::hint(hint_depth).0 + C::hint(hint_depth).0
                + D::hint(hint_depth).0;
            <(A, B, C, D)>::hint(hint_depth).0 == if lower > usize::MAX {
                usize::MAX as int
            } else {
                lower as int
            }
        }),
        match <(A, B, C, D)>::hint(hint_depth).1 {
            Some(upper) => {
                &&& A::hint(hint_depth).1 is Some && B::hint(hint_depth).1 is Some
                && C::hint(hint_depth).1 is Some && D::hint(hint_depth).1 is Some
                &&& upper == A::hint(hint_depth).1->0 + B::hint(hint_depth).1->0 + C::hint(hint_depth).1->0
                + D::hint(hint_depth).1->0
            },
            None => !(A::hint(hint_depth).1 is Some && B::hint(hint_depth).1 is Some
                && C::hint(hint_depth).1 is Some && D::hint(hint_depth).1 is Some
                && A::hint(hint_depth).1->0 + B::hint(hint_depth).1->0 + C::hint(hint_depth).1->0
                + D::hint(hint_depth).1->0 <= usize::MAX),
        },
        v.readable(depth) == (v.0.readable(depth) && v.1.readable(depth) && v.2.readable(depth)
            && v.3.readable(depth)),
        v.rest_readable(depth) == v.readable(depth),
        v.rest_pieces(depth) == v.pieces(depth),
        v.rest_tail(depth) is None,
        <(A, B, C, D)>::read_rest(d0, depth) == <(A, B, C, D)>::read(d0, depth).0,
{
    law_tuple_of_three((v.1, v.2, v.3), A::read(d0, depth).1, depth, hint_depth);
    assert(v.pieces(depth) =~= v.0.pieces(depth) + v.1.pieces(depth) + v.2.pieces(depth) + v.3.pieces(depth));
}

/// A tuple of five.
pub proof fn law_tuple_of_five<
    A: Dearbitrary, B: Dearbitrary, C: Dearbitrary, D: Dearbitrary, E: Dearbitrary,
>(
    v: (A, B, C, D, E),
    d0: Seq<u8>,
    depth: u8,
    hint_depth: usize,
)
    ensures
        v.model() == (
            v.0.model(), v.1.model(), v.2.model(), v.3.model(), v.4.model(),
        ),
        v.pieces(depth) == v.0.pieces(depth) + v.1.pieces(depth) + v.2.pieces(depth) + v.3.pieces(depth)
            + v.4.pieces(depth),
        ({
            let r = <(A, B, C, D, E)>::read(d0, depth);
            let (ra, d1) = A::read(d0, depth);
            let (rb, d2) = B::read(d1, depth);
            let (rc, d3) = C::read(d2, depth);
            let (rd, d4) = D::read(d3, depth);
            let (re, d5) = E::read(d4, depth);
            &&& ra is Ok && rb is Ok && rc is Ok && rd is Ok && re is Ok ==> r == done::<(A, B, C, D, E)>((
                    ra->Ok_0, rb->Ok_0, rc->Ok_0, rd->Ok_0, re->Ok_0,
                ), d5)
            &&& ra is Err ==> r == failed::<(A, B, C, D, E)>(
                ra->Err_0,
                d1,
            )
            &&& ra is Ok && rb is Err ==> r == failed::<(A, B, C, D, E)>(
                rb->Err_0,
                d2,
            )
            &&& ra is Ok && rb is Ok && rc is Err ==> r == failed::<(A, B, C, D, E)>(
                rc->Err_0,
                d3,
            )
            &&& ra is Ok && rb is Ok && rc is Ok && rd is Err ==> r == failed::<(A, B, C, D, E)>(
                rd->Err_0,
                d4,
            )
            &&& ra is Ok && rb is Ok && rc is Ok && rd is Ok && re is Err ==> r == failed::<(A, B, C, D, E)>(
                re->Err_0,
                d5,
            )
        }),
        ({
            let lower = A::hint(hint_depth).0 + B::hint(hint_depth).0 + C::hint(hint_depth).0
                + D::hint(hint_depth).0 + E::hint(hint_depth).0;
            <(A, B, C, D, E)>::hint(hint_depth).0 == if lower > usize::MAX {
                usize::MAX as int
            } else {
                lower as int
            }
        }),
        match <(A, B, C, D, E)>::hint(hint_depth).1 {
            Some(upper) => {
                &&& A::hint(hint_depth).1 is Some && B::hint(hint_depth).1 is Some
                && C::hint(hint_depth).1 is Some && D::hint(hint_depth).1 is Some
                && E::hint(hint_depth).1 is Some
                &&& upper == A::hint(hint_depth).1->0 + B::hint(hint_depth).1->0 + C::hint(hint_depth).1->0
                + D::hint(hint_depth).1->0 + E::hint(hint_depth).1->0
            },
            None => !(A::hint(hint_depth).1 is Some && B::hint(hint_depth).1 is Some
                && C::hint(hint_depth).1 is Some && D::hint(hint_depth).1 is Some
                && E::hint(hint_depth).1 is Some
                && A::hint(hint_depth).1->0 + B::hint(hint_depth).1->0 + C::hint(hint_depth).1->0
                + D::hint(hint_depth).1->0 + E::hint(hint_depth).1->0 <= usize::MAX),
        },
        v.readable(depth) == (v.0.readable(depth) && v.1.readable(depth) && v.2.readable(depth)
            && v.3.readable(depth) && v.4.readable(depth)),
        v.rest_readable(depth) == v.readable(depth),
        v.rest_pieces(depth) == v.pieces(depth),
        v.rest_tail(depth) is None,
        <(A, B, C, D, E)>::read_rest(d0, depth) == <(A, B, C, D, E)>::read(d0, depth).0,
{
    law_tuple_of_four((v.1, v.2, v.3, v.4), A::read(d0, depth).1, depth, hint_depth);
    assert(v.pieces(depth) =~= v.0.pieces(depth) + v.1.pieces(depth) + v.2.pieces(depth) + v.3.pieces(depth)
            + v.4.pieces(depth));
}

/// A tuple of six.
pub proof fn law_tuple_of_six<
    A: Dearbitrary, B: Dearbitrary, C: Dearbitrary, D: Dearbitrary, E: Dearbitrary,
    F: Dearbitrary,
>(
    v: (A, B, C, D, E, F),
    d0: Seq<u8>,
    depth: u8,
    hint_depth: usize,
)
    ensures
        v.model() == (
            v.0.model(), v.1.model(), v.2.model(), v.3.model(), v.4.model(), v.5.model(),
        ),
        v.pieces(depth) == v.0.pieces(depth) + v.1.pieces(depth) + v.2.pieces(depth) + v.3.pieces(depth)
            + v.4.pieces(depth) + v.5.pieces(depth),
        ({
            let r = <(A, B, C, D, E, F)>::read(d0, depth);
            let (ra, d1) = A::read(d0, depth);
            let (rb, d2) = B::read(d1, depth);
            let (rc, d3) = C::read(d2, depth);
            let (rd, d4) = D::read(d3, depth);
            let (re, d5) = E::read(d4, depth);
            let (rf, d6) = F::read(d5, depth);
            &&& ra is Ok && rb is Ok && rc is Ok && rd is Ok && re is Ok && rf is Ok ==> r == done::<(A, B, C, D, E, F)>((
                    ra->Ok_0, rb->Ok_0, rc->Ok_0, rd->Ok_0, re->Ok_0, rf->Ok_0,
                ), d6)
            &&& ra is Err ==> r == failed::<(A, B, C, D, E, F)>(
                ra->Err_0,
                d1,
            )
            &&& ra is Ok && rb is Err ==> r == failed::<(A, B, C, D, E, F)>(
                rb->Err_0,
                d2,
            )
            &&& ra is Ok && rb is Ok && rc is Err ==> r == failed::<(A, B, C, D, E, F)>(
                rc->Err_0,
                d3,
            )
            &&& ra is Ok && rb is Ok && rc is Ok && rd is Err ==> r == failed::<(A, B, C, D, E, F)>(
                rd->Err_0,
                d4,
            )
            &&& ra is Ok && rb is Ok && rc is Ok && rd is Ok && re is Err ==> r == failed::<(A, B, C, D, E, F)>(
                re->Err_0,
                d5,
            )
            &&& ra is Ok && rb is Ok && rc is Ok && rd is Ok && re is Ok && rf is Err ==> r == failed::<(A, B, C, D, E, F)>(
                rf->Err_0,
                d6,
            )
        }),
        ({
            let lower = A::hint(hint_depth).0 + B::hint(hint_depth).0 + C::hint(hint_depth).0
                + D::hint(hint_depth).0 + E::hint(hint_depth).0 + F::hint(hint_depth).0;
            <(A, B, C, D, E, F)>::hint(hint_depth).0 == if lower > usize::MAX {
                usize::MAX as int
            } else {
                lower as int
            }
        }),
        match <(A, B, C, D, E, F)>::hint(hint_depth).1 {
            Some(upper) => {
                &&& A::hint(hint_depth).1 is Some && B::hint(hint_depth).1 is Some
                && C::hint(hint_depth).1 is Some && D::hint(hint_depth).1 is Some
                && E::hint(hint_depth).1 is Some && F::hint(hint_depth).1 is Some
                &&& upper == A::hint(hint_depth).1->0 + B::hint(hint_depth).1->0 + C::hint(hint_depth).1->0
                + D::hint(hint_depth).1->0 + E::hint(hint_depth).1->0 + F::hint(hint_depth).1->0
            },
            None => !(A::hint(hint_depth).1 is Some && B::hint(hint_depth).1 is Some
                && C::hint(hint_depth).1 is Some && D::hint(hint_depth).1 is Some
                && E::hint(hint_depth).1 is Some && F::hint(hint_depth).1 is Some
                && A::hint(hint_depth).1->0 + B::hint(hint_depth).1->0 + C::hint(hint_depth).1->0
                + D::hint(hint_depth).1->0 + E::hint(hint_depth).1->0 + F::hint(hint_depth).1->0 <= usize::MAX),
        },
        v.readable(depth) == (v.0.readable(depth) && v.1.readable(depth) && v.2.readable(depth)
            && v.3.readable(depth) && v.4.readable(depth) && v.5.readable(depth)),
        v.rest_readable(depth) == v.readable(depth),
        v.rest_pieces(depth) == v.pieces(depth),
        v.rest_tail(depth) is None,
        <(A, B, C, D, E, F)>::read_rest(d0, depth) == <(A, B, C, D, E, F)>::read(d0, depth).0,
{
    law_tuple_of_five((v.1, v.2, v.3, v.4, v.5), A::read(d0, depth).1, depth, hint_depth);
    assert(v.pieces(depth) =~= v.0.pieces(depth) + v.1.pieces(depth) + v.2.pieces(depth) + v.3.pieces(depth)
            + v.4.pieces(depth) + v.5.pieces(depth));
}

/// A tuple of seven.
pub proof fn law_tuple_of_seven<
    A: Dearbitrary, B: Dearbitrary, C: Dearbitrary, D: Dearbitrary, E: Dearbitrary,
    F: Dearbitrary, G: Dearbitrary,
>(
    v: (A, B, C, D, E, F, G),
    d0: Seq<u8>,
    depth: u8,
    hint_depth: usize,
)
    ensures
        v.model() == (
            v.0.model(), v.1.model(), v.2.model(), v.3.model(), v.4.model(), v.5.model(),
            v.6.model(),
        ),
        v.pieces(depth) == v.0.pieces(depth) + v.1.pieces(depth) + v.2.pieces(depth) + v.3.pieces(depth)
            + v.4.pieces(depth) + v.5.pieces(depth) + v.6.pieces(depth),
        ({
            let r = <(A, B, C, D, E, F, G)>::read(d0, depth);
            let (ra, d1) = A::read(d0, depth);
            let (rb, d2) = B::read(d1, depth);
            let (rc, d3) = C::read(d2, depth);
            let (rd, d4) = D::read(d3, depth);
            let (re, d5) = E::read(d4, depth);
            let (rf, d6) = F::read(d5, depth);
            let (rg, d7) = G::read(d6, depth);
            &&& ra is Ok && rb is Ok && rc is Ok && rd is Ok && re is Ok && rf is Ok && rg is Ok ==> r == done::<(A, B, C, D, E, F, G)>((
                    ra->Ok_0, rb->Ok_0, rc->Ok_0, rd->Ok_0, re->Ok_0, rf->Ok_0, rg->Ok_0,
                ), d7)
            &&& ra is Err ==> r == failed::<(A, B, C, D, E, F, G)>(
                ra->Err_0,
                d1,
            )
            &&& ra is Ok && rb is Err ==> r == failed::<(A, B, C, D, E, F, G)>(
                rb->Err_0,
                d2,
            )
            &&& ra is Ok && rb is Ok && rc is Err ==> r == failed::<(A, B, C, D, E, F, G)>(
                rc->Err_0,
                d3,
            )
            &&& ra is Ok && rb is Ok && rc is Ok && rd is Err ==> r == failed::<(A, B, C, D, E, F, G)>(
                rd->Err_0,
                d4,
            )
            &&& ra is Ok && rb is Ok && rc is Ok && rd is Ok && re is Err ==> r == failed::<(A, B, C, D, E, F, G)>(
                re->Err_0,
                d5,
            )
            &&& ra is Ok && rb is Ok && rc is Ok && rd is Ok && re is Ok && rf is Err ==> r == failed::<(A, B, C, D, E, F, G)>(
                rf->Err_0,
                d6,
            )
            &&& ra is Ok && rb is Ok && rc is Ok && rd is Ok && re is Ok && rf is Ok
                && rg is Err ==> r == failed::<(A, B, C, D, E, F, G)>(
                rg->Err_0,
                d7,
            )
        }),
        ({
            let lower = A::hint(hint_depth).0 + B::hint(hint_depth).0 + C::hint(hint_depth).0
                + D::hint(hint_depth).0 + E::hint(hint_depth).0 + F::hint(hint_depth).0
                + G::hint(hint_depth).0;
            <(A, B, C, D, E, F, G)>::hint(hint_depth).0 == if lower > usize::MAX {
                usize::MAX as int
            } else {
                lower as int
            }
        }),
        match <(A, B, C, D, E, F, G)>::hint(hint_depth).1 {
            Some(upper) => {
                &&& A::hint(hint_depth).1 is Some && B::hint(hint_depth).1 is Some
                && C::hint(hint_depth).1 is Some && D::hint(hint_depth).1 is Some
                && E::hint(hint_depth).1 is Some && F::hint(hint_depth).1 is Some
                && G::hint(hint_depth).1 is Some
                &&& upper == A::hint(hint_depth).1->0 + B::hint(hint_depth).1->0 + C::hint(hint_depth).1->0
                + D::hint(hint_depth).1->0 + E::hint(hint_depth).1->0 + F::hint(hint_depth).1->0
                + G::hint(hint_depth).1->0
            },
            None => !(A::hint(hint_depth).1 is Some && B::hint(hint_depth).1 is Some
                && C::hint(hint_depth).1 is Some && D::hint(hint_depth).1 is Some
                && E::hint(hint_depth).1 is Some && F::hint(hint_depth).1 is Some
                && G::hint(hint_depth).1 is Some
                && A::hint(hint_depth).1->0 + B::hint(hint_depth).1->0 + C::hint(hint_depth).1->0
                + D::hint(hint_depth).1->0 + E::hint(hint_depth).1->0 + F::hint(hint_depth).1->0
                + G::hint(hint_depth).1->0 <= usize::MAX),
        },
        v.readable(depth) == (v.0.readable(depth) && v.1.readable(depth) && v.2.readable(depth)
            && v.3.readable(depth) && v.4.readable(depth) && v.5.readable(depth)
            && v.6.readable(depth)),
        v.rest_readable(depth) == v.readable(depth),
        v.rest_pieces(depth) == v.pieces(depth),
        v.rest_tail(depth) is None,
        <(A, B, C, D, E, F, G)>::read_rest(d0, depth) == <(A, B, C, D, E, F, G)>::read(d0, depth).0,
{
    law_tuple_of_six((v.1, v.2, v.3, v.4, v.5, v.6), A::read(d0, depth).1, depth, hint_depth);
    assert(v.pieces(depth) =~= v.0.pieces(depth) + v.1.pieces(depth) + v.2.pieces(depth) + v.3.pieces(depth)
            + v.4.pieces(depth) + v.5.pieces(depth) + v.6.pieces(depth));
}

/// A tuple of eight.
pub proof fn law_tuple_of_eight<
    A: Dearbitrary, B: Dearbitrary, C: Dearbitrary, D: Dearbitrary, E: Dearbitrary,
    F: Dearbitrary, G: Dearbitrary, H: Dearbitrary,
>(
    v: (A, B, C, D, E, F, G, H),
    d0: Seq<u8>,
    depth: u8,
    hint_depth: usize,
)
    ensures
        v.model() == (
            v.0.model(), v.1.model(), v.2.model(), v.3.model(), v.4.model(), v.5.model(),
            v.6.model(), v.7.model(),
        ),
        v.pieces(depth) == v.0.pieces(depth) + v.1.pieces(depth) + v.2.pieces(depth) + v.3.pieces(depth)
            + v.4.pieces(depth) + v.5.pieces(depth) + v.6.pieces(depth) + v.7.pieces(depth),
        ({
            let r = <(A, B, C, D, E, F, G, H)>::read(d0, depth);
            let (ra, d1) = A::read(d0, depth);
            let (rb, d2) = B::read(d1, depth);
            let (rc, d3) = C::read(d2, depth);
            let (rd, d4) = D::read(d3, depth);
            let (re, d5) = E::read(d4, depth);
            let (rf, d6) = F::read(d5, depth);
            let (rg, d7) = G::read(d6, depth);
            let (rh, d8) = H::read(d7, depth);
            &&& ra is Ok && rb is Ok && rc is Ok && rd is Ok && re is Ok && rf is Ok && rg is Ok
                && rh is Ok ==> r == done::<(A, B, C, D, E, F, G, H)>((
                    ra->Ok_0, rb->Ok_0, rc->Ok_0, rd->Ok_0, re->Ok_0, rf->Ok_0, rg->Ok_0,
                    rh->Ok_0,
                ), d8)
            &&& ra is Err ==> r == failed::<(A, B, C, D, E, F, G, H)>(
                ra->Err_0,
                d1,
            )
            &&& ra is Ok && rb is Err ==> r == failed::<(A, B, C, D, E, F, G, H)>(
                rb->Err_0,
                d2,
            )
            &&& ra is Ok && rb is Ok && rc is Err ==> r == failed::<(A, B, C, D, E, F, G, H)>(
                rc->Err_0,
                d3,
            )
            &&& ra is Ok && rb is Ok && rc is Ok && rd is Err ==> r == failed::<(A, B, C, D, E, F, G, H)>(
                rd->Err_0,
                d4,
            )
            &&& ra is Ok && rb is Ok && rc is Ok && rd is Ok && re is Err ==> r == failed::<(A, B, C, D, E, F, G, H)>(
                re->Err_0,
                d5,
            )
            &&& ra is Ok && rb is Ok && rc is Ok && rd is Ok && re is Ok && rf is Err ==> r == failed::<(A, B, C, D, E, F, G, H)>(
                rf->Err_0,
                d6,
            )
            &&& ra is Ok && rb is Ok && rc is Ok && rd is Ok && re is Ok && rf is Ok
                && rg is Err ==> r == failed::<(A, B, C, D, E, F, G, H)>(
                rg->Err_0,
                d7,
            )
            &&& ra is Ok && rb is Ok && rc is Ok && rd is Ok && re is Ok && rf is Ok && rg is Ok
                && rh is Err ==> r == failed::<(A, B, C, D, E, F, G, H)>(
                rh->Err_0,
                d8,
            )
        }),
        ({
            let lower = A::hint(hint_depth).0 + B::hint(hint_depth).0 + C::hint(hint_depth).0
                + D::hint(hint_depth).0 + E::hint(hint_depth).0 + F::hint(hint_depth).0
                + G::hint(hint_depth).0 + H::hint(hint_depth).0;
            <(A, B, C, D, E, F, G, H)>::hint(hint_depth).0 == if lower > usize::MAX {
                usize::MAX as int
            } else {
                lower as int
            }
        }),
        match <(A, B, C, D, E, F, G, H)>::hint(hint_depth).1 {
            Some(upper) => {
                &&& A::hint(hint_depth).1 is Some && B::hint(hint_depth).1 is Some
                && C::hint(hint_depth).1 is Some && D::hint(hint_depth).1 is Some
                && E::hint(hint_depth).1 is Some && F::hint(hint_depth).1 is Some
                && G::hint(hint_depth).1 is Some && H::hint(hint_depth).1 is Some
                &&& upper == A::hint(hint_depth).1->0 + B::hint(hint_depth).1->0 + C::hint(hint_depth).1->0
                + D::hint(hint_depth).1->0 + E::hint(hint_depth).1->0 + F::hint(hint_depth).1->0
                + G::hint(hint_depth).1->0 + H::hint(hint_depth).1->0
            },
            None => !(A::hint(hint_depth).1 is Some && B::hint(hint_depth).1 is Some
                && C::hint(hint_depth).1 is Some && D::hint(hint_depth).1 is Some
                && E::hint(hint_depth).1 is Some && F::hint(hint_depth).1 is Some
                && G::hint(hint_depth).1 is Some && H::hint(hint_depth).1 is Some
                && A::hint(hint_depth).1->0 + B::hint(hint_depth).1->0 + C::hint(hint_depth).1->0
                + D::hint(hint_depth).1->0 + E::hint(hint_depth).1->0 + F::hint(hint_depth).1->0
                + G::hint(hint_depth).1->0 + H::hint(hint_depth).1->0 <= usize::MAX),
        },
        v.readable(depth) == (v.0.readable(depth) && v.1.readable(depth) && v.2.readable(depth)
            && v.3.readable(depth) && v.4.readable(depth) && v.5.readable(depth)
            && v.6.readable(depth) && v.7.readable(depth)),
        v.rest_readable(depth) == v.readable(depth),
        v.rest_pieces(depth) == v.pieces(depth),
        v.rest_tail(depth) is None,
        <(A, B, C, D, E, F, G, H)>::read_rest(d0, depth) == <(A, B, C, D, E, F, G, H)>::read(d0, depth).0,
{
    law_tuple_of_seven((v.1, v.2, v.3, v.4, v.5, v.6, v.7), A::read(d0, depth).1, depth, hint_depth);
    assert(v.pieces(depth) =~= v.0.pieces(depth) + v.1.pieces(depth) + v.2.pieces(depth) + v.3.pieces(depth)
            + v.4.pieces(depth) + v.5.pieces(depth) + v.6.pieces(depth) + v.7.pieces(depth));
}

/// A tuple of nine.
#[verifier::rlimit(50)]
pub proof fn law_tuple_of_nine<
    A: Dearbitrary, B: Dearbitrary, C: Dearbitrary, D: Dearbitrary, E: Dearbitrary,
    F: Dearbitrary, G: Dearbitrary, H: Dearbitrary, I: Dearbitrary,
>(
    v: (A, B, C, D, E, F, G, H, I),
    d0: Seq<u8>,
    depth: u8,
    hint_depth: usize,
)
    ensures
        v.model() == (
            v.0.model(), v.1.model(), v.2.model(), v.3.model(), v.4.model(), v.5.model(),
            v.6.model(), v.7.model(), v.8.model(),
        ),
        v.pieces(depth) == v.0.pieces(depth) + v.1.pieces(depth) + v.2.pieces(depth) + v.3.pieces(depth)
            + v.4.pieces(depth) + v.5.pieces(depth) + v.6.pieces(depth) + v.7.pieces(depth)
            + v.8.pieces(depth),
        ({
            let r = <(A, B, C, D, E, F, G, H, I)>::read(d0, depth);
            let (ra, d1) = A::read(d0, depth);
            let (rb, d2) = B::read(d1, depth);
            let (rc, d3) = C::read(d2, depth);
            let (rd, d4) = D::read(d3, depth);
            let (re, d5) = E::read(d4, depth);
            let (rf, d6) = F::read(d5, depth);
            let (rg, d7) = G::read(d6, depth);
            let (rh, d8) = H::read(d7, depth);
            let (ri, d9) = I::read(d8, depth);
            &&& ra is Ok && rb is Ok && rc is Ok && rd is Ok && re is Ok && rf is Ok && rg is Ok
                && rh is Ok && ri is Ok ==> r == done::<(A, B, C, D, E, F, G, H, I)>((
                    ra->Ok_0, rb->Ok_0, rc->Ok_0, rd->Ok_0, re->Ok_0, rf->Ok_0, rg->Ok_0,
                    rh->Ok_0, ri->Ok_0,
                ), d9)
            &&& ra is Err ==> r == failed::<(A, B, C, D, E, F, G, H, I)>(
                ra->Err_0,
                d1,
            )
            &&& ra is Ok && rb is Err ==> r == failed::<(A, B, C, D, E, F, G, H, I)>(
                rb->Err_0,
                d2,
            )
            &&& ra is Ok && rb is Ok && rc is Err ==> r == failed::<(A, B, C, D, E, F, G, H, I)>(
                rc->Err_0,
                d3,
            )
            &&& ra is Ok && rb is Ok && rc is Ok && rd is Err ==> r == failed::<(A, B, C, D, E, F, G, H, I)>(
                rd->Err_0,
                d4,
            )
            &&& ra is Ok && rb is Ok && rc is Ok && rd is Ok && re is Err ==> r == failed::<(A, B, C, D, E, F, G, H, I)>(
                re->Err_0,
                d5,
            )
            &&& ra is Ok && rb is Ok && rc is Ok && rd is Ok && re is Ok && rf is Err ==> r == failed::<(A, B, C, D, E, F, G, H, I)>(
                rf->Err_0,
                d6,
            )
            &&& ra is Ok && rb is Ok && rc is Ok && rd is Ok && re is Ok && rf is Ok
                && rg is Err ==> r == failed::<(A, B, C, D, E, F, G, H, I)>(
                rg->Err_0,
                d7,
            )
            &&& ra is Ok && rb is Ok && rc is Ok && rd is Ok && re is Ok && rf is Ok && rg is Ok
                && rh is Err ==> r == failed::<(A, B, C, D, E, F, G, H, I)>(
                rh->Err_0,
                d8,
            )
            &&& ra is Ok && rb is Ok && rc is Ok && rd is Ok && re is Ok && rf is Ok && rg is Ok
                && rh is Ok && ri is Err ==> r == failed::<(A, B, C, D, E, F, G, H, I)>(
                ri->Err_0,
                d9,
            )
        }),
        ({
            let lower = A::hint(hint_depth).0 + B::hint(hint_depth).0 + C::hint(hint_depth).0
                + D::hint(hint_depth).0 + E::hint(hint_depth).0 + F::hint(hint_depth).0
                + G::hint(hint_depth).0 + H::hint(hint_depth).0 + I::hint(hint_depth).0;
            <(A, B, C, D, E, F, G, H, I)>::hint(hint_depth).0 == if lower > usize::MAX {
                usize::MAX as int
            } else {
                lower as int
            }
        }),
        match <(A, B, C, D, E, F, G, H, I)>::hint(hint_depth).1 {
            Some(upper) => {
                &&& A::hint(hint_depth).1 is Some && B::hint(hint_depth).1 is Some
                && C::hint(hint_depth).1 is Some && D::hint(hint_depth).1 is Some
                && E::hint(hint_depth).1 is Some && F::hint(hint_depth).1 is Some
                && G::hint(hint_depth).1 is Some && H::hint(hint_depth).1 is Some
                && I::hint(hint_depth).1 is Some
                &&& upper == A::hint(hint_depth).1->0 + B::hint(hint_depth).1->0 + C::hint(hint_depth).1->0
                + D::hint(hint_depth).1->0 + E::hint(hint_depth).1->0 + F::hint(hint_depth).1->0
                + G::hint(hint_depth).1->0 + H::hint(hint_depth).1->0 + I::hint(hint_depth).1->0
            },
            None => !(A::hint(hint_depth).1 is Some && B::hint(hint_depth).1 is Some
                && C::hint(hint_depth).1 is Some && D::hint(hint_depth).1 is Some
                && E::hint(hint_depth).1 is Some && F::hint(hint_depth).1 is Some
                && G::hint(hint_depth).1 is Some && H::hint(hint_depth).1 is Some
                && I::hint(hint_depth).1 is Some
                && A::hint(hint_depth).1->0 + B::hint(hint_depth).1->0 + C::hint(hint_depth).1->0
                + D::hint(hint_depth).1->0 + E::hint(hint_depth).1->0 + F::hint(hint_depth).1->0
                + G::hint(hint_depth).1->0 + H::hint(hint_depth).1->0 + I::hint(hint_depth).1->0 <= usize::MAX),
        },
        v.readable(depth) == (v.0.readable(depth) && v.1.readable(depth) && v.2.readable(depth)
            && v.3.readable(depth) && v.4.readable(depth) && v.5.readable(depth)
            && v.6.readable(depth) && v.7.readable(depth) && v.8.readable(depth)),
        v.rest_readable(depth) == v.readable(depth),
        v.rest_pieces(depth) == v.pieces(depth),
        v.rest_tail(depth) is None,
        <(A, B, C, D, E, F, G, H, I)>::read_rest(d0, depth) == <(A, B, C, D, E, F, G, H, I)>::read(d0, depth).0,
{
    law_tuple_of_eight((v.1, v.2, v.3, v.4, v.5, v.6, v.7, v.8), A::read(d0, depth).1, depth, hint_depth);
    assert(v.pieces(depth) =~= v.0.pieces(depth) + v.1.pieces(depth) + v.2.pieces(depth) + v.3.pieces(depth)
            + v.4.pieces(depth) + v.5.pieces(depth) + v.6.pieces(depth) + v.7.pieces(depth)
            + v.8.pieces(depth));
}

/// A tuple of ten.
#[verifier::rlimit(50)]
pub proof fn law_tuple_of_ten<
    A: Dearbitrary, B: Dearbitrary, C: Dearbitrary, D: Dearbitrary, E: Dearbitrary,
    F: Dearbitrary, G: Dearbitrary, H: Dearbitrary, I: Dearbitrary, J: Dearbitrary,
>(
    v: (A, B, C, D, E, F, G, H, I, J),
    d0: Seq<u8>,
    depth: u8,
    hint_depth: usize,
)
    ensures
        v.model() == (
            v.0.model(), v.1.model(), v.2.model(), v.3.model(), v.4.model(), v.5.model(),
            v.6.model(), v.7.model(), v.8.model(), v.9.model(),
        ),
        v.pieces(depth) == v.0.pieces(depth) + v.1.pieces(depth) + v.2.pieces(depth) + v.3.pieces(depth)
            + v.4.pieces(depth) + v.5.pieces(depth) + v.6.pieces(depth) + v.7.pieces(depth)
            + v.8.pieces(depth) + v.9.pieces(depth),
        ({
            let r = <(A, B, C, D, E, F, G, H, I, J)>::read(d0, depth);
            let (ra, d1) = A::read(d0, depth);
            let (rb, d2) = B::read(d1, depth);
            let (rc, d3) = C::read(d2, depth);
            let (rd, d4) = D::read(d3, depth);
            let (re, d5) = E::read(d4, depth);
            let (rf, d6) = F::read(d5, depth);
            let (rg, d7) = G::read(d6, depth);
            let (rh, d8) = H::read(d7, depth);
            let (ri, d9) = I::read(d8, depth);
            let (rj, d10) = J::read(d9, depth);
            &&& ra is Ok && rb is Ok && rc is Ok && rd is Ok && re is Ok && rf is Ok && rg is Ok
                && rh is Ok && ri is Ok && rj is Ok ==> r == done::<(A, B, C, D, E, F, G, H, I, J)>((
                    ra->Ok_0, rb->Ok_0, rc->Ok_0, rd->Ok_0, re->Ok_0, rf->Ok_0, rg->Ok_0,
                    rh->Ok_0, ri->Ok_0, rj->Ok_0,
                ), d10)
            &&& ra is Err ==> r == failed::<(A, B, C, D, E, F, G, H, I, J)>(
                ra->Err_0,
                d1,
            )
            &&& ra is Ok && rb is Err ==> r == failed::<(A, B, C, D, E, F, G, H, I, J)>(
                rb->Err_0,
                d2,
            )
            &&& ra is Ok && rb is Ok && rc is Err ==> r == failed::<(A, B, C, D, E, F, G, H, I, J)>(
                rc->Err_0,
                d3,
            )
            &&& ra is Ok && rb is Ok && rc is Ok && rd is Err ==> r == failed::<(A, B, C, D, E, F, G, H, I, J)>(
                rd->Err_0,
                d4,
            )
            &&& ra is Ok && rb is Ok && rc is Ok && rd is Ok && re is Err ==> r == failed::<(A, B, C, D, E, F, G, H, I, J)>(
                re->Err_0,
                d5,
            )
            &&& ra is Ok && rb is Ok && rc is Ok && rd is Ok && re is Ok && rf is Err ==> r == failed::<(A, B, C, D, E, F, G, H, I, J)>(
                rf->Err_0,
                d6,
            )
            &&& ra is Ok && rb is Ok && rc is Ok && rd is Ok && re is Ok && rf is Ok
                && rg is Err ==> r == failed::<(A, B, C, D, E, F, G, H, I, J)>(
                rg->Err_0,
                d7,
            )
            &&& ra is Ok && rb is Ok && rc is Ok && rd is Ok && re is Ok && rf is Ok && rg is Ok
                && rh is Err ==> r == failed::<(A, B, C, D, E, F, G, H, I, J)>(
                rh->Err_0,
                d8,
            )
            &&& ra is Ok && rb is Ok && rc is Ok && rd is Ok && re is Ok && rf is Ok && rg is Ok
                && rh is Ok && ri is Err ==> r == failed::<(A, B, C, D, E, F, G, H, I, J)>(
                ri->Err_0,
                d9,
            )
            &&& ra is Ok && rb is Ok && rc is Ok && rd is Ok && re is Ok && rf is Ok && rg is Ok
                && rh is Ok && ri is Ok && rj is Err ==> r == failed::<(A, B, C, D, E, F, G, H, I, J)>(
                rj->Err_0,
                d10,
            )
        }),
        ({
            let lower = A::hint(hint_depth).0 + B::hint(hint_depth).0 + C::hint(hint_depth).0
                + D::hint(hint_depth).0 + E::hint(hint_depth).0 + F::hint(hint_depth).0
                + G::hint(hint_depth).0 + H::hint(hint_depth).0 + I::hint(hint_depth).0
                + J::hint(hint_depth).0;
            <(A, B, C, D, E, F, G, H, I, J)>::hint(hint_depth).0 == if lower > usize::MAX {
                usize::MAX as int
            } else {
                lower as int
            }
        }),
        match <(A, B, C, D, E, F, G, H, I, J)>::hint(hint_depth).1 {
            Some(upper) => {
                &&& A::hint(hint_depth).1 is Some && B::hint(hint_depth).1 is Some
                && C::hint(hint_depth).1 is Some && D::hint(hint_depth).1 is Some
                && E::hint(hint_depth).1 is Some && F::hint(hint_depth).1 is Some
                && G::hint(hint_depth).1 is Some && H::hint(hint_depth).1 is Some
                && I::hint(hint_depth).1 is Some && J::hint(hint_depth).1 is Some
                &&& upper == A::hint(hint_depth).1->0 + B::hint(hint_depth).1->0 + C::hint(hint_depth).1->0
                + D::hint(hint_depth).1->0 + E::hint(hint_depth).1->0 + F::hint(hint_depth).1->0
                + G::hint(hint_depth).1->0 + H::hint(hint_depth).1->0 + I::hint(hint_depth).1->0
                + J::hint(hint_depth).1->0
            },
            None => !(A::hint(hint_depth).1 is Some && B::hint(hint_depth).1 is Some
                && C::hint(hint_depth).1 is Some && D::hint(hint_depth).1 is Some
                && E::hint(hint_depth).1 is Some && F::hint(hint_depth).1 is Some
                && G::hint(hint_depth).1 is Some && H::hint(hint_depth).1 is Some
                && I::hint(hint_depth).1 is Some && J::hint(hint_depth).1 is Some
                && A::hint(hint_depth).1->0 + B::hint(hint_depth).1->0 + C::hint(hint_depth).1->0
                + D::hint(hint_depth).1->0 + E::hint(hint_depth).1->0 + F::hint(hint_depth).1->0
                + G::hint(hint_depth).1->0 + H::hint(hint_depth).1->0 + I::hint(hint_depth).1->0
                + J::hint(hint_depth).1->0 <= usize::MAX),
        },
        v.readable(depth) == (v.0.readable(depth) && v.1.readable(depth) && v.2.readable(depth)
            && v.3.readable(depth) && v.4.readable(depth) && v.5.readable(depth)
            && v.6.readable(depth) && v.7.readable(depth) && v.8.readable(depth)
            && v.9.readable(depth)),
        v.rest_readable(depth) == v.readable(depth),
        v.rest_pieces(depth) == v.pieces(depth),
        v.rest_tail(depth) is None,
        <(A, B, C, D, E, F, G, H, I, J)>::read_rest(d0, depth) == <(A, B, C, D, E, F, G, H, I, J)>::read(d0, depth).0,
{
    law_tuple_of_nine((v.1, v.2, v.3, v.4, v.5, v.6, v.7, v.8, v.9), A::read(d0, depth).1, depth, hint_depth);
    assert(v.pieces(depth) =~= v.0.pieces(depth) + v.1.pieces(depth) + v.2.pieces(depth) + v.3.pieces(depth)
            + v.4.pieces(depth) + v.5.pieces(depth) + v.6.pieces(depth) + v.7.pieces(depth)
            + v.8.pieces(depth) + v.9.pieces(depth));
}

/// A tuple of eleven.
#[verifier::rlimit(50)]
pub proof fn law_tuple_of_eleven<
    A: Dearbitrary, B: Dearbitrary, C: Dearbitrary, D: Dearbitrary, E: Dearbitrary,
    F: Dearbitrary, G: Dearbitrary, H: Dearbitrary, I: Dearbitrary, J: Dearbitrary,
    K: Dearbitrary,
>(
    v: (A, B, C, D, E, F, G, H, I, J, K),
    d0: Seq<u8>,
    depth: u8,
    hint_depth: usize,
)
    ensures
        v.model() == (
            v.0.model(), v.1.model(), v.2.model(), v.3.model(), v.4.model(), v.5.model(),
            v.6.model(), v.7.model(), v.8.model(), v.9.model(), v.10.model(),
        ),
        v.pieces(depth) == v.0.pieces(depth) + v.1.pieces(depth) + v.2.pieces(depth) + v.3.pieces(depth)
            + v.4.pieces(depth) + v.5.pieces(depth) + v.6.pieces(depth) + v.7.pieces(depth)
            + v.8.pieces(depth) + v.9.pieces(depth) + v.10.pieces(depth),
        ({
            let r = <(A, B, C, D, E, F, G, H, I, J, K)>::read(d0, depth);
            let (ra, d1) = A::read(d0, depth);
            let (rb, d2) = B::read(d1, depth);
            let (rc, d3) = C::read(d2, depth);
            let (rd, d4) = D::read(d3, depth);
            let (re, d5) = E::read(d4, depth);
            let (rf, d6) = F::read(d5, depth);
            let (rg, d7) = G::read(d6, depth);
            let (rh, d8) = H::read(d7, depth);
            let (ri, d9) = I::read(d8, depth);
            let (rj, d10) = J::read(d9, depth);
            let (rk, d11) = K::read(d10, depth);
            &&& ra is Ok && rb is Ok && rc is Ok && rd is Ok && re is Ok && rf is Ok && rg is Ok
                && rh is Ok && ri is Ok && rj is Ok && rk is Ok ==> r == done::<(A, B, C, D, E, F, G, H, I, J, K)>((
                    ra->Ok_0, rb->Ok_0, rc->Ok_0, rd->Ok_0, re->Ok_0, rf->Ok_0, rg->Ok_0,
                    rh->Ok_0, ri->Ok_0, rj->Ok_0, rk->Ok_0,
                ), d11)
            &&& ra is Err ==> r == failed::<(A, B, C, D, E, F, G, H, I, J, K)>(
                ra->Err_0,
                d1,
            )
            &&& ra is Ok && rb is Err ==> r == failed::<(A, B, C, D, E, F, G, H, I, J, K)>(
                rb->Err_0,
                d2,
            )
            &&& ra is Ok && rb is Ok && rc is Err ==> r == failed::<(A, B, C, D, E, F, G, H, I, J, K)>(
                rc->Err_0,
                d3,
            )
            &&& ra is Ok && rb is Ok && rc is Ok && rd is Err ==> r == failed::<(A, B, C, D, E, F, G, H, I, J, K)>(
                rd->Err_0,
                d4,
            )
            &&& ra is Ok && rb is Ok && rc is Ok && rd is Ok && re is Err ==> r == failed::<(A, B, C, D, E, F, G, H, I, J, K)>(
                re->Err_0,
                d5,
            )
            &&& ra is Ok && rb is Ok && rc is Ok && rd is Ok && re is Ok && rf is Err ==> r == failed::<(A, B, C, D, E, F, G, H, I, J, K)>(
                rf->Err_0,
                d6,
            )
            &&& ra is Ok && rb is Ok && rc is Ok && rd is Ok && re is Ok && rf is Ok
                && rg is Err ==> r == failed::<(A, B, C, D, E, F, G, H, I, J, K)>(
                rg->Err_0,
                d7,
            )
            &&& ra is Ok && rb is Ok && rc is Ok && rd is Ok && re is Ok && rf is Ok && rg is Ok
                && rh is Err ==> r == failed::<(A, B, C, D, E, F, G, H, I, J, K)>(
                rh->Err_0,
                d8,
            )
            &&& ra is Ok && rb is Ok && rc is Ok && rd is Ok && re is Ok && rf is Ok && rg is Ok
                && rh is Ok && ri is Err ==> r == failed::<(A, B, C, D, E, F, G, H, I, J, K)>(
                ri->Err_0,
                d9,
            )
            &&& ra is Ok && rb is Ok && rc is Ok && rd is Ok && re is Ok && rf is Ok && rg is Ok
                && rh is Ok && ri is Ok && rj is Err ==> r == failed::<(A, B, C, D, E, F, G, H, I, J, K)>(
                rj->Err_0,
                d10,
            )
            &&& ra is Ok && rb is Ok && rc is Ok && rd is Ok && re is Ok && rf is Ok && rg is Ok
                && rh is Ok && ri is Ok && rj is Ok && rk is Err ==> r == failed::<(A, B, C, D, E, F, G, H, I, J, K)>(
                rk->Err_0,
                d11,
            )
        }),
        ({
            let lower = A::hint(hint_depth).0 + B::hint(hint_depth).0 + C::hint(hint_depth).0
                + D::hint(hint_depth).0 + E::hint(hint_depth).0 + F::hint(hint_depth).0
                + G::hint(hint_depth).0 + H::hint(hint_depth).0 + I::hint(hint_depth).0
                + J::hint(hint_depth).0 + K::hint(hint_depth).0;
            <(A, B, C, D, E, F, G, H, I, J, K)>::hint(hint_depth).0 == if lower > usize::MAX {
                usize::MAX as int
            } else {
                lower as int
            }
        }),
        match <(A, B, C, D, E, F, G, H, I, J, K)>::hint(hint_depth).1 {
            Some(upper) => {
                &&& A::hint(hint_depth).1 is Some && B::hint(hint_depth).1 is Some
                && C::hint(hint_depth).1 is Some && D::hint(hint_depth).1 is Some
                && E::hint(hint_depth).1 is Some && F::hint(hint_depth).1 is Some
                && G::hint(hint_depth).1 is Some && H::hint(hint_depth).1 is Some
                && I::hint(hint_depth).1 is Some && J::hint(hint_depth).1 is Some
                && K::hint(hint_depth).1 is Some
                &&& upper == A::hint(hint_depth).1->0 + B::hint(hint_depth).1->0 + C::hint(hint_depth).1->0
                + D::hint(hint_depth).1->0 + E::hint(hint_depth).1->0 + F::hint(hint_depth).1->0
                + G::hint(hint_depth).1->0 + H::hint(hint_depth).1->0 + I::hint(hint_depth).1->0
                + J::hint(hint_depth).1->0 + K::hint(hint_depth).1->0
            },
            None => !(A::hint(hint_depth).1 is Some && B::hint(hint_depth).1 is Some
                && C::hint(hint_depth).1 is Some && D::hint(hint_depth).1 is Some
                && E::hint(hint_depth).1 is Some && F::hint(hint_depth).1 is Some
                && G::hint(hint_depth).1 is Some && H::hint(hint_depth).1 is Some
                && I::hint(hint_depth).1 is Some && J::hint(hint_depth).1 is Some
                && K::hint(hint_depth).1 is Some
                && A::hint(hint_depth).1->0 + B::hint(hint_depth).1->0 + C::hint(hint_depth).1->0
                + D::hint(hint_depth).1->0 + E::hint(hint_depth).1->0 + F::hint(hint_depth).1->0
                + G::hint(hint_depth).1->0 + H::hint(hint_depth).1->0 + I::hint(hint_depth).1->0
                + J::hint(hint_depth).1->0 + K::hint(hint_depth).1->0 <= usize::MAX),
        },
        v.readable(depth) == (v.0.readable(depth) && v.1.readable(depth) && v.2.readable(depth)
            && v.3.readable(depth) && v.4.readable(depth) && v.5.readable(depth)
            && v.6.readable(depth) && v.7.readable(depth) && v.8.readable(depth)
            && v.9.readable(depth) && v.10.readable(depth)),
        v.rest_readable(depth) == v.readable(depth),
        v.rest_pieces(depth) == v.pieces(depth),
        v.rest_tail(depth) is None,
        <(A, B, C, D, E, F, G, H, I, J, K)>::read_rest(d0, depth) == <(A, B, C, D, E, F, G, H, I, J, K)>::read(d0, depth).0,
{
    law_tuple_of_ten((v.1, v.2, v.3, v.4, v.5, v.6, v.7, v.8, v.9, v.10), A::read(d0, depth).1, depth, hint_depth);
    assert(v.pieces(depth) =~= v.0.pieces(depth) + v.1.pieces(depth) + v.2.pieces(depth) + v.3.pieces(depth)
            + v.4.pieces(depth) + v.5.pieces(depth) + v.6.pieces(depth) + v.7.pieces(depth)
            + v.8.pieces(depth) + v.9.pieces(depth) + v.10.pieces(depth));
}

/// A tuple of twelve.
#[verifier::rlimit(50)]
pub proof fn law_tuple_of_twelve<
    A: Dearbitrary, B: Dearbitrary, C: Dearbitrary, D: Dearbitrary, E: Dearbitrary,
    F: Dearbitrary, G: Dearbitrary, H: Dearbitrary, I: Dearbitrary, J: Dearbitrary,
    K: Dearbitrary, L: Dearbitrary,
>(
    v: (A, B, C, D, E, F, G, H, I, J, K, L),
    d0: Seq<u8>,
    depth: u8,
    hint_depth: usize,
)
    ensures
        v.model() == (
            v.0.model(), v.1.model(), v.2.model(), v.3.model(), v.4.model(), v.5.model(),
            v.6.model(), v.7.model(), v.8.model(), v.9.model(), v.10.model(), v.11.model(),
        ),
        v.pieces(depth) == v.0.pieces(depth) + v.1.pieces(depth) + v.2.pieces(depth) + v.3.pieces(depth)
            + v.4.pieces(depth) + v.5.pieces(depth) + v.6.pieces(depth) + v.7.pieces(depth)
            + v.8.pieces(depth) + v.9.pieces(depth) + v.10.pieces(depth) + v.11.pieces(depth),
        ({
            let r = <(A, B, C, D, E, F, G, H, I, J, K, L)>::read(d0, depth);
            let (ra, d1) = A::read(d0, depth);
            let (rb, d2) = B::read(d1, depth);
            let (rc, d3) = C::read(d2, depth);
            let (rd, d4) = D::read(d3, depth);
            let (re, d5) = E::read(d4, depth);
            let (rf, d6) = F::read(d5, depth);
            let (rg, d7) = G::read(d6, depth);
            let (rh, d8) = H::read(d7, depth);
            let (ri, d9) = I::read(d8, depth);
            let (rj, d10) = J::read(d9, depth);
            let (rk, d11) = K::read(d10, depth);
            let (rl, d12) = L::read(d11, depth);
            &&& ra is Ok && rb is Ok && rc is Ok && rd is Ok && re is Ok && rf is Ok && rg is Ok
                && rh is Ok && ri is Ok && rj is Ok && rk is Ok && rl is Ok ==> r == done::<(A, B, C, D, E, F, G, H, I, J, K, L)>((
                    ra->Ok_0, rb->Ok_0, rc->Ok_0, rd->Ok_0, re->Ok_0, rf->Ok_0, rg->Ok_0,
                    rh->Ok_0, ri->Ok_0, rj->Ok_0, rk->Ok_0, rl->Ok_0,
                ), d12)
            &&& ra is Err ==> r == failed::<(A, B, C, D, E, F, G, H, I, J, K, L)>(
                ra->Err_0,
                d1,
            )
            &&& ra is Ok && rb is Err ==> r == failed::<(A, B, C, D, E, F, G, H, I, J, K, L)>(
                rb->Err_0,
                d2,
            )
            &&& ra is Ok && rb is Ok && rc is Err ==> r == failed::<(A, B, C, D, E, F, G, H, I, J, K, L)>(
                rc->Err_0,
                d3,
            )
            &&& ra is Ok && rb is Ok && rc is Ok && rd is Err ==> r == failed::<(A, B, C, D, E, F, G, H, I, J, K, L)>(
                rd->Err_0,
                d4,
            )
            &&& ra is Ok && rb is Ok && rc is Ok && rd is Ok && re is Err ==> r == failed::<(A, B, C, D, E, F, G, H, I, J, K, L)>(
                re->Err_0,
                d5,
            )
            &&& ra is Ok && rb is Ok && rc is Ok && rd is Ok && re is Ok && rf is Err ==> r == failed::<(A, B, C, D, E, F, G, H, I, J, K, L)>(
                rf->Err_0,
                d6,
            )
            &&& ra is Ok && rb is Ok && rc is Ok && rd is Ok && re is Ok && rf is Ok
                && rg is Err ==> r == failed::<(A, B, C, D, E, F, G, H, I, J, K, L)>(
                rg->Err_0,
                d7,
            )
            &&& ra is Ok && rb is Ok && rc is Ok && rd is Ok && re is Ok && rf is Ok && rg is Ok
                && rh is Err ==> r == failed::<(A, B, C, D, E, F, G, H, I, J, K, L)>(
                rh->Err_0,
                d8,
            )
            &&& ra is Ok && rb is Ok && rc is Ok && rd is Ok && re is Ok && rf is Ok && rg is Ok
                && rh is Ok && ri is Err ==> r == failed::<(A, B, C, D, E, F, G, H, I, J, K, L)>(
                ri->Err_0,
                d9,
            )
            &&& ra is Ok && rb is Ok && rc is Ok && rd is Ok && re is Ok && rf is Ok && rg is Ok
                && rh is Ok && ri is Ok && rj is Err ==> r == failed::<(A, B, C, D, E, F, G, H, I, J, K, L)>(
                rj->Err_0,
                d10,
            )
            &&& ra is Ok && rb is Ok && rc is Ok && rd is Ok && re is Ok && rf is Ok && rg is Ok
                && rh is Ok && ri is Ok && rj is Ok && rk is Err ==> r == failed::<(A, B, C, D, E, F, G, H, I, J, K, L)>(
                rk->Err_0,
                d11,
            )
            &&& ra is Ok && rb is Ok && rc is Ok && rd is Ok && re is Ok && rf is Ok && rg is Ok
                && rh is Ok && ri is Ok && rj is Ok && rk is Ok && rl is Err ==> r == failed::<(A, B, C, D, E, F, G, H, I, J, K, L)>(
                rl->Err_0,
                d12,
            )
        }),
        ({
            let lower = A::hint(hint_depth).0 + B::hint(hint_depth).0 + C::hint(hint_depth).0
                + D::hint(hint_depth).0 + E::hint(hint_depth).0 + F::hint(hint_depth).0
                + G::hint(hint_depth).0 + H::hint(hint_depth).0 + I::hint(hint_depth).0
                + J::hint(hint_depth).0 + K::hint(hint_depth).0 + L::hint(hint_depth).0;
            <(A, B, C, D, E, F, G, H, I, J, K, L)>::hint(hint_depth).0 == if lower > usize::MAX {
                usize::MAX as int
            } else {
                lower as int
            }
        }),
        match <(A, B, C, D, E, F, G, H, I, J, K, L)>::hint(hint_depth).1 {
            Some(upper) => {
                &&& A::hint(hint_depth).1 is Some && B::hint(hint_depth).1 is Some
                && C::hint(hint_depth).1 is Some && D::hint(hint_depth).1 is Some
                && E::hint(hint_depth).1 is Some && F::hint(hint_depth).1 is Some
                && G::hint(hint_depth).1 is Some && H::hint(hint_depth).1 is Some
                && I::hint(hint_depth).1 is Some && J::hint(hint_depth).1 is Some
                && K::hint(hint_depth).1 is Some && L::hint(hint_depth).1 is Some
                &&& upper == A::hint(hint_depth).1->0 + B::hint(hint_depth).1->0 + C::hint(hint_depth).1->0
                + D::hint(hint_depth).1->0 + E::hint(hint_depth).1->0 + F::hint(hint_depth).1->0
                + G::hint(hint_depth).1->0 + H::hint(hint_depth).1->0 + I::hint(hint_depth).1->0
                + J::hint(hint_depth).1->0 + K::hint(hint_depth).1->0 + L::hint(hint_depth).1->0
            },
            None => !(A::hint(hint_depth).1 is Some && B::hint(hint_depth).1 is Some
                && C::hint(hint_depth).1 is Some && D::hint(hint_depth).1 is Some
                && E::hint(hint_depth).1 is Some && F::hint(hint_depth).1 is Some
                && G::hint(hint_depth).1 is Some && H::hint(hint_depth).1 is Some
                && I::hint(hint_depth).1 is Some && J::hint(hint_depth).1 is Some
                && K::hint(hint_depth).1 is Some && L::hint(hint_depth).1 is Some
                && A::hint(hint_depth).1->0 + B::hint(hint_depth).1->0 + C::hint(hint_depth).1->0
                + D::hint(hint_depth).1->0 + E::hint(hint_depth).1->0 + F::hint(hint_depth).1->0
                + G::hint(hint_depth).1->0 + H::hint(hint_depth).1->0 + I::hint(hint_depth).1->0
                + J::hint(hint_depth).1->0 + K::hint(hint_depth).1->0 + L::hint(hint_depth).1->0 <= usize::MAX),
        },
        v.readable(depth) == (v.0.readable(depth) && v.1.readable(depth) && v.2.readable(depth)
            && v.3.readable(depth) && v.4.readable(depth) && v.5.readable(depth)
            && v.6.readable(depth) && v.7.readable(depth) && v.8.readable(depth)
            && v.9.readable(depth) && v.10.readable(depth) && v.11.readable(depth)),
        v.rest_readable(depth) == v.readable(depth),
        v.rest_pieces(depth) == v.pieces(depth),
        v.rest_tail(depth) is None,
        <(A, B, C, D, E, F, G, H, I, J, K, L)>::read_rest(d0, depth) == <(A, B, C, D, E, F, G, H, I, J, K, L)>::read(d0, depth).0,
{
    law_tuple_of_eleven((v.1, v.2, v.3, v.4, v.5, v.6, v.7, v.8, v.9, v.10, v.11), A::read(d0, depth).1, depth, hint_depth);
    assert(v.pieces(depth) =~= v.0.pieces(depth) + v.1.pieces(depth) + v.2.pieces(depth) + v.3.pieces(depth)
            + v.4.pieces(depth) + v.5.pieces(depth) + v.6.pieces(depth) + v.7.pieces(depth)
            + v.8.pieces(depth) + v.9.pieces(depth) + v.10.pieces(depth) + v.11.pieces(depth));
}

} // verus!
