//! The generic parameters of a derived implementation.

use crate::derive::input::{DeriveError, Param};
use vstd::prelude::*;

verus! {

/// What becomes of a generic parameter in the derived implementation.
#[derive(Clone, Copy, Debug, PartialEq, Eq, Structural)]
pub enum BoundChange {
    /// It stays as it is.
    Keep,
    /// It is replaced by the user's bound at this position.
    Replace(usize),
    /// It loses its bounds and its default.
    Clear,
    /// It gets a bound on the derived trait.
    AddBound,
}

/// Whether bound `i` is the first that the user gives for `name`.
pub open spec fn first_for(bounds: Seq<String>, name: Seq<char>, i: int) -> bool {
    &&& 0 <= i < bounds.len()
    &&& bounds[i]@ == name
    &&& forall|j: int| 0 <= j < i ==> (#[trigger] bounds[j])@ != name
}

/// Whether the user gives a bound for `name`.
pub open spec fn given_for(bounds: Seq<String>, name: Seq<char>) -> bool {
    exists|i: int| 0 <= i < bounds.len() && (#[trigger] bounds[i])@ == name
}

/// Whether `change` is what becomes of `param` under the user's bounds: a type
/// parameter takes the first bound for its name, and without one is left bare.
pub open spec fn replaced(change: BoundChange, param: Param, bounds: Seq<String>) -> bool {
    match param {
        Param::Type(name) => match change {
            BoundChange::Replace(i) => first_for(bounds, name@, i as int),
            BoundChange::Clear => !given_for(bounds, name@),
            _ => false,
        },
        _ => change is Keep,
    }
}

/// How many type parameters the user gives bounds for.
pub open spec fn applied(params: Seq<Param>, bounds: Seq<String>) -> nat
    decreases params.len(),
{
    if params.len() == 0 {
        0
    } else {
        applied(params.drop_last(), bounds) + match params.last() {
            Param::Type(name) => if given_for(bounds, name@) {
                1nat
            } else {
                0nat
            },
            _ => 0nat,
        }
    }
}

/// What becomes of a parameter where every type parameter gets a bound on the
/// derived trait.
pub open spec fn bounded(param: Param) -> BoundChange {
    if param is Type {
        BoundChange::AddBound
    } else {
        BoundChange::Keep
    }
}

/// What becomes of all parameters where every type parameter gets a bound on the
/// derived trait.
pub open spec fn all_bounded(params: Seq<Param>) -> Seq<BoundChange> {
    Seq::new(params.len(), |i: int| bounded(params[i]))
}

/// What becomes of the parameters of an implementation for reading. The user's
/// bounds, where there are any, must all apply.
pub open spec fn bounds_result(
    r: Result<Vec<BoundChange>, DeriveError>,
    params: Seq<Param>,
    bounds: Option<Vec<String>>,
) -> bool {
    match bounds {
        None => r matches Ok(changes) && changes@ == all_bounded(params),
        Some(given) => match r {
            Ok(changes) => {
                &&& applied(params, given@) == given@.len()
                &&& changes@.len() == params.len()
                &&& forall|i: int|
                    0 <= i < params.len() ==> replaced(
                        #[trigger] changes@[i],
                        params[i],
                        given@,
                    )
            },
            Err(DeriveError::TooManyBounds { applied: a, supplied }) => {
                &&& a == applied(params, given@)
                &&& supplied == given@.len()
                &&& a != supplied
            },
            Err(_) => false,
        },
    }
}

/// The positions of the lifetimes among the parameters.
pub open spec fn lifetimes(params: Seq<Param>) -> Seq<nat>
    decreases params.len(),
{
    if params.len() == 0 {
        Seq::empty()
    } else {
        let before = lifetimes(params.drop_last());
        if params.last() is Lifetime {
            before.push((params.len() - 1) as nat)
        } else {
            before
        }
    }
}

/// The positions of the lifetimes that the reader's lifetime must outlive: all
/// those of the type.
pub fn build_arbitrary_lifetime(params: &Vec<Param>) -> (r: Vec<usize>)
    ensures
        Seq::new(r@.len(), |k: int| r@[k] as nat) == lifetimes(params@),
{
    let mut found: Vec<usize> = Vec::new();
    let mut i: usize = 0;
    while i < params.len()
        invariant
            i <= params.len(),
            Seq::new(found@.len(), |k: int| found@[k] as nat) == lifetimes(params@.take(i as int)),
        decreases params.len() - i,
    {
        let ghost before = Seq::new(found@.len(), |k: int| found@[k] as nat);
        assert(params@.take(i + 1).drop_last() =~= params@.take(i as int));
        if let Param::Lifetime = &params[i] {
            found.push(i);
            assert(Seq::new(found@.len(), |k: int| found@[k] as nat) =~= before.push(i as nat));
        }
        i += 1;
    }
    assert(params@.take(i as int) =~= params@);
    found
}

/// The position of the first bound that the user gives for `name`.
fn find_bound(bounds: &Vec<String>, name: &String) -> (r: Option<usize>)
    ensures
        match r {
            Some(i) => first_for(bounds@, name@, i as int),
            None => !given_for(bounds@, name@),
        },
{
    let mut i: usize = 0;
    while i < bounds.len()
        invariant
            i <= bounds.len(),
            forall|j: int| 0 <= j < i ==> (#[trigger] bounds@[j])@ != name@,
        decreases bounds.len() - i,
    {
        if bounds[i] == *name {
            return Some(i);
        }
        i += 1;
    }
    None
}

/// What becomes of the parameters of an implementation for reading.
pub fn apply_trait_bounds(params: &Vec<Param>, bounds: &Option<Vec<String>>) -> (r: Result<
    Vec<BoundChange>,
    DeriveError,
>)
    ensures
        bounds_result(r, params@, *bounds),
{
    let given: &Vec<String> = match bounds {
        None => {
            return Ok(add_trait_bounds(params));
        },
        Some(given) => given,
    };
    let mut changes: Vec<BoundChange> = Vec::new();
    let mut count: usize = 0;
    let mut i: usize = 0;
    while i < params.len()
        invariant
            count <= i <= params.len(),
            count == applied(params@.take(i as int), given@),
            changes@.len() == i,
            forall|j: int| 0 <= j < i ==> replaced(#[trigger] changes@[j], params@[j], given@),
        decreases params.len() - i,
    {
        assert(params@.take(i + 1).drop_last() =~= params@.take(i as int));
        let change: BoundChange = match &params[i] {
            Param::Type(name) => match find_bound(given, name) {
                Some(at) => {
                    assert(given_for(given@, name@));
                    count += 1;
                    BoundChange::Replace(at)
                },
                None => BoundChange::Clear,
            },
            _ => BoundChange::Keep,
        };
        changes.push(change);
        i += 1;
    }
    assert(params@.take(i as int) =~= params@);
    if count != given.len() {
        return Err(DeriveError::TooManyBounds { applied: count, supplied: given.len() });
    }
    Ok(changes)
}

/// Gives every type parameter a bound on the derived trait.
pub fn add_trait_bounds(params: &Vec<Param>) -> (r: Vec<BoundChange>)
    ensures
        r@ == all_bounded(params@),
{
    let mut changes: Vec<BoundChange> = Vec::new();
    let mut i: usize = 0;
    while i < params.len()
        invariant
            i <= params.len(),
            changes@ == all_bounded(params@).take(i as int),
        decreases params.len() - i,
    {
        let change: BoundChange = match &params[i] {
            Param::Type(_) => BoundChange::AddBound,
            _ => BoundChange::Keep,
        };
        changes.push(change);
        i += 1;
    }
    changes
}

/// What becomes of the parameters of an implementation for writing: they stay as
/// they are where the user gives bounds, else every type parameter gets a bound.
pub open spec fn write_bounds(params: Seq<Param>, given: bool) -> Seq<BoundChange> {
    if given {
        Seq::new(params.len(), |i: int| BoundChange::Keep)
    } else {
        all_bounded(params)
    }
}

/// What becomes of the parameters of an implementation for writing.
pub fn apply_dearbitrary_bounds(params: &Vec<Param>, bounds: &Option<Vec<String>>) -> (r: Vec<
    BoundChange,
>)
    ensures
        r@ == write_bounds(params@, bounds is Some),
{
    if bounds.is_none() {
        return add_trait_bounds(params);
    }
    let mut changes: Vec<BoundChange> = Vec::new();
    while changes.len() < params.len()
        invariant
            changes.len() <= params.len(),
            changes@ == write_bounds(params@, true).take(changes.len() as int),
        decreases params.len() - changes.len(),
    {
        changes.push(BoundChange::Keep);
    }
    changes
}

} // verus!
