//! Derived implementations as a whole.

use crate::derive::bounds;
use crate::derive::bounds::BoundChange;
use crate::derive::hinting;
use crate::derive::hinting::HintPlan;
use crate::derive::input;
use crate::derive::input::{Data, DeriveError, DeriveInput};
use crate::derive::reading;
use crate::derive::reading::ReadPlan;
use crate::derive::writing;
use crate::derive::writing::WritePlan;
use vstd::prelude::*;

verus! {

/// A derived implementation of `Arbitrary`.
#[derive(Debug)]
pub struct ArbitraryImpl {
    /// The positions of the lifetimes that the reader's lifetime must outlive.
    pub lifetimes: Vec<usize>,
    /// The name of the recursion count, where one is needed.
    pub recursive_count: Option<String>,
    /// How values are read.
    pub read: ReadPlan,
    /// The size hint.
    pub hint: HintPlan,
    /// What becomes of the generic parameters.
    pub params: Vec<BoundChange>,
}

/// A derived implementation of `Dearbitrary`.
#[derive(Debug)]
pub struct DearbitraryImpl {
    /// How values are written.
    pub write: WritePlan,
    /// What becomes of the generic parameters.
    pub params: Vec<BoundChange>,
}

/// An identifier without the mark of a raw identifier.
pub open spec fn unrawed(ident: Seq<char>) -> Seq<char> {
    if ident.len() >= 2 && ident[0] == 'r' && ident[1] == '#' {
        ident.skip(2)
    } else {
        ident
    }
}

/// The name of a type's recursion count.
pub open spec fn count_name(ident: Seq<char>) -> Seq<char> {
    "RECURSIVE_COUNT_"@ + unrawed(ident)
}

/// Whether a type can be read: its attributes are valid, and an enum has a variant
/// that is not skipped.
pub open spec fn derivable(data: Data) -> bool {
    match data {
        Data::Struct(fields) => input::all_valid(fields.constructors()),
        Data::Union(fields) => input::all_valid(fields@),
        Data::Enum(variants) => {
            &&& reading::attributes_allowed(variants@)
            &&& reading::fields_allowed(variants@)
            &&& input::kept(variants@).len() > 0
        },
    }
}

/// What is derived for reading. Where several things are wrong, the fields and
/// variants are found before the bounds.
pub open spec fn arbitrary_result(
    r: Result<ArbitraryImpl, DeriveError>,
    input: DeriveInput,
) -> bool {
    match r {
        Ok(derived) => {
            &&& derivable(input.data)
            &&& reading::read_result(
                Ok((derived.read, derived.recursive_count is Some)),
                input.data,
            )
            &&& hinting::hint_result(Ok(derived.hint), input.data, derived.recursive_count is Some)
            &&& bounds::bounds_result(Ok(derived.params), input.params@, input.bounds)
            &&& writing::positions(derived.lifetimes@) == bounds::lifetimes(input.params@)
            &&& derived.recursive_count matches Some(name) ==> name@ == count_name(input.ident@)
        },
        Err(e) => if e is TooManyBounds {
            derivable(input.data) && bounds::bounds_result(Err(e), input.params@, input.bounds)
        } else {
            reading::read_result(Err(e), input.data)
        },
    }
}

/// What is derived for writing.
pub open spec fn dearbitrary_result(
    r: Result<DearbitraryImpl, DeriveError>,
    input: DeriveInput,
) -> bool {
    match r {
        Ok(derived) => {
            &&& writing::write_result(Ok(derived.write), input.data)
            &&& derived.params@ == bounds::write_bounds(input.params@, input.bounds is Some)
        },
        Err(e) => writing::write_result(Err(e), input.data),
    }
}

/// An identifier without the mark of a raw identifier.
pub fn unraw(ident: &String) -> (r: String)
    ensures
        r@ == unrawed(ident@),
{
    let text: &str = ident.as_str();
    let len: usize = text.unicode_len();
    if len >= 2 && text.get_char(0) == 'r' && text.get_char(1) == '#' {
        let bare: &str = text.substring_char(2, len);
        assert(bare@ =~= ident@.skip(2));
        bare.to_string()
    } else {
        text.to_string()
    }
}

/// The name of a type's recursion count.
pub fn recursive_count_name(ident: &String) -> (r: String)
    ensures
        r@ == count_name(ident@),
{
    let mut name: String = "RECURSIVE_COUNT_".to_string();
    let bare: String = unraw(ident);
    name.append(bare.as_str());
    name
}

/// Derives `Arbitrary`.
pub fn expand_derive_arbitrary(input: &DeriveInput) -> (r: Result<ArbitraryImpl, DeriveError>)
    ensures
        arbitrary_result(r, *input),
{
    let lifetimes: Vec<usize> = bounds::build_arbitrary_lifetime(&input.params);
    let (read, needs_recursive_count): (ReadPlan, bool) = match reading::gen_arbitrary_method(
        &input.data,
    ) {
        Ok(made) => made,
        Err(e) => {
            return Err(e);
        },
    };
    let hint: HintPlan = match hinting::gen_size_hint_method(&input.data, needs_recursive_count) {
        Ok(hint) => hint,
        Err(e) => {
            return Err(e);
        },
    };
    let params: Vec<BoundChange> = match bounds::apply_trait_bounds(&input.params, &input.bounds) {
        Ok(params) => params,
        Err(e) => {
            return Err(e);
        },
    };
    let recursive_count: Option<String> = if needs_recursive_count {
        Some(recursive_count_name(&input.ident))
    } else {
        None
    };
    Ok(ArbitraryImpl { lifetimes, recursive_count, read, hint, params })
}

/// Derives `Dearbitrary`.
pub fn expand_derive_dearbitrary(input: &DeriveInput) -> (r: Result<DearbitraryImpl, DeriveError>)
    requires
        input.data matches Data::Enum(variants) ==> writing::writable(variants@),
    ensures
        dearbitrary_result(r, *input),
{
    match writing::gen_dearbitrary_method(&input.data) {
        Ok(write) => {
            let params: Vec<BoundChange> = bounds::apply_dearbitrary_bounds(
                &input.params,
                &input.bounds,
            );
            Ok(DearbitraryImpl { write, params })
        },
        Err(e) => Err(e),
    }
}

} // verus!
