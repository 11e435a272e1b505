//! The size hint of a derived implementation.

use crate::derive::input;
use crate::derive::input::{Data, DeriveError, FieldConstructor, Fields, Variant};
use crate::derive::reading;
use vstd::prelude::*;

verus! {

/// The size hint of a field.
#[derive(Clone, Copy, Debug, PartialEq, Eq, Structural)]
pub enum FieldHint {
    /// Nothing is read: zero bytes.
    Zero,
    /// The hint of the field's type.
    TypeHint,
    /// At least the size of the field's type in memory, with no upper bound. What a
    /// function of the user's reads is not known, so this is a guess.
    SizeOf,
}

/// The size hints of a variant.
#[derive(Debug)]
pub struct VariantHint {
    /// The position of the variant in the enum.
    pub variant: usize,
    /// The hints of its fields.
    pub hints: Vec<FieldHint>,
}

/// The body of `size_hint`.
#[derive(Debug)]
pub enum HintPlan {
    /// The hints of all fields together, under the recursion guard.
    Structlike(Vec<FieldHint>),
    /// The hint of the selector together with the widest hint of the variants, each
    /// the hints of its fields together, under the recursion guard.
    Enum(Vec<VariantHint>),
    /// The hint of the selector alone, for variants without field lists.
    SelectorOnly,
}

/// The size hint of a field with this constructor.
pub open spec fn field_hint(c: FieldConstructor) -> FieldHint {
    match c {
        FieldConstructor::Default | FieldConstructor::Value => FieldHint::Zero,
        FieldConstructor::Arbitrary => FieldHint::TypeHint,
        FieldConstructor::With => FieldHint::SizeOf,
    }
}

/// The size hints of a list of fields.
pub open spec fn field_hints(constructors: Seq<Option<FieldConstructor>>) -> Seq<FieldHint> {
    Seq::new(constructors.len(), |i: int| field_hint(constructors[i]->0))
}

/// Whether `hints` are those of the variants that are not skipped, in order.
pub open spec fn variant_hints(hints: Seq<VariantHint>, variants: Seq<Variant>) -> bool {
    &&& hints.len() == input::kept(variants).len()
    &&& forall|k: int|
        0 <= k < hints.len() ==> {
            &&& (#[trigger] hints[k]).variant == input::kept(variants)[k]
            &&& hints[k].hints@ == field_hints(
                variants[input::kept(variants)[k] as int].fields.constructors(),
            )
        }
}

/// Whether `needs_recursive_count` can be what reading `data` needs: a struct or a
/// union always needs a recursion count, an enum does where a variant has fields.
pub open spec fn count_fits(data: Data, needs_recursive_count: bool) -> bool {
    match data {
        Data::Enum(variants) => needs_recursive_count || forall|v: int|
            0 <= v < variants@.len() && !(#[trigger] variants@[v]).skipped
                ==> variants@[v].fields.constructors().len() == 0,
        _ => needs_recursive_count,
    }
}

/// What is derived for the size hint.
pub open spec fn hint_result(
    r: Result<HintPlan, DeriveError>,
    data: Data,
    needs_recursive_count: bool,
) -> bool {
    match data {
        Data::Struct(fields) => structlike_result(r, fields.constructors()),
        Data::Union(fields) => structlike_result(r, fields@),
        Data::Enum(variants) => enum_result(r, variants@, needs_recursive_count),
    }
}

/// What is derived for the size hint of one list of fields.
pub open spec fn structlike_result(
    r: Result<HintPlan, DeriveError>,
    constructors: Seq<Option<FieldConstructor>>,
) -> bool {
    match r {
        Ok(HintPlan::Structlike(hints)) => input::all_valid(constructors) && hints@ == field_hints(
            constructors,
        ),
        Ok(_) => false,
        Err(DeriveError::Field { variant, index }) => variant is None && input::first_invalid(
            constructors,
            index as int,
        ),
        Err(_) => false,
    }
}

/// What is derived for the size hint of an enum.
pub open spec fn enum_result(
    r: Result<HintPlan, DeriveError>,
    variants: Seq<Variant>,
    needs_recursive_count: bool,
) -> bool {
    match r {
        Ok(HintPlan::Structlike(_)) => false,
        Ok(HintPlan::Enum(hints)) => {
            &&& needs_recursive_count
            &&& reading::fields_allowed(variants)
            &&& variant_hints(hints@, variants)
        },
        Ok(HintPlan::SelectorOnly) => !needs_recursive_count && reading::fields_allowed(variants),
        Err(DeriveError::Field { variant, index }) => variant matches Some(v)
            && reading::first_invalid_field(variants, v as int, index as int),
        Err(_) => false,
    }
}

/// The size hints of a list of fields, or the position of the first field whose
/// attributes are invalid.
fn hint_fields(constructors: &Vec<Option<FieldConstructor>>) -> (r: Result<Vec<FieldHint>, usize>)
    ensures
        match r {
            Ok(hints) => input::all_valid(constructors@) && hints@ == field_hints(constructors@),
            Err(index) => input::first_invalid(constructors@, index as int),
        },
{
    let mut hints: Vec<FieldHint> = Vec::new();
    let mut i: usize = 0;
    while i < constructors.len()
        invariant
            i <= constructors.len(),
            hints@ == field_hints(constructors@).take(i as int),
            forall|j: int| 0 <= j < i ==> (#[trigger] constructors@[j]) is Some,
        decreases constructors.len() - i,
    {
        match constructors[i] {
            None => {
                return Err(i);
            },
            Some(c) => {
                let hint: FieldHint = match c {
                    FieldConstructor::Default | FieldConstructor::Value => FieldHint::Zero,
                    FieldConstructor::Arbitrary => FieldHint::TypeHint,
                    FieldConstructor::With => FieldHint::SizeOf,
                };
                hints.push(hint);
            },
        }
        i += 1;
    }
    Ok(hints)
}

/// The size hints of the fields of a struct or a variant.
fn size_hint_fields(fields: &Fields) -> (r: Result<Vec<FieldHint>, usize>)
    ensures
        match r {
            Ok(hints) => input::all_valid(fields.constructors()) && hints@ == field_hints(
                fields.constructors(),
            ),
            Err(index) => input::first_invalid(fields.constructors(), index as int),
        },
{
    match fields {
        Fields::Named(constructors) => hint_fields(constructors),
        Fields::Unnamed(constructors) => hint_fields(constructors),
        Fields::Unit => {
            let none: Vec<FieldHint> = Vec::new();
            assert(none@ =~= field_hints(Seq::empty()));
            Ok(none)
        },
    }
}

/// The size hint of one list of fields.
fn size_hint_structlike(fields: &Fields) -> (r: Result<HintPlan, DeriveError>)
    ensures
        structlike_result(r, fields.constructors()),
{
    match size_hint_fields(fields) {
        Ok(hints) => Ok(HintPlan::Structlike(hints)),
        Err(index) => Err(DeriveError::Field { variant: None, index }),
    }
}

/// The size hint of an enum.
fn size_hint_enum(variants: &Vec<Variant>, needs_recursive_count: bool) -> (r: Result<
    HintPlan,
    DeriveError,
>)
    ensures
        enum_result(r, variants@, needs_recursive_count),
{
    let mut hints: Vec<VariantHint> = Vec::new();
    let mut v: usize = 0;
    while v < variants.len()
        invariant
            v <= variants.len(),
            reading::fields_allowed(variants@.take(v as int)),
            variant_hints(hints@, variants@.take(v as int)),
        decreases variants.len() - v,
    {
        let ghost before = hints@;
        if !variants[v].skipped {
            match size_hint_fields(&variants[v].fields) {
                Ok(of_fields) => {
                    hints.push(VariantHint { variant: v, hints: of_fields });
                },
                Err(index) => {
                    return Err(DeriveError::Field { variant: Some(v), index });
                },
            }
        }
        proof {
            let was = variants@.take(v as int);
            let now = variants@.take(v + 1);
            input::lemma_kept_step(variants@, v as int);
            input::lemma_kept(was);
            assert forall|w: int|
                0 <= w < now.len() && !(#[trigger] now[w]).skipped implies input::all_valid(
                now[w].fields.constructors(),
            ) by {
                if w < v {
                    assert(was[w] == variants@[w]);
                }
            }
            assert forall|k: int| 0 <= k < hints@.len() implies {
                &&& (#[trigger] hints@[k]).variant == input::kept(now)[k]
                &&& hints@[k].hints@ == field_hints(
                    now[input::kept(now)[k] as int].fields.constructors(),
                )
            } by {
                if k < before.len() {
                    assert(hints@[k] == before[k]);
                    assert(input::kept(now)[k] == input::kept(was)[k]);
                    assert(now[input::kept(was)[k] as int] == was[input::kept(was)[k] as int]);
                }
            }
        }
        v += 1;
    }
    assert(variants@.take(v as int) =~= variants@);
    if needs_recursive_count {
        Ok(HintPlan::Enum(hints))
    } else {
        Ok(HintPlan::SelectorOnly)
    }
}

/// The size hint of a type, for whose reading `needs_recursive_count` says whether
/// it needs a recursion count.
pub fn gen_size_hint_method(data: &Data, needs_recursive_count: bool) -> (r: Result<
    HintPlan,
    DeriveError,
>)
    requires
        count_fits(*data, needs_recursive_count),
    ensures
        hint_result(r, *data, needs_recursive_count),
{
    match data {
        Data::Struct(fields) => size_hint_structlike(fields),
        Data::Union(fields) => {
            let named: Fields = input::named_fields(fields);
            size_hint_structlike(&named)
        },
        Data::Enum(variants) => size_hint_enum(variants, needs_recursive_count),
    }
}

} // verus!
