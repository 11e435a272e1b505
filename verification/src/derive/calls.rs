//! What deriving gives, over the calls of the functions that derive.

use crate::derive::bounds;
use crate::derive::bounds::BoundChange;
use crate::derive::expand;
use crate::derive::expand::{ArbitraryImpl, DearbitraryImpl};
use crate::derive::hinting;
use crate::derive::hinting::HintPlan;
use crate::derive::input;
use crate::derive::input::{
    Data, DeriveError, DeriveInput, FieldConstructor, Fields, Param, Variant,
};
use crate::derive::plans;
use crate::derive::reading;
use crate::derive::reading::ReadPlan;
use crate::derive::selector;
use crate::derive::writing;
use crate::derive::writing::WritePlan;
use vstd::prelude::*;

verus! {

/// The plans that the generators return are those that the laws on plans speak of.
pub proof fn law_generators_return_the_plans(
    data: Data,
    counted: bool,
    read: Result<(ReadPlan, bool), DeriveError>,
    hint: Result<HintPlan, DeriveError>,
    write: Result<WritePlan, DeriveError>,
)
    requires
        hinting::count_fits(data, counted),
        data matches Data::Enum(variants) ==> writing::writable(variants@),
        call_ensures(reading::gen_arbitrary_method, (&data,), read),
        call_ensures(hinting::gen_size_hint_method, (&data, counted), hint),
        call_ensures(writing::gen_dearbitrary_method, (&data,), write),
    ensures
        reading::read_result(read, data),
        hinting::hint_result(hint, data, counted),
        writing::write_result(write, data),
{
}

/// What each field of a struct comes to, by its constructor: how it is read, whether it
/// is written, and what the size hint makes of it. Where a field is invalid all three
/// are refused for the first such field.
pub proof fn law_struct_field_by_field(
    fields: Fields,
    read: Result<(ReadPlan, bool), DeriveError>,
    hint: Result<HintPlan, DeriveError>,
    write: Result<WritePlan, DeriveError>,
    i: int,
)
    requires
        call_ensures(reading::gen_arbitrary_method, (&Data::Struct(fields),), read),
        call_ensures(hinting::gen_size_hint_method, (&Data::Struct(fields), true), hint),
        call_ensures(writing::gen_dearbitrary_method, (&Data::Struct(fields),), write),
        0 <= i < fields.constructors().len(),
    ensures
        match (read, hint, write) {
            (
                Ok((ReadPlan::Structlike { arbitrary, take_rest }, counted)),
                Ok(HintPlan::Structlike(hints)),
                Ok(WritePlan::Structlike { writes, rest_last }),
            ) => {
                let a = arbitrary.reads();
                let t = take_rest.reads();
                let h = hints@;
                let written = exists|k: int| 0 <= k < writes@.len() && #[trigger] writes@[k] == i;
                &&& counted
                &&& a.len() == t.len() == h.len() == fields.constructors().len()
                &&& match fields.constructors()[i] {
                    Some(FieldConstructor::Default) => a[i] is Default && t[i] is Default
                        && h[i] is Zero && !written,
                    Some(FieldConstructor::Arbitrary) => {
                        &&& a[i] is Arbitrary && h[i] is TypeHint && written
                        &&& if i + 1 == t.len() {
                            t[i] is TakeRest
                        } else {
                            t[i] is Arbitrary
                        }
                    },
                    Some(FieldConstructor::With) => a[i] is With && t[i] is With && h[i] is SizeOf
                        && written,
                    Some(FieldConstructor::Value) => a[i] is Value && t[i] is Value && h[i] is Zero
                        && !written,
                    None => false,
                }
                &&& i + 1 == t.len() ==> (rest_last <==> t[i] is TakeRest)
                &&& forall|j: int, k: int|
                    0 <= j < k < writes@.len() ==> #[trigger] writes@[j] < #[trigger] writes@[k]
                &&& forall|k: int|
                    0 <= k < writes@.len() ==> #[trigger] writes@[k] < fields.constructors().len()
            },
            (Err(DeriveError::Field { variant, index }), Err(e), Err(f)) => {
                &&& variant is None
                &&& e == read->Err_0 && f == read->Err_0
                &&& index < fields.constructors().len()
                &&& fields.constructors()[index as int] is None
                &&& forall|j: int| 0 <= j < index ==> (#[trigger] fields.constructors()[j]) is Some
            },
            _ => false,
        },
{
    let cs = fields.constructors();
    if let (Ok((r, c)), Ok(h), Ok(w)) = (read, hint, write) {
        plans::law_struct_is_read_field_by_field(fields, r, c);
        plans::law_struct_hints_each_field(fields, h, true);
        plans::law_struct_writes_what_takes_bytes(fields, w);
        assert(cs[i] is Some);
    }
    if let Err(DeriveError::Field { variant: _, index }) = read {
        assert(cs[index as int] is None);
    }
    if let Err(DeriveError::Field { variant: _, index }) = hint {
        assert(cs[index as int] is None);
    }
    if let Err(DeriveError::Field { variant: _, index }) = write {
        assert(cs[index as int] is None);
    }
}

/// What each field of a union comes to, by its constructor: how it is read, whether it
/// is written, and what the size hint makes of it. Where a field is invalid all three
/// are refused for the first such field.
pub proof fn law_union_field_by_field(
    fields: Vec<Option<FieldConstructor>>,
    read: Result<(ReadPlan, bool), DeriveError>,
    hint: Result<HintPlan, DeriveError>,
    write: Result<WritePlan, DeriveError>,
    i: int,
)
    requires
        call_ensures(reading::gen_arbitrary_method, (&Data::Union(fields),), read),
        call_ensures(hinting::gen_size_hint_method, (&Data::Union(fields), true), hint),
        call_ensures(writing::gen_dearbitrary_method, (&Data::Union(fields),), write),
        0 <= i < fields@.len(),
    ensures
        match (read, hint, write) {
            (
                Ok((ReadPlan::Structlike { arbitrary, take_rest }, counted)),
                Ok(HintPlan::Structlike(hints)),
                Ok(WritePlan::Structlike { writes, rest_last }),
            ) => {
                let a = arbitrary.reads();
                let t = take_rest.reads();
                let h = hints@;
                let written = exists|k: int| 0 <= k < writes@.len() && #[trigger] writes@[k] == i;
                &&& counted
                &&& a.len() == t.len() == h.len() == fields@.len()
                &&& match fields@[i] {
                    Some(FieldConstructor::Default) => a[i] is Default && t[i] is Default
                        && h[i] is Zero && !written,
                    Some(FieldConstructor::Arbitrary) => {
                        &&& a[i] is Arbitrary && h[i] is TypeHint && written
                        &&& if i + 1 == t.len() {
                            t[i] is TakeRest
                        } else {
                            t[i] is Arbitrary
                        }
                    },
                    Some(FieldConstructor::With) => a[i] is With && t[i] is With && h[i] is SizeOf
                        && written,
                    Some(FieldConstructor::Value) => a[i] is Value && t[i] is Value && h[i] is Zero
                        && !written,
                    None => false,
                }
                &&& i + 1 == t.len() ==> (rest_last <==> t[i] is TakeRest)
                &&& forall|j: int, k: int|
                    0 <= j < k < writes@.len() ==> #[trigger] writes@[j] < #[trigger] writes@[k]
                &&& forall|k: int|
                    0 <= k < writes@.len() ==> #[trigger] writes@[k] < fields@.len()
            },
            (Err(DeriveError::Field { variant, index }), Err(e), Err(f)) => {
                &&& variant is None
                &&& e == read->Err_0 && f == read->Err_0
                &&& index < fields@.len()
                &&& fields@[index as int] is None
                &&& forall|j: int| 0 <= j < index ==> (#[trigger] fields@[j]) is Some
            },
            _ => false,
        },
{
    let cs = fields@;
    if let (Ok((r, c)), Ok(h), Ok(w)) = (read, hint, write) {
        plans::law_union_is_read_field_by_field(fields, r, c);
        plans::law_union_hints_each_field(fields, h, true);
        plans::law_union_writes_what_takes_bytes(fields, w);
        assert(cs[i] is Some);
    }
    if let Err(DeriveError::Field { variant: _, index }) = read {
        assert(cs[index as int] is None);
    }
    if let Err(DeriveError::Field { variant: _, index }) = hint {
        assert(cs[index as int] is None);
    }
    if let Err(DeriveError::Field { variant: _, index }) = write {
        assert(cs[index as int] is None);
    }
}

/// What each field of a variant comes to, arm by arm, as for a struct. The arms of all
/// plans are for the same variants: those that are not skipped, in order. The selector
/// that is written chooses the arm that reads.
pub proof fn law_enum_field_by_field(
    variants: Vec<Variant>,
    read: Result<(ReadPlan, bool), DeriveError>,
    hint: Result<HintPlan, DeriveError>,
    write: Result<WritePlan, DeriveError>,
    k: int,
    i: int,
)
    requires
        writing::writable(variants@),
        call_ensures(reading::gen_arbitrary_method, (&Data::Enum(variants),), read),
        read matches Ok((_, counted)) ==> call_ensures(
            hinting::gen_size_hint_method,
            (&Data::Enum(variants), counted),
            hint,
        ),
        call_ensures(writing::gen_dearbitrary_method, (&Data::Enum(variants),), write),
    ensures
        match (read, hint, write) {
            (
                Ok((ReadPlan::Enum { count, arms, rest_arms }, counted)),
                Ok(HintPlan::Enum(hints)),
                Ok(WritePlan::Enum(writes)),
            ) => {
                &&& counted
                &&& arms@.len() == rest_arms@.len() == hints@.len() == writes@.len() == count
                &&& 0 <= k < count ==> {
                    let v = writes@[k].variant;
                    let cs = variants@[v as int].fields.constructors();
                    let w = writes@[k].writes@;
                    let a = arms@[k].construct.reads();
                    let t = rest_arms@[k].construct.reads();
                    let h = hints@[k].hints@;
                    let written = exists|j: int| 0 <= j < w.len() && #[trigger] w[j] == i;
                    &&& v < variants@.len() && !variants@[v as int].skipped
                    &&& arms@[k].variant == v && rest_arms@[k].variant == v && hints@[k].variant
                        == v
                    &&& k + 1 < count ==> v < writes@[k + 1].variant
                    &&& arms@[k].index == k && rest_arms@[k].index == k
                    &&& (writes@[k].selector * count) / 0x1_0000_0000 == k
                    &&& a.len() == t.len() == h.len() == cs.len()
                    &&& 0 <= i < cs.len() ==> match cs[i] {
                        Some(FieldConstructor::Default) => a[i] is Default && t[i] is Default
                            && h[i] is Zero && !written,
                        Some(FieldConstructor::Arbitrary) => {
                            &&& a[i] is Arbitrary && h[i] is TypeHint && written
                            &&& if i + 1 == t.len() {
                                t[i] is TakeRest
                            } else {
                                t[i] is Arbitrary
                            }
                        },
                        Some(FieldConstructor::With) => a[i] is With && t[i] is With
                            && h[i] is SizeOf && written,
                        Some(FieldConstructor::Value) => a[i] is Value && t[i] is Value
                            && h[i] is Zero && !written,
                        None => false,
                    }
                    &&& 0 <= i < cs.len() && i + 1 == t.len() ==> (writes@[k].rest_last
                        <==> t[i] is TakeRest)
                    &&& forall|j: int| 0 <= j < w.len() ==> #[trigger] w[j] < cs.len()
                    &&& forall|j: int, l: int|
                        0 <= j < l < w.len() ==> #[trigger] w[j] < #[trigger] w[l]
                }
            },
            (Ok((ReadPlan::Enum { .. }, counted)), Ok(HintPlan::SelectorOnly), Ok(_)) => {
                &&& !counted
                &&& forall|v: int|
                    0 <= v < variants@.len() && !(#[trigger] variants@[v]).skipped
                        ==> variants@[v].fields is Unit
            },
            (Ok(_), Err(_), _) => false,
            (Ok(_), _, Err(_)) => false,
            (Ok(_), _, _) => false,
            (Err(DeriveError::NoVariants), _, Err(DeriveError::NoVariants)) => forall|v: int|
                0 <= v < variants@.len() ==> (#[trigger] variants@[v]).skipped,
            (Err(DeriveError::VariantAttribute { .. }), _, _) => true,
            _ => false,
        },
{
    if let (Ok((r, c)), Ok(h), Ok(w)) = (read, hint, write) {
        plans::law_enum_is_read_variant_by_variant(variants, r, c);
        plans::law_enum_hints_each_field(variants, h, c);
        plans::law_enum_writes_what_takes_bytes(variants, w);
        plans::lemma_kept_places(variants@);
        let ks = input::kept(variants@);
        if let (ReadPlan::Enum { count, arms, rest_arms }, HintPlan::Enum(hints), WritePlan::Enum(
            writes,
        )) = (r, h, w) {
            if 0 <= k < count {
                assert(arms@[k].variant == ks[k]);
                assert(rest_arms@[k].variant == ks[k]);
                assert(hints@[k].variant == ks[k]);
                assert(writes@[k].variant == ks[k]);
                assert(writes@[k].selector == writes@[k].selector);
                if k + 1 < count {
                    assert(writes@[k + 1].variant == ks[k + 1]);
                }
                let cs = variants@[ks[k] as int].fields.constructors();
                if 0 <= i < cs.len() {
                    assert(cs[i] is Some);
                }
            }
        }
    }
    if let Err(e) = read {
        plans::law_enum_is_refused_for_a_reason(variants, e);
        plans::lemma_kept_places(variants@);
    }
    if let Err(e) = write {
        plans::law_enum_is_not_written_without_variants(variants, e);
    }
    if let Err(e) = hint {
        if let Ok((r, c)) = read {
            plans::law_enum_is_read_variant_by_variant(variants, r, c);
        }
    }
}

/// The size hint of an enum is refused exactly where a variant that is not skipped has
/// an invalid field, and the first such field of the first such variant is named.
pub proof fn law_enum_hint_is_refused_for_its_first_invalid_field(
    variants: Vec<Variant>,
    counted: bool,
    r: Result<HintPlan, DeriveError>,
)
    requires
        hinting::count_fits(Data::Enum(variants), counted),
        call_ensures(hinting::gen_size_hint_method, (&Data::Enum(variants), counted), r),
    ensures
        match r {
            Ok(_) => forall|v: int, i: int|
                0 <= v < variants@.len() && !(#[trigger] variants@[v]).skipped && 0 <= i
                    < variants@[v].fields.constructors().len() ==> (
                #[trigger] variants@[v].fields.constructors()[i]) is Some,
            Err(DeriveError::Field { variant: Some(p), index }) => {
                let cs = variants@[p as int].fields.constructors();
                &&& p < variants@.len()
                &&& !variants@[p as int].skipped
                &&& index < cs.len()
                &&& cs[index as int] is None
                &&& forall|j: int| 0 <= j < index ==> (#[trigger] cs[j]) is Some
                &&& forall|v: int, j: int|
                    0 <= v < p && !(#[trigger] variants@[v]).skipped && 0 <= j
                        < variants@[v].fields.constructors().len() ==> (
                    #[trigger] variants@[v].fields.constructors()[j]) is Some
            },
            Err(_) => false,
        },
{
    match r {
        Ok(_) => {
            assert forall|v: int, i: int|
                0 <= v < variants@.len() && !(#[trigger] variants@[v]).skipped && 0 <= i
                    < variants@[v].fields.constructors().len() implies (
            #[trigger] variants@[v].fields.constructors()[i]) is Some by {
                assert(input::all_valid(variants@[v].fields.constructors()));
            }
        },
        Err(DeriveError::Field { variant: Some(p), index }) => {
            assert forall|v: int, j: int|
                0 <= v < p && !(#[trigger] variants@[v]).skipped && 0 <= j
                    < variants@[v].fields.constructors().len() implies (
            #[trigger] variants@[v].fields.constructors()[j]) is Some by {
                assert(variants@.take(p as int)[v] == variants@[v]);
                assert(input::all_valid(variants@[v].fields.constructors()));
            }
        },
        _ => {},
    }
}

/// The fields of a struct or a variant that are written: those that are read by their
/// type or by a function of the user's, in order. Whether the last one is given all the
/// rest hangs on its constructor alone.
pub proof fn law_fields_are_written_by_their_constructors(
    fields: Fields,
    writes: Result<Vec<usize>, DeriveError>,
    rest_last: bool,
    plan: Result<WritePlan, DeriveError>,
)
    requires
        call_ensures(writing::gen_dearbitrary_field_writes, (&fields,), writes),
        call_ensures(writing::writes_rest_last, (&fields,), rest_last),
        call_ensures(writing::gen_dearbitrary_struct, (&fields,), plan),
    ensures
        rest_last <==> fields.constructors().len() > 0 && fields.constructors().last() == Some(
            FieldConstructor::Arbitrary,
        ),
        match writes {
            Ok(w) => {
                &&& plan matches Ok(WritePlan::Structlike { writes: u, rest_last: l }) && u@ == w@
                    && l == rest_last
                &&& forall|i: int|
                    0 <= i < fields.constructors().len() ==> ((exists|k: int|
                        0 <= k < w@.len() && #[trigger] w@[k] == i)
                        <==> #[trigger] fields.constructors()[i] == Some(
                        FieldConstructor::Arbitrary,
                    ) || fields.constructors()[i] == Some(FieldConstructor::With))
                &&& forall|k: int|
                    0 <= k < w@.len() ==> #[trigger] w@[k] < fields.constructors().len()
                &&& forall|j: int, k: int|
                    0 <= j < k < w@.len() ==> #[trigger] w@[j] < #[trigger] w@[k]
                &&& forall|i: int|
                    0 <= i < fields.constructors().len() ==> (
                    #[trigger] fields.constructors()[i]) is Some
            },
            Err(e) => {
                &&& plan matches Err(f) && f == e
                &&& e matches DeriveError::Field { variant, index }
                &&& variant is None
                &&& index < fields.constructors().len()
                &&& fields.constructors()[index as int] is None
                &&& forall|j: int|
                    0 <= j < index ==> (#[trigger] fields.constructors()[j]) is Some
            },
        },
{
    let cs = fields.constructors();
    match (writes, plan) {
        (Ok(w), Ok(WritePlan::Structlike { writes: u, rest_last: _ })) => {
            plans::lemma_writes(cs, w@);
            let a = writing::positions(u@);
            let b = writing::positions(w@);
            assert(a == b);
            assert(a.len() == u@.len() && b.len() == w@.len());
            assert forall|k: int| 0 <= k < u@.len() implies u@[k] == w@[k] by {
                assert(a[k] == u@[k] && b[k] == w@[k]);
            }
            assert(u@ =~= w@);
        },
        (Ok(_), Err(DeriveError::Field { variant: _, index })) => {
            assert(cs[index as int] is None);
        },
        (Err(DeriveError::Field { variant: _, index }), _) => {
            assert(cs[index as int] is None);
        },
        _ => {},
    }
}

/// The arms that write an enum are those of [`law_enum_field_by_field`], whether it is
/// asked for as an enum or as the body of a type.
pub proof fn law_enum_is_written_alike(
    variants: Vec<Variant>,
    plan: Result<WritePlan, DeriveError>,
    same: Result<WritePlan, DeriveError>,
)
    requires
        writing::writable(variants@),
        call_ensures(writing::gen_dearbitrary_enum, (&variants,), plan),
        call_ensures(writing::gen_dearbitrary_method, (&Data::Enum(variants),), same),
    ensures
        writing::write_result(plan, Data::Enum(variants)),
        plan is Ok <==> same is Ok,
        plan is Ok <==> exists|v: int| 0 <= v < variants@.len() && !(#[trigger] variants@[v]).skipped,
{
    plans::lemma_kept_places(variants@);
    if let Ok(p) = plan {
        plans::law_enum_writes_what_takes_bytes(variants, p);
        if let WritePlan::Enum(arms) = p {
            assert(!variants@[arms@[0].variant as int].skipped);
        }
    }
    if let Err(e) = plan {
        plans::law_enum_is_not_written_without_variants(variants, e);
    }
    if let Ok(p) = same {
        plans::law_enum_writes_what_takes_bytes(variants, p);
        if let WritePlan::Enum(arms) = p {
            assert(!variants@[arms@[0].variant as int].skipped);
        }
    }
    if let Err(e) = same {
        plans::law_enum_is_not_written_without_variants(variants, e);
    }
}

/// Which enums can be written: those whose variants, where they are not skipped, have
/// valid fields, and are no more than 2^31.
pub proof fn law_writable_enums(variants: Vec<Variant>)
    ensures
        writing::writable(variants@) <==> {
            &&& forall|v: int, i: int|
                0 <= v < variants@.len() && !(#[trigger] variants@[v]).skipped && 0 <= i
                    < variants@[v].fields.constructors().len() ==> (
                #[trigger] variants@[v].fields.constructors()[i]) is Some
            &&& variants@.filter(|v: Variant| !v.skipped).len() <= 0x8000_0000
        },
{
    lemma_kept_count(variants@);
    if writing::writable(variants@) {
        assert forall|v: int, i: int|
            0 <= v < variants@.len() && !(#[trigger] variants@[v]).skipped && 0 <= i
                < variants@[v].fields.constructors().len() implies (
        #[trigger] variants@[v].fields.constructors()[i]) is Some by {
            assert(input::all_valid(variants@[v].fields.constructors()));
        }
    }
}

proof fn lemma_kept_count(variants: Seq<Variant>)
    ensures
        input::kept(variants).len() == variants.filter(|v: Variant| !v.skipped).len(),
    decreases variants.len(),
{
    reveal(Seq::filter);
    if variants.len() > 0 {
        lemma_kept_count(variants.drop_last());
    }
}

/// A variant is refused for its first attribute that is named `arbitrary`, and only for
/// such a one.
pub proof fn law_variant_attribute_is_refused(
    variant: Variant,
    position: usize,
    r: Result<(), DeriveError>,
)
    requires
        call_ensures(reading::check_variant_attrs, (&variant, position), r),
    ensures
        match r {
            Ok(()) => forall|a: int|
                0 <= a < variant.attributes@.len() ==> !(
                #[trigger] variant.attributes@[a] matches Some(name) && name@ == "arbitrary"@),
            Err(DeriveError::VariantAttribute { position: p, attribute }) => {
                &&& p == position
                &&& attribute < variant.attributes@.len()
                &&& variant.attributes@[attribute as int] matches Some(name) && name@
                    == "arbitrary"@
                &&& forall|a: int|
                    0 <= a < attribute ==> !(
                    #[trigger] variant.attributes@[a] matches Some(name) && name@
                        == "arbitrary"@)
            },
            Err(_) => false,
        },
{
    let names = variant.attributes@;
    assert forall|a: int| 0 <= a < names.len() && !reading::is_named(
        #[trigger] names[a],
    ) implies !(names[a] matches Some(name) && name@ == "arbitrary"@) by {
    }
    if r is Ok {
        assert forall|a: int| 0 <= a < names.len() implies !(#[trigger] names[a] matches Some(
            name,
        ) && name@ == "arbitrary"@) by {
            assert(!reading::is_named(names[a]));
        }
    }
    if let Err(DeriveError::VariantAttribute { position: _, attribute }) = r {
        assert forall|a: int| 0 <= a < attribute implies !(#[trigger] names[a] matches Some(
            name,
        ) && name@ == "arbitrary"@) by {
            assert(!reading::is_named(names[a]));
        }
    }
}

/// The fields of a union are named, and keep their constructors.
pub proof fn law_union_fields_are_named(constructors: Vec<Option<FieldConstructor>>, r: Fields)
    requires
        call_ensures(input::named_fields, (&constructors,), r),
    ensures
        r matches Fields::Named(c) && c@ == constructors@,
{
}

/// The selector that is written for a variant chooses that variant, from the middle of
/// all the selectors that do.
pub proof fn law_selector_chooses_what_it_is_written_for(
    index: u64,
    count: u64,
    selector: u32,
    chosen: u64,
)
    requires
        index < count <= selector::MAX_VARIANTS,
        call_ensures(selector::variant_selector, (index, count), selector),
        call_ensures(selector::variant_index, (selector, count), chosen),
    ensures
        chosen == index,
        count == 1 ==> selector == 0,
        count > 1 ==> selector * (2 * count) <= (2 * index + 1) * 0x1_0000_0000 < (selector + 1)
            * (2 * count),
{
    selector::law_selector_chooses_its_variant(index as int, count as int);
    selector::law_selector_is_the_midpoint(index as int, count as int);
}

/// A selector chooses by multiply and shift: variant `k` of `n` for the selectors from
/// `k * 2^32 / n` up to the next one's first.
pub proof fn law_selector_chooses_by_multiply_and_shift(selector: u32, count: u64, chosen: u64)
    requires
        0 < count <= 0x1_0000_0000,
        call_ensures(selector::variant_index, (selector, count), chosen),
    ensures
        chosen < count,
        chosen * 0x1_0000_0000 <= selector * count < (chosen + 1) * 0x1_0000_0000,
{
    selector::law_every_selector_chooses(selector, count as int);
    selector::law_chosen_variant_holds_the_selector(selector as int, count as int);
}

/// The generic parameters of an implementation for reading. A type parameter takes
/// the first of the user's bounds that has its name, and is left bare where none has
/// it; without bounds of the user's it is bounded by the trait. Other parameters stay.
pub proof fn law_type_parameters_take_the_bounds_of_their_names(
    params: Vec<Param>,
    bounds: Option<Vec<String>>,
    changes: Vec<BoundChange>,
)
    requires
        call_ensures(bounds::apply_trait_bounds, (&params, &bounds), Ok(changes)),
    ensures
        changes@.len() == params@.len(),
        forall|j: int|
            0 <= j < params@.len() ==> match (#[trigger] params@[j], bounds) {
                (Param::Type(name), Some(given)) => match changes@[j] {
                    BoundChange::Replace(i) => {
                        &&& i < given@.len()
                        &&& given@[i as int]@ == name@
                        &&& forall|h: int| 0 <= h < i ==> (#[trigger] given@[h])@ != name@
                    },
                    BoundChange::Clear => forall|h: int|
                        0 <= h < given@.len() ==> (#[trigger] given@[h])@ != name@,
                    _ => false,
                },
                (Param::Type(_), None) => changes@[j] is AddBound,
                _ => changes@[j] is Keep,
            },
{
    lemma_bounds_by_name(params@, bounds, changes);
}

proof fn lemma_bounds_by_name(
    params: Seq<Param>,
    bounds: Option<Vec<String>>,
    changes: Vec<BoundChange>,
)
    requires
        bounds::bounds_result(Ok(changes), params, bounds),
    ensures
        changes@.len() == params.len(),
        forall|j: int|
            0 <= j < params.len() ==> match (#[trigger] params[j], bounds) {
                (Param::Type(name), Some(given)) => match changes@[j] {
                    BoundChange::Replace(i) => {
                        &&& i < given@.len()
                        &&& given@[i as int]@ == name@
                        &&& forall|h: int| 0 <= h < i ==> (#[trigger] given@[h])@ != name@
                    },
                    BoundChange::Clear => forall|h: int|
                        0 <= h < given@.len() ==> (#[trigger] given@[h])@ != name@,
                    _ => false,
                },
                (Param::Type(_), None) => changes@[j] is AddBound,
                _ => changes@[j] is Keep,
            },
{
    if let Some(given) = bounds {
        assert forall|j: int| 0 <= j < params.len() implies match #[trigger] params[j] {
            Param::Type(name) => match changes@[j] {
                BoundChange::Replace(i) => {
                    &&& i < given@.len()
                    &&& given@[i as int]@ == name@
                    &&& forall|h: int| 0 <= h < i ==> (#[trigger] given@[h])@ != name@
                },
                BoundChange::Clear => forall|h: int|
                    0 <= h < given@.len() ==> (#[trigger] given@[h])@ != name@,
                _ => false,
            },
            _ => changes@[j] is Keep,
        } by {
            assert(bounds::replaced(changes@[j], params[j], given@));
        }
    } else {
        assert forall|j: int| 0 <= j < params.len() implies if (#[trigger] params[j]) is Type {
            changes@[j] is AddBound
        } else {
            changes@[j] is Keep
        } by {
            assert(changes@[j] == bounds::all_bounded(params)[j]);
        }
    }
}

/// Type parameters with different names take different bounds of the user's.
pub proof fn law_different_parameters_take_different_bounds(
    params: Vec<Param>,
    bounds: Option<Vec<String>>,
    changes: Vec<BoundChange>,
    j: int,
    k: int,
)
    requires
        call_ensures(bounds::apply_trait_bounds, (&params, &bounds), Ok(changes)),
        0 <= j < params@.len(),
        0 <= k < params@.len(),
        changes@[j] is Replace,
        changes@[k] is Replace,
        params@[j] is Type && params@[k] is Type ==> params@[j]->Type_0@ != params@[k]->Type_0@,
    ensures
        changes@[j]->Replace_0 != changes@[k]->Replace_0,
{
    law_type_parameters_take_the_bounds_of_their_names(params, bounds, changes);
    assert(params@[j] is Type && params@[k] is Type);
}

/// Whether the user gives a bound that has the name of a type parameter.
pub open spec fn has_bound(param: Param, given: Seq<String>) -> bool {
    param matches Param::Type(name) && exists|i: int|
        0 <= i < given.len() && (#[trigger] given[i])@ == name@
}

proof fn lemma_applied(params: Seq<Param>, given: Seq<String>)
    ensures
        bounds::applied(params, given) == params.filter(|p: Param| has_bound(p, given)).len(),
    decreases params.len(),
{
    reveal(Seq::filter);
    if params.len() > 0 {
        lemma_applied(params.drop_last(), given);
    }
}

/// The user's bounds are refused exactly where the type parameters that they name are
/// not as many as they, and both numbers are told. No bounds are not refused.
pub proof fn law_bounds_are_refused_where_they_do_not_apply(
    params: Vec<Param>,
    bounds: Option<Vec<String>>,
    r: Result<Vec<BoundChange>, DeriveError>,
)
    requires
        call_ensures(bounds::apply_trait_bounds, (&params, &bounds), r),
    ensures
        match bounds {
            Some(given) => {
                let named = params@.filter(|p: Param| has_bound(p, given@)).len();
                match r {
                    Ok(_) => named == given@.len(),
                    Err(e) => e matches DeriveError::TooManyBounds { applied, supplied } && applied
                        == named && supplied == given@.len() && named != given@.len(),
                }
            },
            None => r is Ok,
        },
{
    if let Some(given) = bounds {
        lemma_applied(params@, given@);
    }
}

/// The generic parameters of an implementation for writing: every type parameter is
/// bounded by the trait, but where the user gives bounds all stay as they are. Without
/// bounds of the user's it is the same for reading.
pub proof fn law_parameters_for_writing(
    params: Vec<Param>,
    bounds: Option<Vec<String>>,
    r: Vec<BoundChange>,
    all: Vec<BoundChange>,
    j: int,
)
    requires
        call_ensures(bounds::apply_dearbitrary_bounds, (&params, &bounds), r),
        call_ensures(bounds::add_trait_bounds, (&params,), all),
        0 <= j < params@.len(),
    ensures
        r@.len() == params@.len(),
        r@[j] is AddBound <==> bounds is None && params@[j] is Type,
        r@[j] is Keep <==> bounds is Some || !(params@[j] is Type),
        all@.len() == params@.len(),
        all@[j] is AddBound <==> params@[j] is Type,
        all@[j] is Keep <==> !(params@[j] is Type),
{
}

proof fn lemma_lifetimes(params: Seq<Param>)
    ensures
        ({
            let found = bounds::lifetimes(params);
            &&& forall|k: int|
                0 <= k < found.len() ==> (#[trigger] found[k]) < params.len()
                    && params[found[k] as int] is Lifetime
            &&& forall|j: int, k: int|
                0 <= j < k < found.len() ==> (#[trigger] found[j]) < (#[trigger] found[k])
            &&& forall|i: int|
                0 <= i < params.len() && (#[trigger] params[i]) is Lifetime ==> exists|k: int|
                    0 <= k < found.len() && #[trigger] found[k] == i
        }),
    decreases params.len(),
{
    let found = bounds::lifetimes(params);
    if params.len() > 0 {
        let b = params.drop_last();
        let before = bounds::lifetimes(b);
        lemma_lifetimes(b);
        assert forall|k: int| 0 <= k < found.len() implies (#[trigger] found[k]) < params.len()
            && params[found[k] as int] is Lifetime by {
            if k < before.len() {
                assert(found[k] == before[k]);
                assert(b[before[k] as int] == params[before[k] as int]);
            }
        }
        assert forall|j: int, k: int| 0 <= j < k < found.len() implies (#[trigger] found[j]) < (
        #[trigger] found[k]) by {
            assert(found[j] == before[j]);
            if k < before.len() {
                assert(found[k] == before[k]);
            }
        }
        assert forall|i: int| 0 <= i < params.len() && (
        #[trigger] params[i]) is Lifetime implies exists|k: int|
            0 <= k < found.len() && #[trigger] found[k] == i by {
            if i < b.len() {
                assert(b[i] == params[i]);
                let k = choose|k: int| 0 <= k < before.len() && #[trigger] before[k] == i;
                assert(found[k] == i);
            } else {
                assert(found[found.len() - 1] == i);
            }
        }
    }
}

/// Whether `found` are the positions of all the lifetimes among `params`, in order.
pub open spec fn all_lifetimes(found: Seq<usize>, params: Seq<Param>) -> bool {
    &&& forall|k: int|
        0 <= k < found.len() ==> (#[trigger] found[k]) < params.len()
            && params[found[k] as int] is Lifetime
    &&& forall|j: int, k: int|
        0 <= j < k < found.len() ==> (#[trigger] found[j]) < (#[trigger] found[k])
    &&& forall|i: int|
        0 <= i < params.len() && (#[trigger] params[i]) is Lifetime ==> exists|k: int|
            0 <= k < found.len() && #[trigger] found[k] == i
}

proof fn lemma_all_lifetimes(found: Seq<usize>, params: Seq<Param>)
    requires
        Seq::new(found.len(), |k: int| found[k] as nat) == bounds::lifetimes(params),
    ensures
        all_lifetimes(found, params),
{
    let spec_found = bounds::lifetimes(params);
    lemma_lifetimes(params);
    assert forall|k: int| 0 <= k < found.len() implies #[trigger] found[k] == spec_found[k] by {
        assert(Seq::new(found.len(), |k: int| found[k] as nat)[k] == found[k]);
    }
    assert(found.len() == spec_found.len());
    assert forall|k: int| 0 <= k < found.len() implies (#[trigger] found[k]) < params.len()
        && params[found[k] as int] is Lifetime by {
        assert(spec_found[k] < params.len());
    }
    assert forall|j: int, k: int| 0 <= j < k < found.len() implies (#[trigger] found[j]) < (
    #[trigger] found[k]) by {
        assert(spec_found[j] < spec_found[k]);
    }
    assert forall|i: int| 0 <= i < params.len() && (
    #[trigger] params[i]) is Lifetime implies exists|k: int|
        0 <= k < found.len() && #[trigger] found[k] == i by {
        let k = choose|k: int| 0 <= k < spec_found.len() && #[trigger] spec_found[k] == i;
        assert(found[k] == i);
    }
}

/// The lifetimes that a reader's lifetime must outlive are all those of the type, in
/// order.
pub proof fn law_all_lifetimes_are_outlived(params: Vec<Param>, found: Vec<usize>)
    requires
        call_ensures(bounds::build_arbitrary_lifetime, (&params,), found),
    ensures
        all_lifetimes(found@, params@),
{
    lemma_all_lifetimes(found@, params@);
}

/// The mark of a raw identifier is taken off, and nothing else of an identifier. The
/// recursion count is named after what is left.
pub proof fn law_raw_mark_is_taken_off(ident: String, bare: String, count: String)
    requires
        call_ensures(expand::unraw, (&ident,), bare),
        call_ensures(expand::recursive_count_name, (&ident,), count),
    ensures
        if ident@.len() >= 2 && ident@[0] == 'r' && ident@[1] == '#' {
            ident@ == seq!['r', '#'] + bare@
        } else {
            ident@ == bare@
        },
        count@ == "RECURSIVE_COUNT_"@ + bare@,
{
    if ident@.len() >= 2 && ident@[0] == 'r' && ident@[1] == '#' {
        assert(ident@ =~= seq!['r', '#'] + bare@);
    }
}

/// A derived implementation for reading as a whole. There is a recursion count for
/// every struct and union, and for an enum of which a variant that is not skipped has a
/// field list. It is named after the type.
pub proof fn law_derived_reading(input: DeriveInput, derived: ArbitraryImpl)
    requires
        call_ensures(expand::expand_derive_arbitrary, (&input,), Ok(derived)),
    ensures
        derived.recursive_count matches Some(name) ==> {
            let bare = if input.ident@.len() >= 2 && input.ident@[0] == 'r' && input.ident@[1]
                == '#' {
                input.ident@.skip(2)
            } else {
                input.ident@
            };
            name@ == "RECURSIVE_COUNT_"@ + bare
        },
        derived.recursive_count is Some <==> match input.data {
            Data::Enum(variants) => exists|v: int|
                0 <= v < variants@.len() && !(#[trigger] variants@[v]).skipped && !(
                variants@[v].fields is Unit),
            _ => true,
        },
        reading::read_result(
            Ok((derived.read, derived.recursive_count is Some)),
            input.data,
        ),
        hinting::hint_result(Ok(derived.hint), input.data, derived.recursive_count is Some),
        bounds::bounds_result(Ok(derived.params), input.params@, input.bounds),
        all_lifetimes(derived.lifetimes@, input.params@),
{
    assert(Seq::new(derived.lifetimes@.len(), |k: int| derived.lifetimes@[k] as nat)
        =~= writing::positions(derived.lifetimes@));
    lemma_all_lifetimes(derived.lifetimes@, input.params@);
}

/// The type parameters of a derived implementation for reading take the first of the
/// user's bounds that have their names.
pub proof fn law_derived_parameters_take_the_bounds_of_their_names(
    input: DeriveInput,
    derived: ArbitraryImpl,
    j: int,
)
    requires
        call_ensures(expand::expand_derive_arbitrary, (&input,), Ok(derived)),
        0 <= j < input.params@.len(),
    ensures
        derived.params@.len() == input.params@.len(),
        match (input.params@[j], input.bounds) {
            (Param::Type(name), Some(given)) => match derived.params@[j] {
                BoundChange::Replace(i) => {
                    &&& i < given@.len()
                    &&& given@[i as int]@ == name@
                    &&& forall|h: int| 0 <= h < i ==> (#[trigger] given@[h])@ != name@
                },
                BoundChange::Clear => forall|h: int|
                    0 <= h < given@.len() ==> (#[trigger] given@[h])@ != name@,
                _ => false,
            },
            (Param::Type(_), None) => derived.params@[j] is AddBound,
            _ => derived.params@[j] is Keep,
        },
{
    lemma_bounds_by_name(input.params@, input.bounds, derived.params);
}

/// A derived implementation for reading is refused for its fields and variants before
/// it is refused for its bounds.
pub proof fn law_derived_reading_is_refused_in_order(input: DeriveInput, e: DeriveError)
    requires
        call_ensures(expand::expand_derive_arbitrary, (&input,), Err(e)),
    ensures
        match e {
            DeriveError::TooManyBounds { applied, supplied } => {
                &&& input.bounds matches Some(given) && supplied == given@.len() && applied
                    == input.params@.filter(|p: Param| has_bound(p, given@)).len() && applied
                    != supplied
                &&& match input.data {
                    Data::Struct(fields) => forall|i: int|
                        0 <= i < fields.constructors().len() ==> (
                        #[trigger] fields.constructors()[i]) is Some,
                    Data::Union(fields) => forall|i: int|
                        0 <= i < fields@.len() ==> (#[trigger] fields@[i]) is Some,
                    Data::Enum(variants) => {
                        &&& exists|v: int|
                            0 <= v < variants@.len() && !(#[trigger] variants@[v]).skipped
                        &&& forall|v: int, i: int|
                            0 <= v < variants@.len() && !(#[trigger] variants@[v]).skipped && 0 <= i
                                < variants@[v].fields.constructors().len() ==> (
                            #[trigger] variants@[v].fields.constructors()[i]) is Some
                    },
                }
            },
            _ => reading::read_result(Err(e), input.data),
        },
{
    if e is TooManyBounds {
        if let Some(given) = input.bounds {
            lemma_applied(input.params@, given@);
        }
        if let Data::Enum(variants) = input.data {
            plans::lemma_kept_places(variants@);
            assert(!variants@[input::kept(variants@)[0] as int].skipped);
            assert forall|v: int, i: int|
                0 <= v < variants@.len() && !(#[trigger] variants@[v]).skipped && 0 <= i
                    < variants@[v].fields.constructors().len() implies (
            #[trigger] variants@[v].fields.constructors()[i]) is Some by {
                assert(input::all_valid(variants@[v].fields.constructors()));
            }
        }
    }
}

/// A derived implementation for writing as a whole: what the generator of the body
/// gives, with every type parameter bounded by the trait unless the user gives bounds.
pub proof fn law_derived_writing(
    input: DeriveInput,
    derived: Result<DearbitraryImpl, DeriveError>,
)
    requires
        input.data matches Data::Enum(variants) ==> writing::writable(variants@),
        call_ensures(expand::expand_derive_dearbitrary, (&input,), derived),
    ensures
        match derived {
            Ok(d) => {
                &&& writing::write_result(Ok(d.write), input.data)
                &&& d.params@.len() == input.params@.len()
                &&& forall|j: int|
                    0 <= j < d.params@.len() ==> if input.bounds is None && input.params@[j] is Type {
                        #[trigger] d.params@[j] is AddBound
                    } else {
                        d.params@[j] is Keep
                    }
            },
            Err(e) => writing::write_result(Err(e), input.data),
        },
{
}

/// Derived implementations for the same struct fit one another: a field is written
/// exactly where it is taken out of the data, and there alone the size hint counts it.
pub proof fn law_derived_structs_agree(
    input: DeriveInput,
    fields: Fields,
    reads: ArbitraryImpl,
    writes: DearbitraryImpl,
    i: int,
)
    requires
        input.data == Data::Struct(fields),
        call_ensures(expand::expand_derive_arbitrary, (&input,), Ok(reads)),
        call_ensures(expand::expand_derive_dearbitrary, (&input,), Ok(writes)),
        0 <= i < fields.constructors().len(),
    ensures
        ({
            let a = reads.read->arbitrary.reads();
            let t = reads.read->take_rest.reads();
            let h = reads.hint->Structlike_0@;
            let w = writes.write->writes@;
            let written = exists|k: int| 0 <= k < w.len() && #[trigger] w[k] == i;
            &&& a.len() == t.len() == h.len() == fields.constructors().len()
            &&& written <==> a[i] is Arbitrary || a[i] is With
            &&& written <==> t[i] is Arbitrary || t[i] is TakeRest || t[i] is With
            &&& written <==> !(h[i] is Zero)
            &&& h[i] is TypeHint <==> a[i] is Arbitrary
            &&& t[i] is TakeRest <==> writes.write->rest_last && i + 1 == t.len()
        }),
{
    plans::law_struct_plans_agree(
        fields,
        reads.read,
        reads.hint,
        writes.write,
        reads.recursive_count is Some,
        i,
    );
}

/// Derived implementations for the same enum fit one another, variant by variant.
pub proof fn law_derived_enums_agree(
    input: DeriveInput,
    variants: Vec<Variant>,
    reads: ArbitraryImpl,
    writes: DearbitraryImpl,
    k: int,
    i: int,
)
    requires
        input.data == Data::Enum(variants),
        writing::writable(variants@),
        call_ensures(expand::expand_derive_arbitrary, (&input,), Ok(reads)),
        call_ensures(expand::expand_derive_dearbitrary, (&input,), Ok(writes)),
        0 <= k < reads.read->arms@.len(),
        0 <= i < reads.read->arms@[k].construct.reads().len(),
    ensures
        ({
            let a = reads.read->arms@[k].construct.reads();
            let t = reads.read->rest_arms@[k].construct.reads();
            let h = reads.hint->Enum_0@[k].hints@;
            let arm = writes.write->Enum_0@[k];
            let w = arm.writes@;
            let written = exists|j: int| 0 <= j < w.len() && #[trigger] w[j] == i;
            &&& arm.variant == reads.read->arms@[k].variant
            &&& (arm.selector * reads.read->count) / 0x1_0000_0000 == reads.read->arms@[k].index
            &&& written <==> a[i] is Arbitrary || a[i] is With
            &&& written <==> t[i] is Arbitrary || t[i] is TakeRest || t[i] is With
            &&& written <==> !(h[i] is Zero)
            &&& h[i] is TypeHint <==> a[i] is Arbitrary
            &&& t[i] is TakeRest <==> arm.rest_last && i + 1 == t.len()
        }),
{
    plans::law_enum_plans_agree(
        variants,
        reads.read,
        reads.hint,
        writes.write,
        reads.recursive_count is Some,
        k,
        i,
    );
}

} // verus!
