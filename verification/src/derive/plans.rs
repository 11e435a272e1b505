//! What the plans of derived implementations are for: how they follow from the type
//! they are made for, and how they fit one another.

use crate::arbitrary::Arbitrary;
use crate::dearbitrary::Dearbitrary;
use crate::derive::hinting;
use crate::derive::hinting::{FieldHint, HintPlan, VariantHint};
use crate::derive::input;
use crate::derive::input::{Data, DeriveError, FieldConstructor, Fields, Variant};
use crate::derive::laws;
use crate::derive::laws::FieldReader;
use crate::derive::reading;
use crate::derive::reading::{Construct, FieldRead, ReadPlan, VariantRead};
use crate::derive::selector;
use crate::derive::writing;
use crate::derive::writing::WritePlan;
use crate::layout;
use crate::layout::Piece;
use crate::size_hint;
use crate::unstructured::Error;
use vstd::prelude::*;

verus! {

/// A field is read by its constructor.
pub proof fn law_constructor_decides_the_read(c: FieldConstructor, r: FieldRead)
    requires
        call_ensures(reading::gen_constructor_for_field, (c,), r),
    ensures
        match c {
            FieldConstructor::Default => r is Default,
            FieldConstructor::Arbitrary => r is Arbitrary,
            FieldConstructor::With => r is With,
            FieldConstructor::Value => r is Value,
        },
{
}

/// `arbitrary` reads each field by its constructor, and never takes all the rest.
pub proof fn law_construct_follows_the_fields(
    r: Result<Construct, DeriveError>,
    fields: Fields,
    variant: Option<usize>,
)
    requires
        call_ensures(reading::construct, (&fields, variant), r),
    ensures
        match r {
            Ok(c) => {
                &&& match fields {
                    Fields::Named(_) => c is Named,
                    Fields::Unnamed(_) => c is Unnamed,
                    Fields::Unit => c is Unit,
                }
                &&& c.reads().len() == fields.constructors().len()
                &&& forall|i: int|
                    0 <= i < fields.constructors().len() ==> match #[trigger] fields.constructors()[i] {
                        Some(FieldConstructor::Default) => c.reads()[i] is Default,
                        Some(FieldConstructor::Arbitrary) => c.reads()[i] is Arbitrary,
                        Some(FieldConstructor::With) => c.reads()[i] is With,
                        Some(FieldConstructor::Value) => c.reads()[i] is Value,
                        None => false,
                    }
            },
            Err(e) => {
                &&& e matches DeriveError::Field { variant: v, index }
                &&& v == variant
                &&& index < fields.constructors().len()
                &&& fields.constructors()[index as int] is None
                &&& forall|j: int|
                    0 <= j < index ==> (#[trigger] fields.constructors()[j]) is Some
            },
        },
{
}

/// `arbitrary_take_rest` reads each field by its constructor, and gives what is left to
/// the last one where that is read by its type.
pub proof fn law_construct_take_rest_follows_the_fields(
    r: Result<Construct, DeriveError>,
    fields: Fields,
    variant: Option<usize>,
)
    requires
        call_ensures(reading::construct_take_rest, (&fields, variant), r),
    ensures
        match r {
            Ok(c) => {
                &&& match fields {
                    Fields::Named(_) => c is Named,
                    Fields::Unnamed(_) => c is Unnamed,
                    Fields::Unit => c is Unit,
                }
                &&& c.reads().len() == fields.constructors().len()
                &&& forall|i: int|
                    0 <= i < fields.constructors().len() ==> match #[trigger] fields.constructors()[i] {
                        Some(FieldConstructor::Default) => c.reads()[i] is Default,
                        Some(FieldConstructor::Arbitrary) => if i + 1 == fields.constructors().len() {
                            c.reads()[i] is TakeRest
                        } else {
                            c.reads()[i] is Arbitrary
                        },
                        Some(FieldConstructor::With) => c.reads()[i] is With,
                        Some(FieldConstructor::Value) => c.reads()[i] is Value,
                        None => false,
                    }
            },
            Err(e) => {
                &&& e matches DeriveError::Field { variant: v, index }
                &&& v == variant
                &&& index < fields.constructors().len()
                &&& fields.constructors()[index as int] is None
                &&& forall|j: int|
                    0 <= j < index ==> (#[trigger] fields.constructors()[j]) is Some
            },
        },
{
}

/// The plan for reading a struct: `arbitrary` reads each field by its constructor and
/// never takes all the rest; `arbitrary_take_rest` does the same, but gives what is
/// left to a last field that is read by its type. It always counts recursion.
pub proof fn law_struct_is_read_field_by_field(fields: Fields, plan: ReadPlan, counted: bool)
    requires
        reading::read_result(Ok((plan, counted)), Data::Struct(fields)),
    ensures
        counted,
        plan matches ReadPlan::Structlike { arbitrary, take_rest } && {
            &&& match fields {
                Fields::Named(_) => arbitrary is Named && take_rest is Named,
                Fields::Unnamed(_) => arbitrary is Unnamed && take_rest is Unnamed,
                Fields::Unit => arbitrary is Unit && take_rest is Unit,
            }
            &&& arbitrary.reads().len() == fields.constructors().len()
            &&& forall|i: int|
                0 <= i < fields.constructors().len() ==> match #[trigger] fields.constructors()[i] {
                    Some(FieldConstructor::Default) => arbitrary.reads()[i] is Default,
                    Some(FieldConstructor::Arbitrary) => arbitrary.reads()[i] is Arbitrary,
                    Some(FieldConstructor::With) => arbitrary.reads()[i] is With,
                    Some(FieldConstructor::Value) => arbitrary.reads()[i] is Value,
                    None => false,
                }
            &&& take_rest.reads().len() == fields.constructors().len()
            &&& forall|i: int|
                0 <= i < fields.constructors().len() ==> match #[trigger] fields.constructors()[i] {
                    Some(FieldConstructor::Default) => take_rest.reads()[i] is Default,
                    Some(FieldConstructor::Arbitrary) => if i + 1 == fields.constructors().len() {
                        take_rest.reads()[i] is TakeRest
                    } else {
                        take_rest.reads()[i] is Arbitrary
                    },
                    Some(FieldConstructor::With) => take_rest.reads()[i] is With,
                    Some(FieldConstructor::Value) => take_rest.reads()[i] is Value,
                    None => false,
                }
        },
{
}

/// A struct is refused for reading exactly where a field has invalid attributes, and
/// the first such field is named.
pub proof fn law_struct_is_refused_for_its_first_invalid_field(fields: Fields, e: DeriveError)
    requires
        reading::read_result(Err(e), Data::Struct(fields)),
    ensures
        e matches DeriveError::Field { variant, index } && {
            &&& variant is None
            &&& index < fields.constructors().len()
            &&& fields.constructors()[index as int] is None
            &&& forall|j: int| 0 <= j < index ==> (#[trigger] fields.constructors()[j]) is Some
        },
{
}

/// The plan for writing a struct writes exactly the fields that are read by their type
/// or by a function of the user's, in the order of the fields.
pub proof fn law_struct_writes_what_takes_bytes(fields: Fields, plan: WritePlan)
    requires
        writing::write_result(Ok(plan), Data::Struct(fields)),
    ensures
        plan matches WritePlan::Structlike { writes, rest_last } && {
            &&& forall|i: int|
                0 <= i < fields.constructors().len() ==> ((exists|k: int|
                    0 <= k < writes@.len() && #[trigger] writes@[k] == i)
                    <==> #[trigger] fields.constructors()[i] == Some(FieldConstructor::Arbitrary) || fields.constructors()[i] == Some(
                    FieldConstructor::With,
                ))
            &&& forall|k: int|
                0 <= k < writes@.len() ==> #[trigger] writes@[k] < fields.constructors().len()
            &&& forall|j: int, k: int|
                0 <= j < k < writes@.len() ==> #[trigger] writes@[j] < #[trigger] writes@[k]
            &&& rest_last <==> fields.constructors().len() > 0 && fields.constructors().last()
                == Some(FieldConstructor::Arbitrary)
            &&& forall|i: int|
                0 <= i < fields.constructors().len() ==> (
                #[trigger] fields.constructors()[i]) is Some
        },
{
    if let WritePlan::Structlike { writes, rest_last } = plan {
        lemma_writes(fields.constructors(), writes@);
    }
}

/// A struct is refused for writing exactly where a field has invalid attributes, and
/// the first such field is named.
pub proof fn law_struct_is_not_written_with_invalid_fields(fields: Fields, e: DeriveError)
    requires
        writing::write_result(Err(e), Data::Struct(fields)),
    ensures
        e matches DeriveError::Field { variant, index } && {
            &&& variant is None
            &&& index < fields.constructors().len()
            &&& fields.constructors()[index as int] is None
            &&& forall|j: int| 0 <= j < index ==> (#[trigger] fields.constructors()[j]) is Some
        },
{
}

/// The size hint of a struct has one hint for each field: none where nothing is read,
/// that of the type where the field is read by its type, and a guess where a function
/// of the user's reads it.
pub proof fn law_struct_hints_each_field(fields: Fields, plan: HintPlan, counted: bool)
    requires
        hinting::hint_result(Ok(plan), Data::Struct(fields), counted),
    ensures
        plan matches HintPlan::Structlike(hints) && {
            &&& hints@.len() == fields.constructors().len()
            &&& forall|i: int|
                0 <= i < fields.constructors().len() ==> match #[trigger] fields.constructors()[i] {
                    Some(FieldConstructor::Default) => hints@[i] is Zero,
                    Some(FieldConstructor::Arbitrary) => hints@[i] is TypeHint,
                    Some(FieldConstructor::With) => hints@[i] is SizeOf,
                    Some(FieldConstructor::Value) => hints@[i] is Zero,
                    None => false,
                }
        },
{
}

/// The plans for a struct fit one another: a field is written exactly where either
/// reader takes it out of the data, and there alone the size hint counts it.
pub proof fn law_struct_plans_agree(
    fields: Fields,
    read: ReadPlan,
    hint: HintPlan,
    write: WritePlan,
    counted: bool,
    i: int,
)
    requires
        reading::read_result(Ok((read, counted)), Data::Struct(fields)),
        hinting::hint_result(Ok(hint), Data::Struct(fields), counted),
        writing::write_result(Ok(write), Data::Struct(fields)),
        0 <= i < fields.constructors().len(),
    ensures
        ({
            let a = read->arbitrary.reads();
            let t = read->take_rest.reads();
            let h = hint->Structlike_0@;
            let w = write->writes@;
            let written = exists|k: int| 0 <= k < w.len() && #[trigger] w[k] == i;
            &&& a.len() == t.len() == h.len()
            &&& written <==> a[i] is Arbitrary || a[i] is With
            &&& written <==> t[i] is Arbitrary || t[i] is TakeRest || t[i] is With
            &&& written <==> !(h[i] is Zero)
            &&& h[i] is TypeHint <==> a[i] is Arbitrary
            &&& h[i] is SizeOf <==> a[i] is With
            &&& t[i] is TakeRest ==> i + 1 == t.len() && write->rest_last
            &&& t[i] is TakeRest || t[i] == a[i]
            &&& write->rest_last && i + 1 == t.len() ==> t[i] is TakeRest
        }),
{
    law_struct_is_read_field_by_field(fields, read, counted);
    law_struct_writes_what_takes_bytes(fields, write);
    law_struct_hints_each_field(fields, hint, counted);
    assert(fields.constructors()[i] is Some);
}

/// The plan for reading a union: `arbitrary` reads each field by its constructor and
/// never takes all the rest; `arbitrary_take_rest` does the same, but gives what is
/// left to a last field that is read by its type. It always counts recursion.
pub proof fn law_union_is_read_field_by_field(
    fields: Vec<Option<FieldConstructor>>,
    plan: ReadPlan,
    counted: bool,
)
    requires
        reading::read_result(Ok((plan, counted)), Data::Union(fields)),
    ensures
        counted,
        plan matches ReadPlan::Structlike { arbitrary, take_rest } && {
            &&& arbitrary is Named && take_rest is Named
            &&& arbitrary.reads().len() == fields@.len()
            &&& forall|i: int|
                0 <= i < fields@.len() ==> match #[trigger] fields@[i] {
                    Some(FieldConstructor::Default) => arbitrary.reads()[i] is Default,
                    Some(FieldConstructor::Arbitrary) => arbitrary.reads()[i] is Arbitrary,
                    Some(FieldConstructor::With) => arbitrary.reads()[i] is With,
                    Some(FieldConstructor::Value) => arbitrary.reads()[i] is Value,
                    None => false,
                }
            &&& take_rest.reads().len() == fields@.len()
            &&& forall|i: int|
                0 <= i < fields@.len() ==> match #[trigger] fields@[i] {
                    Some(FieldConstructor::Default) => take_rest.reads()[i] is Default,
                    Some(FieldConstructor::Arbitrary) => if i + 1 == fields@.len() {
                        take_rest.reads()[i] is TakeRest
                    } else {
                        take_rest.reads()[i] is Arbitrary
                    },
                    Some(FieldConstructor::With) => take_rest.reads()[i] is With,
                    Some(FieldConstructor::Value) => take_rest.reads()[i] is Value,
                    None => false,
                }
        },
{
}

/// A union is refused for reading exactly where a field has invalid attributes, and
/// the first such field is named.
pub proof fn law_union_is_refused_for_its_first_invalid_field(
    fields: Vec<Option<FieldConstructor>>,
    e: DeriveError,
)
    requires
        reading::read_result(Err(e), Data::Union(fields)),
    ensures
        e matches DeriveError::Field { variant, index } && {
            &&& variant is None
            &&& index < fields@.len()
            &&& fields@[index as int] is None
            &&& forall|j: int| 0 <= j < index ==> (#[trigger] fields@[j]) is Some
        },
{
}

/// The plan for writing a union writes exactly the fields that are read by their type
/// or by a function of the user's, in the order of the fields.
pub proof fn law_union_writes_what_takes_bytes(
    fields: Vec<Option<FieldConstructor>>,
    plan: WritePlan,
)
    requires
        writing::write_result(Ok(plan), Data::Union(fields)),
    ensures
        plan matches WritePlan::Structlike { writes, rest_last } && {
            &&& forall|i: int|
                0 <= i < fields@.len() ==> ((exists|k: int|
                    0 <= k < writes@.len() && #[trigger] writes@[k] == i) <==> #[trigger] fields@[i]
                    == Some(FieldConstructor::Arbitrary) || fields@[i] == Some(
                    FieldConstructor::With,
                ))
            &&& forall|k: int| 0 <= k < writes@.len() ==> #[trigger] writes@[k] < fields@.len()
            &&& forall|j: int, k: int|
                0 <= j < k < writes@.len() ==> #[trigger] writes@[j] < #[trigger] writes@[k]
            &&& rest_last <==> fields@.len() > 0 && fields@.last() == Some(
                FieldConstructor::Arbitrary,
            )
            &&& forall|i: int| 0 <= i < fields@.len() ==> (#[trigger] fields@[i]) is Some
        },
{
    if let WritePlan::Structlike { writes, rest_last } = plan {
        lemma_writes(fields@, writes@);
    }
}

/// A union is refused for writing exactly where a field has invalid attributes, and
/// the first such field is named.
pub proof fn law_union_is_not_written_with_invalid_fields(
    fields: Vec<Option<FieldConstructor>>,
    e: DeriveError,
)
    requires
        writing::write_result(Err(e), Data::Union(fields)),
    ensures
        e matches DeriveError::Field { variant, index } && {
            &&& variant is None
            &&& index < fields@.len()
            &&& fields@[index as int] is None
            &&& forall|j: int| 0 <= j < index ==> (#[trigger] fields@[j]) is Some
        },
{
}

/// The size hint of a union has one hint for each field: none where nothing is read,
/// that of the type where the field is read by its type, and a guess where a function
/// of the user's reads it.
pub proof fn law_union_hints_each_field(
    fields: Vec<Option<FieldConstructor>>,
    plan: HintPlan,
    counted: bool,
)
    requires
        hinting::hint_result(Ok(plan), Data::Union(fields), counted),
    ensures
        plan matches HintPlan::Structlike(hints) && {
            &&& hints@.len() == fields@.len()
            &&& forall|i: int|
                0 <= i < fields@.len() ==> match #[trigger] fields@[i] {
                    Some(FieldConstructor::Default) => hints@[i] is Zero,
                    Some(FieldConstructor::Arbitrary) => hints@[i] is TypeHint,
                    Some(FieldConstructor::With) => hints@[i] is SizeOf,
                    Some(FieldConstructor::Value) => hints@[i] is Zero,
                    None => false,
                }
        },
{
}

/// The plans for a union fit one another: a field is written exactly where either
/// reader takes it out of the data, and there alone the size hint counts it.
pub proof fn law_union_plans_agree(
    fields: Vec<Option<FieldConstructor>>,
    read: ReadPlan,
    hint: HintPlan,
    write: WritePlan,
    counted: bool,
    i: int,
)
    requires
        reading::read_result(Ok((read, counted)), Data::Union(fields)),
        hinting::hint_result(Ok(hint), Data::Union(fields), counted),
        writing::write_result(Ok(write), Data::Union(fields)),
        0 <= i < fields@.len(),
    ensures
        ({
            let a = read->arbitrary.reads();
            let t = read->take_rest.reads();
            let h = hint->Structlike_0@;
            let w = write->writes@;
            let written = exists|k: int| 0 <= k < w.len() && #[trigger] w[k] == i;
            &&& a.len() == t.len() == h.len()
            &&& written <==> a[i] is Arbitrary || a[i] is With
            &&& written <==> t[i] is Arbitrary || t[i] is TakeRest || t[i] is With
            &&& written <==> !(h[i] is Zero)
            &&& h[i] is TypeHint <==> a[i] is Arbitrary
            &&& h[i] is SizeOf <==> a[i] is With
            &&& t[i] is TakeRest ==> i + 1 == t.len() && write->rest_last
            &&& t[i] is TakeRest || t[i] == a[i]
            &&& write->rest_last && i + 1 == t.len() ==> t[i] is TakeRest
        }),
{
    law_union_is_read_field_by_field(fields, read, counted);
    law_union_writes_what_takes_bytes(fields, write);
    law_union_hints_each_field(fields, hint, counted);
    assert(fields@[i] is Some);
}

/// Written positions are those of the fields that take bytes, in order.
pub proof fn lemma_writes(cs: Seq<Option<FieldConstructor>>, writes: Seq<usize>)
    requires
        writing::positions(writes) == writing::written(cs),
        input::all_valid(cs),
    ensures
        forall|i: int|
            0 <= i < cs.len() ==> ((exists|k: int|
                0 <= k < writes.len() && #[trigger] writes[k] == i) <==> #[trigger] cs[i] == Some(
                FieldConstructor::Arbitrary,
            ) || cs[i] == Some(FieldConstructor::With)),
        forall|k: int| 0 <= k < writes.len() ==> #[trigger] writes[k] < cs.len(),
        forall|j: int, k: int|
            0 <= j < k < writes.len() ==> #[trigger] writes[j] < #[trigger] writes[k],
{
    let w = writing::written(cs);
    laws::law_written_fields_are_read(cs, false);
    assert forall|k: int| 0 <= k < writes.len() implies #[trigger] writes[k] < cs.len() by {
        assert(writing::positions(writes)[k] == writes[k]);
        assert(w.contains(w[k]));
    }
    assert forall|i: int| 0 <= i < cs.len() implies ((exists|k: int|
        0 <= k < writes.len() && #[trigger] writes[k] == i) <==> #[trigger] cs[i] == Some(
        FieldConstructor::Arbitrary,
    ) || cs[i] == Some(FieldConstructor::With)) by {
        assert(cs[i] is Some);
        assert(w.contains(i as nat) <==> (i as nat) < cs.len() && laws::consumes(
            reading::field_reads(cs, false)[i as nat as int],
        ));
        if exists|k: int| 0 <= k < writes.len() && #[trigger] writes[k] == i {
            let k = choose|k: int| 0 <= k < writes.len() && #[trigger] writes[k] == i;
            assert(writing::positions(writes)[k] == i as nat);
            assert(w[k] == i as nat);
        }
        if w.contains(i as nat) {
            let k = choose|k: int| 0 <= k < w.len() && w[k] == i as nat;
            assert(writing::positions(writes)[k] == writes[k] as nat);
            assert(writes[k] == i);
        }
    }
    assert forall|j: int, k: int| 0 <= j < k < writes.len() implies #[trigger] writes[j]
        < #[trigger] writes[k] by {
        assert(writing::positions(writes)[j] == writes[j]);
        assert(writing::positions(writes)[k] == writes[k]);
        assert(w[j] < w[k]);
    }
}

/// The plan for reading an enum: the variants that are not skipped, in order and with
/// their places for indices, each field by field as a struct is read. It counts
/// recursion where one of them has a field list.
pub proof fn law_enum_is_read_variant_by_variant(
    variants: Vec<Variant>,
    plan: ReadPlan,
    counted: bool,
)
    requires
        reading::read_result(Ok((plan, counted)), Data::Enum(variants)),
    ensures
        plan matches ReadPlan::Enum { count, arms, rest_arms } && {
            &&& count > 0
            &&& count == arms@.len()
            &&& count == rest_arms@.len()
            &&& forall|k: int|
                0 <= k < arms@.len() ==> (#[trigger] arms@[k]).index == k && rest_arms@[k].index
                    == k && rest_arms@[k].variant == arms@[k].variant
            &&& forall|k: int|
                0 <= k < arms@.len() ==> (#[trigger] arms@[k]).variant < variants@.len()
                    && !variants@[arms@[k].variant as int].skipped
            &&& forall|j: int, k: int|
                0 <= j < k < arms@.len() ==> (#[trigger] arms@[j]).variant < (
                #[trigger] arms@[k]).variant
            &&& forall|v: int|
                0 <= v < variants@.len() && !(#[trigger] variants@[v]).skipped ==> exists|k: int|
                    0 <= k < arms@.len() && (#[trigger] arms@[k]).variant == v
            &&& forall|k: int|
                0 <= k < arms@.len() ==> {
                    let fields = variants@[(#[trigger] arms@[k]).variant as int].fields;
                    let cs = fields.constructors();
                    let r = arms@[k].construct.reads();
                    &&& match fields {
                        Fields::Named(_) => arms@[k].construct is Named,
                        Fields::Unnamed(_) => arms@[k].construct is Unnamed,
                        Fields::Unit => arms@[k].construct is Unit,
                    }
                    &&& r.len() == cs.len()
                    &&& forall|i: int|
                        0 <= i < cs.len() ==> match #[trigger] cs[i] {
                            Some(FieldConstructor::Default) => r[i] is Default,
                            Some(FieldConstructor::Arbitrary) => r[i] is Arbitrary,
                            Some(FieldConstructor::With) => r[i] is With,
                            Some(FieldConstructor::Value) => r[i] is Value,
                            None => false,
                        }
                }
            &&& forall|k: int|
                0 <= k < rest_arms@.len() ==> {
                    let fields = variants@[(#[trigger] rest_arms@[k]).variant as int].fields;
                    let cs = fields.constructors();
                    let r = rest_arms@[k].construct.reads();
                    &&& match fields {
                        Fields::Named(_) => rest_arms@[k].construct is Named,
                        Fields::Unnamed(_) => rest_arms@[k].construct is Unnamed,
                        Fields::Unit => rest_arms@[k].construct is Unit,
                    }
                    &&& r.len() == cs.len()
                    &&& forall|i: int|
                        0 <= i < cs.len() ==> match #[trigger] cs[i] {
                            Some(FieldConstructor::Default) => r[i] is Default,
                            Some(FieldConstructor::Arbitrary) => if i + 1 == cs.len() {
                            r[i] is TakeRest
                        } else {
                            r[i] is Arbitrary
                        },
                            Some(FieldConstructor::With) => r[i] is With,
                            Some(FieldConstructor::Value) => r[i] is Value,
                            None => false,
                        }
                }
            &&& forall|v: int, a: int|
                0 <= v < variants@.len() && !(#[trigger] variants@[v]).skipped && 0 <= a
                    < variants@[v].attributes@.len() ==> !(
                #[trigger] variants@[v].attributes@[a] matches Some(name) && name@
                    == "arbitrary"@)
        },
        counted <==> exists|v: int|
            0 <= v < variants@.len() && !(#[trigger] variants@[v]).skipped && !(
            variants@[v].fields is Unit),
{
    lemma_kept_places(variants@);
    if let ReadPlan::Enum { count, arms, rest_arms } = plan {
        let ks = input::kept(variants@);
        assert forall|k: int| 0 <= k < arms@.len() implies rest_arms@[k].variant == (
        #[trigger] arms@[k]).variant && rest_arms@[k].index == k by {
            assert(rest_arms@[k].index == k);
        }
        assert forall|v: int|
            0 <= v < variants@.len() && !(#[trigger] variants@[v]).skipped implies exists|k: int|
            0 <= k < arms@.len() && (#[trigger] arms@[k]).variant == v by {
            let k = choose|k: int| 0 <= k < ks.len() && #[trigger] ks[k] == v;
            assert(arms@[k].variant == v);
        }
        assert forall|v: int, a: int|
            0 <= v < variants@.len() && !(#[trigger] variants@[v]).skipped && 0 <= a
                < variants@[v].attributes@.len() implies !(
        #[trigger] variants@[v].attributes@[a] matches Some(name) && name@ == "arbitrary"@) by {
            assert(reading::unnamed(variants@[v].attributes@));
            assert(!reading::is_named(variants@[v].attributes@[a]));
        }
        assert forall|k: int| 0 <= k < arms@.len() implies input::all_valid(
            variants@[(#[trigger] arms@[k]).variant as int].fields.constructors(),
        ) by {
            assert(!variants@[ks[k] as int].skipped);
        }
        assert forall|k: int| 0 <= k < rest_arms@.len() implies input::all_valid(
            variants@[(#[trigger] rest_arms@[k]).variant as int].fields.constructors(),
        ) by {
            assert(!variants@[ks[k] as int].skipped);
        }
    }
}

/// The kept variants are all those that are not skipped, in order.
pub proof fn lemma_kept_places(variants: Seq<Variant>)
    ensures
        forall|k: int|
            0 <= k < input::kept(variants).len() ==> (#[trigger] input::kept(variants)[k])
                < variants.len() && !variants[input::kept(variants)[k] as int].skipped,
        forall|j: int, k: int|
            0 <= j < k < input::kept(variants).len() ==> (#[trigger] input::kept(variants)[j]) < (
            #[trigger] input::kept(variants)[k]),
        forall|v: int|
            0 <= v < variants.len() && !(#[trigger] variants[v]).skipped ==> exists|k: int|
                0 <= k < input::kept(variants).len() && #[trigger] input::kept(variants)[k] == v,
    decreases variants.len(),
{
    input::lemma_kept(variants);
    let ks = input::kept(variants);
    if variants.len() > 0 {
        let b = variants.drop_last();
        lemma_kept_places(b);
        assert forall|j: int, k: int| 0 <= j < k < ks.len() implies (#[trigger] ks[j]) < (
        #[trigger] ks[k]) by {
            assert(ks[j] == input::kept(b)[j]);
            if k < input::kept(b).len() {
                assert(ks[k] == input::kept(b)[k]);
            }
        }
    }
    assert forall|v: int| 0 <= v < variants.len() && !(#[trigger] variants[v]).skipped implies exists|
        k: int,
    | 0 <= k < ks.len() && #[trigger] ks[k] == v by {
        assert(ks.contains(v as nat));
    }
}

/// Why an enum is refused for reading: a variant that carries the attribute comes
/// before a field with invalid attributes, and each is the first of its kind; an enum
/// is empty only where every variant is skipped.
pub proof fn law_enum_is_refused_for_a_reason(variants: Vec<Variant>, e: DeriveError)
    requires
        reading::read_result(Err(e), Data::Enum(variants)),
    ensures
        match e {
            DeriveError::VariantAttribute { position, attribute } => {
                let names = variants@[position as int].attributes@;
                &&& position < variants@.len()
                &&& !variants@[position as int].skipped
                &&& attribute < names.len()
                &&& names[attribute as int] matches Some(name) && name@ == "arbitrary"@
                &&& forall|a: int|
                    0 <= a < attribute ==> !(#[trigger] names[a] matches Some(name) && name@
                        == "arbitrary"@)
                &&& forall|v: int, a: int|
                    0 <= v < position && !(#[trigger] variants@[v]).skipped && 0 <= a
                        < variants@[v].attributes@.len() ==> !(
                    #[trigger] variants@[v].attributes@[a] matches Some(name) && name@
                        == "arbitrary"@)
            },
            DeriveError::Field { variant, index } => variant matches Some(p) && {
                let cs = variants@[p as int].fields.constructors();
                &&& p < variants@.len()
                &&& !variants@[p as int].skipped
                &&& index < cs.len()
                &&& cs[index as int] is None
                &&& forall|j: int| 0 <= j < index ==> (#[trigger] cs[j]) is Some
                &&& forall|v: int, j: int|
                    0 <= v < p && !(#[trigger] variants@[v]).skipped && 0 <= j
                        < variants@[v].fields.constructors().len() ==> (
                    #[trigger] variants@[v].fields.constructors()[j]) is Some
                &&& forall|v: int, a: int|
                    0 <= v < variants@.len() && !(#[trigger] variants@[v]).skipped && 0 <= a
                        < variants@[v].attributes@.len() ==> !(
                    #[trigger] variants@[v].attributes@[a] matches Some(name) && name@
                        == "arbitrary"@)
            },
            DeriveError::NoVariants => forall|v: int|
                0 <= v < variants@.len() ==> (#[trigger] variants@[v]).skipped,
            DeriveError::TooManyBounds { .. } => false,
        },
{
    match e {
        DeriveError::VariantAttribute { position, attribute } => {
            let names = variants@[position as int].attributes@;
            assert(reading::is_named(names[attribute as int]));
            assert forall|a: int| 0 <= a < attribute implies !(#[trigger] names[a] matches Some(
                name,
            ) && name@ == "arbitrary"@) by {
                assert(!reading::is_named(names[a]));
            }
            assert forall|v: int, a: int|
                0 <= v < position && !(#[trigger] variants@[v]).skipped && 0 <= a
                    < variants@[v].attributes@.len() implies !(
            #[trigger] variants@[v].attributes@[a] matches Some(name) && name@ == "arbitrary"@) by {
                assert(variants@.take(position as int)[v] == variants@[v]);
                assert(!reading::is_named(variants@[v].attributes@[a]));
            }
        },
        DeriveError::Field { variant, index } => {
            if let Some(p) = variant {
                assert forall|v: int, j: int|
                    0 <= v < p && !(#[trigger] variants@[v]).skipped && 0 <= j
                        < variants@[v].fields.constructors().len() implies (
                #[trigger] variants@[v].fields.constructors()[j]) is Some by {
                    assert(variants@.take(p as int)[v] == variants@[v]);
                    assert(input::all_valid(variants@[v].fields.constructors()));
                }
                assert forall|v: int, a: int|
                    0 <= v < variants@.len() && !(#[trigger] variants@[v]).skipped && 0 <= a
                        < variants@[v].attributes@.len() implies !(
                #[trigger] variants@[v].attributes@[a] matches Some(name) && name@
                    == "arbitrary"@) by {
                    assert(!reading::is_named(variants@[v].attributes@[a]));
                }
            }
        },
        DeriveError::NoVariants => {
            lemma_kept_places(variants@);
        },
        _ => {},
    }
}

/// The plan for writing an enum: the variants that are not skipped, in order, each as
/// the midpoint of the selectors whose multiply and shift gives its place, and then
/// exactly the fields that are read by their type or by a function of the user's, in
/// the order of the fields.
pub proof fn law_enum_writes_what_takes_bytes(variants: Vec<Variant>, plan: WritePlan)
    requires
        writing::writable(variants@),
        writing::write_result(Ok(plan), Data::Enum(variants)),
    ensures
        plan matches WritePlan::Enum(arms) && {
            &&& arms@.len() > 0
            &&& forall|k: int|
                0 <= k < arms@.len() ==> (#[trigger] arms@[k]).variant < variants@.len()
                    && !variants@[arms@[k].variant as int].skipped
            &&& forall|j: int, k: int|
                0 <= j < k < arms@.len() ==> (#[trigger] arms@[j]).variant < (
                #[trigger] arms@[k]).variant
            &&& forall|v: int|
                0 <= v < variants@.len() && !(#[trigger] variants@[v]).skipped ==> exists|k: int|
                    0 <= k < arms@.len() && (#[trigger] arms@[k]).variant == v
            &&& forall|k: int|
                0 <= k < arms@.len() ==> {
                    let n = arms@.len();
                    let s = (#[trigger] arms@[k]).selector;
                    &&& (s * n) / 0x1_0000_0000 == k
                    &&& n == 1 ==> s == 0
                    &&& n > 1 ==> s * (2 * n) <= (2 * k + 1) * 0x1_0000_0000 < (s + 1) * (2 * n)
                }
            &&& forall|k: int|
                0 <= k < arms@.len() ==> {
                    let cs = variants@[(
                    #[trigger] arms@[k]).variant as int].fields.constructors();
                    let w = arms@[k].writes@;
                    &&& forall|i: int|
                        0 <= i < cs.len() ==> ((exists|j: int|
                            0 <= j < w.len() && #[trigger] w[j] == i) <==> #[trigger] cs[i]
                            == Some(FieldConstructor::Arbitrary) || cs[i] == Some(
                            FieldConstructor::With,
                        ))
                    &&& forall|j: int| 0 <= j < w.len() ==> #[trigger] w[j] < cs.len()
                    &&& forall|i: int, j: int|
                        0 <= i < j < w.len() ==> #[trigger] w[i] < #[trigger] w[j]
                    &&& arms@[k].rest_last <==> cs.len() > 0 && cs.last() == Some(
                        FieldConstructor::Arbitrary,
                    )
                }
        },
{
    lemma_kept_places(variants@);
    if let WritePlan::Enum(arms) = plan {
        let ks = input::kept(variants@);
        let n = arms@.len() as int;
        assert forall|v: int|
            0 <= v < variants@.len() && !(#[trigger] variants@[v]).skipped implies exists|k: int|
            0 <= k < arms@.len() && (#[trigger] arms@[k]).variant == v by {
            let k = choose|k: int| 0 <= k < ks.len() && #[trigger] ks[k] == v;
            assert(arms@[k].variant == v);
        }
        assert forall|k: int| 0 <= k < arms@.len() implies ({
            let s = (#[trigger] arms@[k]).selector;
            &&& (s * arms@.len()) / 0x1_0000_0000 == k
            &&& arms@.len() == 1 ==> s == 0
            &&& arms@.len() > 1 ==> s * (2 * arms@.len()) <= (2 * k + 1) * 0x1_0000_0000 < (s + 1)
                * (2 * arms@.len())
        }) by {
            selector::law_selector_chooses_its_variant(k, n);
            selector::law_selector_is_the_midpoint(k, n);
        }
        assert forall|k: int| 0 <= k < arms@.len() implies ({
            let cs = variants@[(#[trigger] arms@[k]).variant as int].fields.constructors();
            let w = arms@[k].writes@;
            &&& forall|i: int|
                0 <= i < cs.len() ==> ((exists|j: int| 0 <= j < w.len() && #[trigger] w[j] == i)
                    <==> #[trigger] cs[i] == Some(FieldConstructor::Arbitrary) || cs[i] == Some(
                    FieldConstructor::With,
                ))
            &&& forall|j: int| 0 <= j < w.len() ==> #[trigger] w[j] < cs.len()
            &&& forall|i: int, j: int| 0 <= i < j < w.len() ==> #[trigger] w[i] < #[trigger] w[j]
        }) by {
            assert(!variants@[ks[k] as int].skipped);
            lemma_writes(variants@[ks[k] as int].fields.constructors(), arms@[k].writes@);
        }
    }
}

/// An enum is refused for writing only where every variant is skipped.
pub proof fn law_enum_is_not_written_without_variants(variants: Vec<Variant>, e: DeriveError)
    requires
        writing::write_result(Err(e), Data::Enum(variants)),
    ensures
        e is NoVariants,
        forall|v: int| 0 <= v < variants@.len() ==> (#[trigger] variants@[v]).skipped,
{
    lemma_kept_places(variants@);
}

/// The size hint of an enum has the hints of each variant that is not skipped, one for
/// each field, as for a struct. Without a recursion count it is that of the selector
/// alone.
pub proof fn law_enum_hints_each_field(variants: Vec<Variant>, plan: HintPlan, counted: bool)
    requires
        hinting::hint_result(Ok(plan), Data::Enum(variants), counted),
    ensures
        match plan {
            HintPlan::Structlike(_) => false,
            HintPlan::SelectorOnly => !counted,
            HintPlan::Enum(arms) => {
                &&& counted
                &&& forall|k: int|
                    0 <= k < arms@.len() ==> (#[trigger] arms@[k]).variant < variants@.len()
                        && !variants@[arms@[k].variant as int].skipped
                &&& forall|j: int, k: int|
                    0 <= j < k < arms@.len() ==> (#[trigger] arms@[j]).variant < (
                    #[trigger] arms@[k]).variant
                &&& forall|v: int|
                    0 <= v < variants@.len() && !(#[trigger] variants@[v]).skipped ==> exists|k: int|
                        0 <= k < arms@.len() && (#[trigger] arms@[k]).variant == v
                &&& forall|k: int|
                    0 <= k < arms@.len() ==> {
                        let cs = variants@[(
                        #[trigger] arms@[k]).variant as int].fields.constructors();
                        let h = arms@[k].hints@;
                        &&& h.len() == cs.len()
                        &&& forall|i: int|
                            0 <= i < cs.len() ==> match #[trigger] cs[i] {
                                Some(FieldConstructor::Default) => h[i] is Zero,
                                Some(FieldConstructor::Arbitrary) => h[i] is TypeHint,
                                Some(FieldConstructor::With) => h[i] is SizeOf,
                                Some(FieldConstructor::Value) => h[i] is Zero,
                                None => false,
                            }
                    }
            },
        },
{
    lemma_kept_places(variants@);
    if let HintPlan::Enum(arms) = plan {
        let ks = input::kept(variants@);
        assert forall|v: int|
            0 <= v < variants@.len() && !(#[trigger] variants@[v]).skipped implies exists|k: int|
            0 <= k < arms@.len() && (#[trigger] arms@[k]).variant == v by {
            let k = choose|k: int| 0 <= k < ks.len() && #[trigger] ks[k] == v;
            assert(arms@[k].variant == v);
        }
        assert forall|k: int| 0 <= k < arms@.len() implies input::all_valid(
            variants@[(#[trigger] arms@[k]).variant as int].fields.constructors(),
        ) by {
            assert(!variants@[ks[k] as int].skipped);
        }
    }
}

/// The plans for an enum fit one another, arm by arm: the arm that writes a variant
/// writes exactly the fields that either arm which reads it takes out of the data, and
/// there alone its size hint counts them.
pub proof fn law_enum_plans_agree(
    variants: Vec<Variant>,
    read: ReadPlan,
    hint: HintPlan,
    write: WritePlan,
    counted: bool,
    k: int,
    i: int,
)
    requires
        writing::writable(variants@),
        reading::read_result(Ok((read, counted)), Data::Enum(variants)),
        hinting::hint_result(Ok(hint), Data::Enum(variants), counted),
        writing::write_result(Ok(write), Data::Enum(variants)),
        0 <= k < read->arms@.len(),
        0 <= i < read->arms@[k].construct.reads().len(),
    ensures
        ({
            let a = read->arms@[k].construct.reads();
            let t = read->rest_arms@[k].construct.reads();
            let arm = write->Enum_0@[k];
            let w = arm.writes@;
            let written = exists|j: int| 0 <= j < w.len() && #[trigger] w[j] == i;
            &&& read->arms@.len() == read->rest_arms@.len() == write->Enum_0@.len()
            &&& arm.variant == read->arms@[k].variant == read->rest_arms@[k].variant
            &&& (arm.selector * read->count) / 0x1_0000_0000 == read->arms@[k].index
            &&& a.len() == t.len()
            &&& written <==> a[i] is Arbitrary || a[i] is With
            &&& written <==> t[i] is Arbitrary || t[i] is TakeRest || t[i] is With
            &&& t[i] is TakeRest ==> i + 1 == t.len() && arm.rest_last
            &&& t[i] is TakeRest || t[i] == a[i]
            &&& arm.rest_last && i + 1 == t.len() ==> t[i] is TakeRest
            &&& counted && {
                let h = hint->Enum_0@[k];
                &&& hint->Enum_0@.len() == write->Enum_0@.len()
                &&& h.variant == arm.variant
                &&& h.hints@.len() == a.len()
                &&& written <==> !(h.hints@[i] is Zero)
                &&& h.hints@[i] is TypeHint <==> a[i] is Arbitrary
                &&& h.hints@[i] is SizeOf <==> a[i] is With
            }
        }),
{
    law_enum_is_read_variant_by_variant(variants, read, counted);
    law_enum_writes_what_takes_bytes(variants, write);
    law_enum_hints_each_field(variants, hint, counted);
    lemma_kept_places(variants@);
    let ks = input::kept(variants@);
    let arm = write->Enum_0@[k];
    let v = ks[k] as int;
    let cs = variants@[v].fields.constructors();
    assert(read->arms@[k].variant == v);
    assert(read->rest_arms@[k].variant == v);
    assert(arm.variant == v);
    assert((arm.selector * write->Enum_0@.len()) / 0x1_0000_0000 == k);
    assert(!variants@[v].skipped && !(variants@[v].fields is Unit));
    assert(counted);
    assert(hint->Enum_0@[k].variant == v);
    assert(cs[i] is Some);
}

/// The pieces that a plan writes for a list of fields where all the data is for them:
/// the last field as `last_pieces` where the plan says so.
pub open spec fn rest_written(
    writes: Seq<usize>,
    rest_last: bool,
    pieces: Seq<Seq<Piece>>,
    last_pieces: Seq<Piece>,
) -> Seq<Piece> {
    if rest_last {
        laws::written_pieces(writing::positions(writes).drop_last(), pieces) + last_pieces
    } else {
        laws::written_pieces(writing::positions(writes), pieces)
    }
}

/// Whether `values` are kept by a plan that writes the fields at `writes`: a field
/// that is written reads back from its pieces, any other has its fixed value.
pub open spec fn values_kept<M>(
    writes: Seq<usize>,
    readers: Seq<FieldReader<M>>,
    fixed: Seq<M>,
    pieces: Seq<Seq<Piece>>,
    values: Seq<M>,
) -> bool {
    forall|i: int|
        0 <= i < values.len() ==> if exists|k: int|
            0 <= k < writes.len() && #[trigger] writes[k] == i {
            laws::field_reads_back(readers[i], pieces[i], #[trigger] values[i])
        } else {
            fixed[i] == values[i]
        }
}

/// The same where all the data is for the fields: a last field that is written for
/// such a reader reads back from `last_pieces` and `last_tail`.
pub open spec fn values_kept_rest<M>(
    writes: Seq<usize>,
    rest_last: bool,
    readers: Seq<FieldReader<M>>,
    fixed: Seq<M>,
    pieces: Seq<Seq<Piece>>,
    last_pieces: Seq<Piece>,
    last_tail: Option<Seq<u8>>,
    values: Seq<M>,
) -> bool {
    forall|i: int|
        0 <= i < values.len() ==> if !(exists|k: int|
            0 <= k < writes.len() && #[trigger] writes[k] == i) {
            fixed[i] == #[trigger] values[i]
        } else if rest_last && i + 1 == values.len() {
            laws::rest_reads_back(readers[i], last_pieces, last_tail, values[i])
        } else {
            laws::field_reads_back(readers[i], pieces[i], values[i])
        }
}

proof fn lemma_kept_by_constructors<M>(
    cs: Seq<Option<FieldConstructor>>,
    writes: Seq<usize>,
    readers: Seq<FieldReader<M>>,
    fixed: Seq<M>,
    pieces: Seq<Seq<Piece>>,
    values: Seq<M>,
)
    requires
        input::all_valid(cs),
        writing::positions(writes) == writing::written(cs),
        values.len() == cs.len(),
        values_kept(writes, readers, fixed, pieces, values),
    ensures
        laws::fields_read_back(cs, readers, fixed, pieces, values),
{
    lemma_writes(cs, writes);
    assert forall|i: int| 0 <= i < cs.len() implies if writing::takes_bytes(
        #[trigger] cs[i]->0,
    ) {
        laws::field_reads_back(readers[i], pieces[i], values[i])
    } else {
        fixed[i] == values[i]
    } by {
        assert(cs[i] is Some);
        assert(values[i] == values[i]);
    }
}

proof fn lemma_kept_by_constructors_rest<M>(
    cs: Seq<Option<FieldConstructor>>,
    writes: Seq<usize>,
    readers: Seq<FieldReader<M>>,
    fixed: Seq<M>,
    pieces: Seq<Seq<Piece>>,
    last_pieces: Seq<Piece>,
    last_tail: Option<Seq<u8>>,
    values: Seq<M>,
)
    requires
        input::all_valid(cs),
        writing::positions(writes) == writing::written(cs),
        values.len() == cs.len(),
        values_kept_rest(
            writes,
            writing::gives_rest(cs),
            readers,
            fixed,
            pieces,
            last_pieces,
            last_tail,
            values,
        ),
    ensures
        laws::fields_read_back_rest(
            cs,
            readers,
            fixed,
            pieces,
            last_pieces,
            last_tail,
            values,
        ),
        laws::rest_pieces(cs, pieces, last_pieces) == rest_written(
            writes,
            writing::gives_rest(cs),
            pieces,
            last_pieces,
        ),
{
    lemma_writes(cs, writes);
    assert forall|i: int| 0 <= i < cs.len() implies if !writing::takes_bytes(
        #[trigger] cs[i]->0,
    ) {
        fixed[i] == values[i]
    } else if writing::gives_rest(cs) && i + 1 == cs.len() {
        laws::rest_reads_back(readers[i], last_pieces, last_tail, values[i])
    } else {
        laws::field_reads_back(readers[i], pieces[i], values[i])
    } by {
        assert(cs[i] is Some);
        assert(values[i] == values[i]);
    }
    if writing::gives_rest(cs) {
        assert(writing::written(cs).drop_last() =~= writing::written(cs.drop_last()));
    }
}

/// What the plan for writing a struct writes, the plan for reading it reads back by
/// `arbitrary`: the same fields, with exactly the data behind them left.
pub proof fn law_struct_plans_read_back<M>(
    fields: Fields,
    read: ReadPlan,
    write: WritePlan,
    counted: bool,
    readers: Seq<FieldReader<M>>,
    fixed: Seq<M>,
    pieces: Seq<Seq<Piece>>,
    values: Seq<M>,
    data: Seq<u8>,
)
    requires
        reading::read_result(Ok((read, counted)), Data::Struct(fields)),
        writing::write_result(Ok(write), Data::Struct(fields)),
        values.len() == fields.constructors().len(),
        values_kept(write->writes@, readers, fixed, pieces, values),
        layout::take_pieces(
            laws::written_pieces(writing::positions(write->writes@), pieces),
            data,
        ) is Some,
    ensures
        laws::read_fields(read->arbitrary.reads(), readers, fixed, values.len(), data) == (
            Ok::<Seq<M>, Error>(values),
            layout::take_pieces(
                laws::written_pieces(writing::positions(write->writes@), pieces),
                data,
            )->0,
        ),
{
    let cs = fields.constructors();
    lemma_kept_by_constructors(cs, write->writes@, readers, fixed, pieces, values);
    laws::law_derived_fields_read_back(cs, readers, fixed, pieces, values, data);
}

/// What the plan for writing a union writes, the plan for reading it reads back by
/// `arbitrary`: the same fields, with exactly the data behind them left.
pub proof fn law_union_plans_read_back<M>(
    fields: Vec<Option<FieldConstructor>>,
    read: ReadPlan,
    write: WritePlan,
    counted: bool,
    readers: Seq<FieldReader<M>>,
    fixed: Seq<M>,
    pieces: Seq<Seq<Piece>>,
    values: Seq<M>,
    data: Seq<u8>,
)
    requires
        reading::read_result(Ok((read, counted)), Data::Union(fields)),
        writing::write_result(Ok(write), Data::Union(fields)),
        values.len() == fields@.len(),
        values_kept(write->writes@, readers, fixed, pieces, values),
        layout::take_pieces(
            laws::written_pieces(writing::positions(write->writes@), pieces),
            data,
        ) is Some,
    ensures
        laws::read_fields(read->arbitrary.reads(), readers, fixed, values.len(), data) == (
            Ok::<Seq<M>, Error>(values),
            layout::take_pieces(
                laws::written_pieces(writing::positions(write->writes@), pieces),
                data,
            )->0,
        ),
{
    let cs = fields@;
    lemma_kept_by_constructors(cs, write->writes@, readers, fixed, pieces, values);
    laws::law_derived_fields_read_back(cs, readers, fixed, pieces, values, data);
}

/// What the plan for writing a struct writes where all the data is for it, the plan
/// for reading it reads back by `arbitrary_take_rest`.
pub proof fn law_struct_plans_read_back_rest<M>(
    fields: Fields,
    read: ReadPlan,
    write: WritePlan,
    counted: bool,
    readers: Seq<FieldReader<M>>,
    fixed: Seq<M>,
    pieces: Seq<Seq<Piece>>,
    last_pieces: Seq<Piece>,
    last_tail: Option<Seq<u8>>,
    values: Seq<M>,
)
    requires
        reading::read_result(Ok((read, counted)), Data::Struct(fields)),
        writing::write_result(Ok(write), Data::Struct(fields)),
        values.len() == fields.constructors().len(),
        values_kept_rest(
            write->writes@,
            write->rest_last,
            readers,
            fixed,
            pieces,
            last_pieces,
            last_tail,
            values,
        ),
        layout::fits_rest(
            rest_written(write->writes@, write->rest_last, pieces, last_pieces),
            if write->rest_last {
                last_tail
            } else {
                None
            },
        ),
    ensures
        laws::read_fields(
            read->take_rest.reads(),
            readers,
            fixed,
            values.len(),
            layout::laid_out_rest(
                rest_written(write->writes@, write->rest_last, pieces, last_pieces),
                if write->rest_last {
                    last_tail
                } else {
                    None
                },
            ),
        ).0 == Ok::<Seq<M>, Error>(values),
{
    let cs = fields.constructors();
    lemma_kept_by_constructors_rest(
        cs,
        write->writes@,
        readers,
        fixed,
        pieces,
        last_pieces,
        last_tail,
        values,
    );
    laws::law_derived_fields_read_back_rest(
        cs,
        readers,
        fixed,
        pieces,
        last_pieces,
        last_tail,
        values,
    );
}

/// What the plan for writing a union writes where all the data is for it, the plan
/// for reading it reads back by `arbitrary_take_rest`.
pub proof fn law_union_plans_read_back_rest<M>(
    fields: Vec<Option<FieldConstructor>>,
    read: ReadPlan,
    write: WritePlan,
    counted: bool,
    readers: Seq<FieldReader<M>>,
    fixed: Seq<M>,
    pieces: Seq<Seq<Piece>>,
    last_pieces: Seq<Piece>,
    last_tail: Option<Seq<u8>>,
    values: Seq<M>,
)
    requires
        reading::read_result(Ok((read, counted)), Data::Union(fields)),
        writing::write_result(Ok(write), Data::Union(fields)),
        values.len() == fields@.len(),
        values_kept_rest(
            write->writes@,
            write->rest_last,
            readers,
            fixed,
            pieces,
            last_pieces,
            last_tail,
            values,
        ),
        layout::fits_rest(
            rest_written(write->writes@, write->rest_last, pieces, last_pieces),
            if write->rest_last {
                last_tail
            } else {
                None
            },
        ),
    ensures
        laws::read_fields(
            read->take_rest.reads(),
            readers,
            fixed,
            values.len(),
            layout::laid_out_rest(
                rest_written(write->writes@, write->rest_last, pieces, last_pieces),
                if write->rest_last {
                    last_tail
                } else {
                    None
                },
            ),
        ).0 == Ok::<Seq<M>, Error>(values),
{
    let cs = fields@;
    lemma_kept_by_constructors_rest(
        cs,
        write->writes@,
        readers,
        fixed,
        pieces,
        last_pieces,
        last_tail,
        values,
    );
    laws::law_derived_fields_read_back_rest(
        cs,
        readers,
        fixed,
        pieces,
        last_pieces,
        last_tail,
        values,
    );
}

/// What a plan that reads an enum by `arms` makes of the data: a selector, by multiply
/// and shift the arm with that index, and the fields of its variant.
pub open spec fn read_by_arms<M>(
    arms: Seq<VariantRead>,
    readers: Seq<Seq<FieldReader<M>>>,
    fixed: Seq<Seq<M>>,
    data: Seq<u8>,
    depth: u8,
) -> (Result<(usize, Seq<M>), Error>, Seq<u8>) {
    match u32::read(data, depth) {
        (Err(e), left) => (Err(e), left),
        (Ok(s), left) => {
            let arm = arms[(s * arms.len()) / 0x1_0000_0000];
            let (values, left) = laws::read_fields(
                arm.construct.reads(),
                readers[arm.variant as int],
                fixed[arm.variant as int],
                arm.construct.reads().len(),
                left,
            );
            match values {
                Err(e) => (Err(e), left),
                Ok(values) => (Ok((arm.variant, values)), left),
            }
        },
    }
}

/// What the plan for writing an enum writes for a variant, the plan for reading it
/// reads back by `arbitrary`: the same variant and fields, with exactly the data behind
/// them left.
pub proof fn law_enum_plans_read_back<M>(
    variants: Vec<Variant>,
    read: ReadPlan,
    write: WritePlan,
    counted: bool,
    k: int,
    readers: Seq<Seq<FieldReader<M>>>,
    fixed: Seq<Seq<M>>,
    pieces: Seq<Seq<Piece>>,
    values: Seq<M>,
    data: Seq<u8>,
    depth: u8,
)
    requires
        writing::writable(variants@),
        reading::read_result(Ok((read, counted)), Data::Enum(variants)),
        writing::write_result(Ok(write), Data::Enum(variants)),
        0 <= k < write->Enum_0@.len(),
        ({
            let arm = write->Enum_0@[k];
            let v = arm.variant as int;
            &&& values.len() == variants@[v].fields.constructors().len()
            &&& values_kept(arm.writes@, readers[v], fixed[v], pieces, values)
            &&& layout::take_pieces(
                arm.selector.pieces(depth) + laws::written_pieces(
                    writing::positions(arm.writes@),
                    pieces,
                ),
                data,
            ) is Some
        }),
    ensures
        ({
            let arm = write->Enum_0@[k];
            read_by_arms(read->arms@, readers, fixed, data, depth) == (
                Ok::<(usize, Seq<M>), Error>((arm.variant, values)),
                layout::take_pieces(
                    arm.selector.pieces(depth) + laws::written_pieces(
                        writing::positions(arm.writes@),
                        pieces,
                    ),
                    data,
                )->0,
            )
        }),
{
    law_enum_is_read_variant_by_variant(variants, read, counted);
    law_enum_writes_what_takes_bytes(variants, write);
    lemma_kept_places(variants@);
    let arm = write->Enum_0@[k];
    let v = input::kept(variants@)[k] as int;
    let cs = variants@[v].fields.constructors();
    assert(arm.variant == v);
    assert(read->arms@[k].variant == v);
    assert(!variants@[v].skipped);
    assert((arm.selector * write->Enum_0@.len()) / 0x1_0000_0000 == k);
    lemma_kept_by_constructors(cs, arm.writes@, readers[v], fixed[v], pieces, values);
    let p = laws::written_pieces(writing::positions(arm.writes@), pieces);
    layout::lemma_take_append(arm.selector.pieces(depth), p, data);
    arm.selector.reads_back(depth, data);
    let left = layout::take_pieces(arm.selector.pieces(depth), data)->0;
    laws::law_derived_fields_read_back(cs, readers[v], fixed[v], pieces, values, left);
    assert(read->arms@[k].construct.reads() == reading::field_reads(cs, false));
}

/// What the plan for writing an enum writes for a variant where all the data is for it,
/// the plan for reading it reads back by `arbitrary_take_rest`.
pub proof fn law_enum_plans_read_back_rest<M>(
    variants: Vec<Variant>,
    read: ReadPlan,
    write: WritePlan,
    counted: bool,
    k: int,
    readers: Seq<Seq<FieldReader<M>>>,
    fixed: Seq<Seq<M>>,
    pieces: Seq<Seq<Piece>>,
    last_pieces: Seq<Piece>,
    last_tail: Option<Seq<u8>>,
    values: Seq<M>,
    depth: u8,
)
    requires
        writing::writable(variants@),
        reading::read_result(Ok((read, counted)), Data::Enum(variants)),
        writing::write_result(Ok(write), Data::Enum(variants)),
        0 <= k < write->Enum_0@.len(),
        ({
            let arm = write->Enum_0@[k];
            let v = arm.variant as int;
            &&& values.len() == variants@[v].fields.constructors().len()
            &&& values_kept_rest(
                arm.writes@,
                arm.rest_last,
                readers[v],
                fixed[v],
                pieces,
                last_pieces,
                last_tail,
                values,
            )
            &&& layout::fits_rest(
                arm.selector.pieces(depth) + rest_written(
                    arm.writes@,
                    arm.rest_last,
                    pieces,
                    last_pieces,
                ),
                if arm.rest_last {
                    last_tail
                } else {
                    None
                },
            )
        }),
    ensures
        ({
            let arm = write->Enum_0@[k];
            read_by_arms(
                read->rest_arms@,
                readers,
                fixed,
                layout::laid_out_rest(
                    arm.selector.pieces(depth) + rest_written(
                        arm.writes@,
                        arm.rest_last,
                        pieces,
                        last_pieces,
                    ),
                    if arm.rest_last {
                        last_tail
                    } else {
                        None
                    },
                ),
                depth,
            ).0 == Ok::<(usize, Seq<M>), Error>((arm.variant, values))
        }),
{
    law_enum_is_read_variant_by_variant(variants, read, counted);
    law_enum_writes_what_takes_bytes(variants, write);
    lemma_kept_places(variants@);
    let arm = write->Enum_0@[k];
    let v = input::kept(variants@)[k] as int;
    let cs = variants@[v].fields.constructors();
    assert(arm.variant == v);
    assert(read->arms@[k].variant == v);
    assert(read->rest_arms@[k].variant == v);
    assert(!variants@[v].skipped);
    assert((arm.selector * write->Enum_0@.len()) / 0x1_0000_0000 == k);
    lemma_kept_by_constructors_rest(
        cs,
        arm.writes@,
        readers[v],
        fixed[v],
        pieces,
        last_pieces,
        last_tail,
        values,
    );
    let q = rest_written(arm.writes@, arm.rest_last, pieces, last_pieces);
    let p = arm.selector.pieces(depth) + q;
    let t = if arm.rest_last {
        last_tail
    } else {
        None
    };
    let data = layout::laid_out_rest(p, t);
    layout::law_rest_aligns(p, t);
    layout::lemma_take_append(arm.selector.pieces(depth), q, data);
    arm.selector.reads_back(depth, data);
    let left = layout::take_pieces(arm.selector.pieces(depth), data)->0;
    laws::lemma_rest_read_back(
        cs,
        readers[v],
        fixed[v],
        pieces,
        last_pieces,
        last_tail,
        values,
        left,
    );
    assert(read->rest_arms@[k].construct.reads() == reading::field_reads(cs, true));
}

/// The bounds that the hint of a field stands for, where its type has the bounds
/// `of_type` and takes `in_memory` bytes of memory.
pub open spec fn bounds_of(
    hint: FieldHint,
    of_type: (usize, Option<usize>),
    in_memory: usize,
) -> (usize, Option<usize>) {
    match hint {
        FieldHint::Zero => (0, Some(0)),
        FieldHint::TypeHint => of_type,
        FieldHint::SizeOf => (in_memory, None),
    }
}

/// The bounds that the hints of a list of fields stand for, all together.
pub open spec fn bounds_of_all(
    hints: Seq<FieldHint>,
    of_types: Seq<(usize, Option<usize>)>,
    in_memory: Seq<usize>,
) -> (usize, Option<usize>)
    decreases hints.len(),
{
    if hints.len() == 0 {
        (0, Some(0))
    } else {
        let n = hints.len() - 1;
        size_hint::both(
            bounds_of_all(hints.drop_last(), of_types, in_memory),
            bounds_of(hints.last(), of_types[n], in_memory[n]),
        )
    }
}

proof fn lemma_bounds_hold(
    cs: Seq<Option<FieldConstructor>>,
    n: nat,
    of_types: Seq<(usize, Option<usize>)>,
    in_memory: Seq<usize>,
    pieces: Seq<Seq<Piece>>,
)
    requires
        n <= cs.len(),
        input::all_valid(cs),
        forall|i: int|
            0 <= i < cs.len() ==> size_hint::within(
                #[trigger] of_types[i],
                layout::sizes(pieces[i]).len(),
                layout::content(pieces[i]).len(),
            ),
    ensures
        ({
            let w = laws::written_pieces(writing::written(cs.take(n as int)), pieces);
            size_hint::within(
                bounds_of_all(hinting::field_hints(cs.take(n as int)), of_types, in_memory),
                layout::sizes(w).len(),
                layout::content(w).len(),
            )
        }),
    decreases n,
{
    let now = cs.take(n as int);
    if n == 0 {
        assert(laws::written_pieces(writing::written(now), pieces) =~= Seq::<Piece>::empty());
    } else {
        let m = (n - 1) as nat;
        let was = cs.take(m as int);
        lemma_bounds_hold(cs, m, of_types, in_memory, pieces);
        assert(now.drop_last() =~= was);
        assert(hinting::field_hints(now).drop_last() =~= hinting::field_hints(was));
        let p = laws::written_pieces(writing::written(was), pieces);
        let q = pieces[m as int];
        let h = hinting::field_hints(now).last();
        assert(cs[m as int] is Some);
        assert(size_hint::within(
            of_types[m as int],
            layout::sizes(q).len(),
            layout::content(q).len(),
        ));
        if writing::takes_bytes(cs[m as int]->0) {
            assert(writing::written(now).drop_last() =~= writing::written(was));
            layout::lemma_pieces_append(p, q);
            size_hint::lemma_both(
                bounds_of_all(hinting::field_hints(was), of_types, in_memory),
                bounds_of(h, of_types[m as int], in_memory[m as int]),
                layout::sizes(p).len(),
                layout::content(p).len(),
                layout::sizes(q).len(),
                layout::content(q).len(),
            );
        } else {
            size_hint::lemma_both(
                bounds_of_all(hinting::field_hints(was), of_types, in_memory),
                bounds_of(h, of_types[m as int], in_memory[m as int]),
                layout::sizes(p).len(),
                layout::content(p).len(),
                0,
                0,
            );
        }
    }
}

/// What the plan for writing a struct writes is within the bounds that the plan for
/// its size hint stands for.
pub proof fn law_struct_hint_holds(
    fields: Fields,
    hint: HintPlan,
    write: WritePlan,
    counted: bool,
    of_types: Seq<(usize, Option<usize>)>,
    in_memory: Seq<usize>,
    pieces: Seq<Seq<Piece>>,
)
    requires
        hinting::hint_result(Ok(hint), Data::Struct(fields), counted),
        writing::write_result(Ok(write), Data::Struct(fields)),
        forall|i: int|
            0 <= i < fields.constructors().len() ==> size_hint::within(
                #[trigger] of_types[i],
                layout::sizes(pieces[i]).len(),
                layout::content(pieces[i]).len(),
            ),
    ensures
        ({
            let w = laws::written_pieces(writing::positions(write->writes@), pieces);
            size_hint::within(
                bounds_of_all(hint->Structlike_0@, of_types, in_memory),
                layout::sizes(w).len(),
                layout::content(w).len(),
            )
        }),
{
    let cs = fields.constructors();
    lemma_bounds_hold(cs, cs.len(), of_types, in_memory, pieces);
    assert(cs.take(cs.len() as int) =~= cs);
}

/// What the plan for writing a union writes is within the bounds that the plan for
/// its size hint stands for.
pub proof fn law_union_hint_holds(
    fields: Vec<Option<FieldConstructor>>,
    hint: HintPlan,
    write: WritePlan,
    counted: bool,
    of_types: Seq<(usize, Option<usize>)>,
    in_memory: Seq<usize>,
    pieces: Seq<Seq<Piece>>,
)
    requires
        hinting::hint_result(Ok(hint), Data::Union(fields), counted),
        writing::write_result(Ok(write), Data::Union(fields)),
        forall|i: int|
            0 <= i < fields@.len() ==> size_hint::within(
                #[trigger] of_types[i],
                layout::sizes(pieces[i]).len(),
                layout::content(pieces[i]).len(),
            ),
    ensures
        ({
            let w = laws::written_pieces(writing::positions(write->writes@), pieces);
            size_hint::within(
                bounds_of_all(hint->Structlike_0@, of_types, in_memory),
                layout::sizes(w).len(),
                layout::content(w).len(),
            )
        }),
{
    let cs = fields@;
    lemma_bounds_hold(cs, cs.len(), of_types, in_memory, pieces);
    assert(cs.take(cs.len() as int) =~= cs);
}

/// The bounds that the hints of the first `n` variants stand for, whichever of them it
/// is.
pub open spec fn bounds_of_any(
    arms: Seq<VariantHint>,
    n: nat,
    of_types: Seq<Seq<(usize, Option<usize>)>>,
    in_memory: Seq<Seq<usize>>,
) -> (usize, Option<usize>)
    decreases n,
{
    if n == 0 {
        (0, Some(0))
    } else {
        let arm = arms[n - 1];
        let here = bounds_of_all(
            arm.hints@,
            of_types[arm.variant as int],
            in_memory[arm.variant as int],
        );
        if n == 1 {
            here
        } else {
            size_hint::either(bounds_of_any(arms, (n - 1) as nat, of_types, in_memory), here)
        }
    }
}

proof fn lemma_any_holds(
    arms: Seq<VariantHint>,
    n: nat,
    of_types: Seq<Seq<(usize, Option<usize>)>>,
    in_memory: Seq<Seq<usize>>,
    k: int,
    sizes: nat,
    len: nat,
)
    requires
        0 <= k < n,
        size_hint::within(
            bounds_of_all(
                arms[k].hints@,
                of_types[arms[k].variant as int],
                in_memory[arms[k].variant as int],
            ),
            sizes,
            len,
        ),
    ensures
        size_hint::within(bounds_of_any(arms, n, of_types, in_memory), sizes, len),
    decreases n,
{
    if k < n - 1 {
        lemma_any_holds(arms, (n - 1) as nat, of_types, in_memory, k, sizes, len);
    }
    if n > 1 {
        let arm = arms[n - 1];
        size_hint::lemma_either(
            bounds_of_any(arms, (n - 1) as nat, of_types, in_memory),
            bounds_of_all(
                arm.hints@,
                of_types[arm.variant as int],
                in_memory[arm.variant as int],
            ),
            sizes,
            len,
        );
    }
}

/// What the plan for writing an enum writes for a variant is within the bounds that the
/// plan for its size hint stands for: those of the selector and of any variant
/// together, or of the selector alone.
pub proof fn law_enum_hint_holds(
    variants: Vec<Variant>,
    hint: HintPlan,
    write: WritePlan,
    counted: bool,
    k: int,
    of_types: Seq<Seq<(usize, Option<usize>)>>,
    in_memory: Seq<Seq<usize>>,
    pieces: Seq<Seq<Piece>>,
    depth: u8,
)
    requires
        writing::writable(variants@),
        hinting::count_fits(Data::Enum(variants), counted),
        hinting::hint_result(Ok(hint), Data::Enum(variants), counted),
        writing::write_result(Ok(write), Data::Enum(variants)),
        0 <= k < write->Enum_0@.len(),
        forall|i: int|
            0 <= i < variants@[write->Enum_0@[k].variant as int].fields.constructors().len()
                ==> size_hint::within(
                #[trigger] of_types[write->Enum_0@[k].variant as int][i],
                layout::sizes(pieces[i]).len(),
                layout::content(pieces[i]).len(),
            ),
    ensures
        ({
            let arm = write->Enum_0@[k];
            let w = arm.selector.pieces(depth) + laws::written_pieces(
                writing::positions(arm.writes@),
                pieces,
            );
            size_hint::within(
                match hint {
                    HintPlan::Enum(arms) => size_hint::both(
                        (4, Some(4)),
                        bounds_of_any(arms@, arms@.len(), of_types, in_memory),
                    ),
                    _ => (4, Some(4)),
                },
                layout::sizes(w).len(),
                layout::content(w).len(),
            )
        }),
{
    lemma_kept_places(variants@);
    let arm = write->Enum_0@[k];
    let v = input::kept(variants@)[k] as int;
    let cs = variants@[v].fields.constructors();
    assert(arm.variant == v);
    assert(!variants@[v].skipped);
    let s = arm.selector.pieces(depth);
    let p = laws::written_pieces(writing::positions(arm.writes@), pieces);
    arm.selector.hint_holds(depth, 0);
    layout::lemma_pieces_append(s, p);
    assert(cs.take(cs.len() as int) =~= cs);
    lemma_bounds_hold(
        cs,
        cs.len(),
        of_types[v],
        if 0 <= v < in_memory.len() {
            in_memory[v]
        } else {
            in_memory[v]
        },
        pieces,
    );
    match hint {
        HintPlan::Enum(arms) => {
            assert(arms@[k].variant == v);
            lemma_any_holds(
                arms@,
                arms@.len(),
                of_types,
                in_memory,
                k,
                layout::sizes(p).len(),
                layout::content(p).len(),
            );
            size_hint::lemma_both(
                (4, Some(4)),
                bounds_of_any(arms@, arms@.len(), of_types, in_memory),
                layout::sizes(s).len(),
                layout::content(s).len(),
                layout::sizes(p).len(),
                layout::content(p).len(),
            );
        },
        _ => {
            assert(cs.len() == 0);
            assert(p =~= Seq::<Piece>::empty());
        },
    }
}

} // verus!
