//! How a derived implementation writes.

use crate::derive::input;
use crate::derive::input::{Data, DeriveError, FieldConstructor, Fields, Variant};
use crate::derive::reading;
use crate::derive::selector;
use vstd::prelude::*;

verus! {

/// A match arm that writes a variant.
#[derive(Debug)]
pub struct VariantWrite {
    /// The position of the variant in the enum.
    pub variant: usize,
    /// The selector that is written before the fields.
    pub selector: u32,
    /// The positions of the fields that are written, in order.
    pub writes: Vec<usize>,
    /// Whether `write_take_rest_to` writes the last field for a reader that gives
    /// it all that is left.
    pub rest_last: bool,
}

/// The bodies of `write_to` and `write_take_rest_to`. Both write the same fields;
/// they differ at most in the last one.
#[derive(Debug)]
pub enum WritePlan {
    /// One list of fields.
    Structlike {
        /// The positions of the fields that are written, in order.
        writes: Vec<usize>,
        /// Whether `write_take_rest_to` writes the last field for a reader that
        /// gives it all that is left.
        rest_last: bool,
    },
    /// A selector and fields for each variant that is not skipped.
    Enum(Vec<VariantWrite>),
}

/// Whether reading a field with this constructor takes bytes. Default and fixed
/// values take none; what a function of the user's takes is not known, and such a
/// field is written like any other.
pub open spec fn takes_bytes(c: FieldConstructor) -> bool {
    c is Arbitrary || c is With
}

/// The positions of the fields that are written, in order.
pub open spec fn written(constructors: Seq<Option<FieldConstructor>>) -> Seq<nat>
    decreases constructors.len(),
{
    if constructors.len() == 0 {
        Seq::empty()
    } else {
        let before = written(constructors.drop_last());
        if takes_bytes(constructors.last()->0) {
            before.push((constructors.len() - 1) as nat)
        } else {
            before
        }
    }
}

/// Whether a reader that has all the data for these fields gives what is left to
/// the last one, so that it has to be written for such a reader.
pub open spec fn gives_rest(constructors: Seq<Option<FieldConstructor>>) -> bool {
    constructors.len() > 0 && constructors.last() == Some(FieldConstructor::Arbitrary)
}

/// Positions as numbers.
pub open spec fn positions(writes: Seq<usize>) -> Seq<nat> {
    Seq::new(writes.len(), |k: int| writes[k] as nat)
}

/// What comes of writing a list of fields: the positions of those that take bytes,
/// or the first field whose attributes are invalid.
pub open spec fn writes_result(
    r: Result<Vec<usize>, DeriveError>,
    constructors: Seq<Option<FieldConstructor>>,
) -> bool {
    match r {
        Ok(writes) => input::all_valid(constructors) && positions(writes@) == written(constructors),
        Err(DeriveError::Field { variant, index }) => variant is None && input::first_invalid(
            constructors,
            index as int,
        ),
        Err(_) => false,
    }
}

/// Whether `arms` write the variants that are not skipped, in order, each with the
/// selector that chooses it.
pub open spec fn arms_write(arms: Seq<VariantWrite>, variants: Seq<Variant>, count: int) -> bool {
    &&& arms.len() == input::kept(variants).len()
    &&& forall|k: int|
        0 <= k < arms.len() ==> {
            &&& (#[trigger] arms[k]).variant == input::kept(variants)[k]
            &&& arms[k].selector == selector::selector(k, count)
            &&& positions(arms[k].writes@) == written(
                variants[input::kept(variants)[k] as int].fields.constructors(),
            )
            &&& arms[k].rest_last == gives_rest(
                variants[input::kept(variants)[k] as int].fields.constructors(),
            )
        }
}

/// Whether the variants can be written: the fields of those that are not skipped
/// are valid, and there are no more of them than selectors can tell apart.
pub open spec fn writable(variants: Seq<Variant>) -> bool {
    reading::fields_allowed(variants) && input::kept(variants).len() <= selector::MAX_VARIANTS
}

/// What is derived for writing an enum.
pub open spec fn enum_result(r: Result<WritePlan, DeriveError>, variants: Seq<Variant>) -> bool {
    match r {
        Ok(WritePlan::Enum(arms)) => {
            &&& input::kept(variants).len() > 0
            &&& arms_write(arms@, variants, input::kept(variants).len() as int)
        },
        Ok(_) => false,
        Err(DeriveError::NoVariants) => input::kept(variants).len() == 0,
        Err(_) => false,
    }
}

/// What is derived for writing one list of fields.
pub open spec fn structlike_result(
    r: Result<WritePlan, DeriveError>,
    constructors: Seq<Option<FieldConstructor>>,
) -> bool {
    match r {
        Ok(WritePlan::Structlike { writes, rest_last }) => {
            &&& input::all_valid(constructors)
            &&& positions(writes@) == written(constructors)
            &&& rest_last == gives_rest(constructors)
        },
        Ok(_) => false,
        Err(DeriveError::Field { variant, index }) => variant is None && input::first_invalid(
            constructors,
            index as int,
        ),
        Err(_) => false,
    }
}

/// What is derived for writing.
pub open spec fn write_result(r: Result<WritePlan, DeriveError>, data: Data) -> bool {
    match data {
        Data::Struct(fields) => structlike_result(r, fields.constructors()),
        Data::Union(fields) => structlike_result(r, fields@),
        Data::Enum(variants) => enum_result(r, variants@),
    }
}

/// The positions of the fields to write.
fn write_fields(constructors: &Vec<Option<FieldConstructor>>) -> (r: Result<
    Vec<usize>,
    DeriveError,
>)
    ensures
        writes_result(r, constructors@),
{
    let mut writes: Vec<usize> = Vec::new();
    let mut i: usize = 0;
    while i < constructors.len()
        invariant
            i <= constructors.len(),
            positions(writes@) == written(constructors@.take(i as int)),
            forall|j: int| 0 <= j < i ==> (#[trigger] constructors@[j]) is Some,
        decreases constructors.len() - i,
    {
        assert(constructors@.take(i + 1).drop_last() =~= constructors@.take(i as int));
        match constructors[i] {
            None => {
                return Err(DeriveError::Field { variant: None, index: i });
            },
            Some(c) => match c {
                FieldConstructor::Default | FieldConstructor::Value => {},
                FieldConstructor::Arbitrary | FieldConstructor::With => {
                    let ghost before = writes@;
                    writes.push(i);
                    assert(positions(writes@) =~= positions(before).push(i as nat));
                },
            },
        }
        i += 1;
    }
    assert(constructors@.take(i as int) =~= constructors@);
    Ok(writes)
}

/// The positions of the fields of a struct or a variant that are written.
pub fn gen_dearbitrary_field_writes(fields: &Fields) -> (r: Result<Vec<usize>, DeriveError>)
    ensures
        writes_result(r, fields.constructors()),
{
    match fields {
        Fields::Named(constructors) => write_fields(constructors),
        Fields::Unnamed(constructors) => write_fields(constructors),
        Fields::Unit => {
            let none: Vec<usize> = Vec::new();
            assert(positions(none@) =~= Seq::empty());
            Ok(none)
        },
    }
}

/// Whether the last of a list of fields has the constructor that makes a reader
/// give it all that is left.
fn last_takes_rest(constructors: &Vec<Option<FieldConstructor>>) -> (r: bool)
    ensures
        r == gives_rest(constructors@),
{
    if constructors.len() == 0 {
        return false;
    }
    match constructors[constructors.len() - 1] {
        Some(FieldConstructor::Arbitrary) => true,
        _ => false,
    }
}

/// Whether `write_take_rest_to` writes the last field of a struct or a variant for
/// a reader that gives it all that is left.
pub fn writes_rest_last(fields: &Fields) -> (r: bool)
    ensures
        r == gives_rest(fields.constructors()),
{
    match fields {
        Fields::Named(constructors) => last_takes_rest(constructors),
        Fields::Unnamed(constructors) => last_takes_rest(constructors),
        Fields::Unit => false,
    }
}

/// How one list of fields is written.
pub fn gen_dearbitrary_struct(fields: &Fields) -> (r: Result<WritePlan, DeriveError>)
    ensures
        structlike_result(r, fields.constructors()),
{
    match gen_dearbitrary_field_writes(fields) {
        Ok(writes) => {
            let rest_last: bool = writes_rest_last(fields);
            Ok(WritePlan::Structlike { writes, rest_last })
        },
        Err(e) => Err(e),
    }
}

/// How many variants are not skipped.
fn count_kept(variants: &Vec<Variant>) -> (count: usize)
    ensures
        count == input::kept(variants@).len(),
{
    let mut count: usize = 0;
    let mut v: usize = 0;
    while v < variants.len()
        invariant
            count <= v <= variants.len(),
            count == input::kept(variants@.take(v as int)).len(),
        decreases variants.len() - v,
    {
        proof {
            input::lemma_kept_step(variants@, v as int);
        }
        if !variants[v].skipped {
            count += 1;
        }
        v += 1;
    }
    assert(variants@.take(v as int) =~= variants@);
    count
}

/// How an enum is written: each variant that is not skipped, as a selector that
/// chooses it and its fields.
pub fn gen_dearbitrary_enum(variants: &Vec<Variant>) -> (r: Result<WritePlan, DeriveError>)
    requires
        writable(variants@),
    ensures
        enum_result(r, variants@),
{
    let count: usize = count_kept(variants);
    if count == 0 {
        return Err(DeriveError::NoVariants);
    }
    let mut arms: Vec<VariantWrite> = Vec::new();
    let mut v: usize = 0;
    while v < variants.len()
        invariant
            v <= variants.len(),
            writable(variants@),
            count == input::kept(variants@).len(),
            arms_write(arms@, variants@.take(v as int), count as int),
        decreases variants.len() - v,
    {
        let ghost before = arms@;
        proof {
            lemma_kept_grows(variants@, v as int);
            input::lemma_kept_step(variants@, v as int);
        }
        if !variants[v].skipped {
            match gen_dearbitrary_field_writes(&variants[v].fields) {
                Ok(writes) => {
                    let index: u64 = arms.len() as u64;
                    let selector: u32 = selector::variant_selector(index, count as u64);
                    let rest_last: bool = writes_rest_last(&variants[v].fields);
                    arms.push(VariantWrite { variant: v, selector, writes, rest_last });
                },
                Err(e) => {
                    assert(input::all_valid(variants@[v as int].fields.constructors()));
                    return Err(e);
                },
            }
        }
        proof {
            let was = variants@.take(v as int);
            let now = variants@.take(v + 1);
            input::lemma_kept(was);
            assert forall|k: int| 0 <= k < arms@.len() implies {
                &&& (#[trigger] arms@[k]).variant == input::kept(now)[k]
                &&& arms@[k].selector == selector::selector(k, count as int)
                &&& positions(arms@[k].writes@) == written(
                    now[input::kept(now)[k] as int].fields.constructors(),
                )
                &&& arms@[k].rest_last == gives_rest(
                    now[input::kept(now)[k] as int].fields.constructors(),
                )
            } by {
                if k < before.len() {
                    assert(arms@[k] == before[k]);
                    assert(input::kept(now)[k] == input::kept(was)[k]);
                    assert(now[input::kept(was)[k] as int] == was[input::kept(was)[k] as int]);
                }
            }
        }
        v += 1;
    }
    assert(variants@.take(v as int) =~= variants@);
    Ok(WritePlan::Enum(arms))
}

/// The variants after `i` add to those that are kept.
proof fn lemma_kept_grows(variants: Seq<Variant>, i: int)
    requires
        0 <= i < variants.len(),
    ensures
        input::kept(variants.take(i + 1)).len() <= input::kept(variants).len(),
    decreases variants.len() - i,
{
    if i + 1 < variants.len() {
        input::lemma_kept_step(variants, i + 1);
        lemma_kept_grows(variants, i + 1);
    } else {
        assert(variants.take(i + 1) =~= variants);
    }
}

/// How a type is written.
pub fn gen_dearbitrary_method(data: &Data) -> (r: Result<WritePlan, DeriveError>)
    requires
        data matches Data::Enum(variants) ==> writable(variants@),
    ensures
        write_result(r, *data),
{
    match data {
        Data::Struct(fields) => gen_dearbitrary_struct(fields),
        Data::Enum(variants) => gen_dearbitrary_enum(variants),
        Data::Union(fields) => {
            let named: Fields = input::named_fields(fields);
            gen_dearbitrary_struct(&named)
        },
    }
}

} // verus!
