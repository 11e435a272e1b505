//! How a derived implementation reads.

use crate::derive::input;
use crate::derive::input::{Data, DeriveError, FieldConstructor, Fields, Variant};
use vstd::prelude::*;

verus! {

/// The name of the attribute that steers a derived implementation.
pub open spec fn attribute_name() -> Seq<char> {
    "arbitrary"@
}

/// What a derived reader does for a field.
#[derive(Clone, Copy, Debug, PartialEq, Eq, Structural)]
pub enum FieldRead {
    /// Takes the default value, and reads nothing.
    Default,
    /// Calls `Arbitrary::arbitrary`.
    Arbitrary,
    /// Calls `Arbitrary::arbitrary_take_rest`.
    TakeRest,
    /// Calls the user's function.
    With,
    /// Takes the user's value, and reads nothing.
    Value,
}

/// What the reader does for each field, in order.
#[derive(Debug)]
pub enum Construct {
    /// Fields in braces.
    Named(Vec<FieldRead>),
    /// Fields in parentheses.
    Unnamed(Vec<FieldRead>),
    /// No field list at all.
    Unit,
}

impl Construct {
    /// What the reader does for each field.
    pub open spec fn reads(self) -> Seq<FieldRead> {
        match self {
            Construct::Named(r) => r@,
            Construct::Unnamed(r) => r@,
            Construct::Unit => Seq::empty(),
        }
    }
}

/// A match arm that reads a variant.
#[derive(Debug)]
pub struct VariantRead {
    /// The index that chooses this arm: the position among the variants that are
    /// not skipped.
    pub index: u64,
    /// The position of the variant in the enum.
    pub variant: usize,
    /// How its fields are read.
    pub construct: Construct,
}

/// The bodies of `arbitrary` and `arbitrary_take_rest`.
#[derive(Debug)]
pub enum ReadPlan {
    /// One list of fields, under the recursion guard.
    Structlike {
        /// For `arbitrary`.
        arbitrary: Construct,
        /// For `arbitrary_take_rest`.
        take_rest: Construct,
    },
    /// A `u32` selector, then the fields of the variant that it chooses.
    Enum {
        /// How many variants the selector chooses from.
        count: u64,
        /// The arms of `arbitrary`.
        arms: Vec<VariantRead>,
        /// The arms of `arbitrary_take_rest`.
        rest_arms: Vec<VariantRead>,
    },
}

/// What `arbitrary` does for a field with this constructor.
pub open spec fn field_read(c: FieldConstructor) -> FieldRead {
    match c {
        FieldConstructor::Default => FieldRead::Default,
        FieldConstructor::Arbitrary => FieldRead::Arbitrary,
        FieldConstructor::With => FieldRead::With,
        FieldConstructor::Value => FieldRead::Value,
    }
}

/// What `arbitrary_take_rest` does for a field with this constructor: the last
/// field gets all that is left.
pub open spec fn field_read_rest(c: FieldConstructor, last: bool) -> FieldRead {
    if c is Arbitrary && last {
        FieldRead::TakeRest
    } else {
        field_read(c)
    }
}

/// What `arbitrary`, or with `rest` `arbitrary_take_rest`, does for each field.
pub open spec fn field_reads(
    constructors: Seq<Option<FieldConstructor>>,
    rest: bool,
) -> Seq<FieldRead> {
    Seq::new(
        constructors.len(),
        |i: int|
            field_read_rest(constructors[i]->0, rest && i + 1 == constructors.len()),
    )
}

/// Whether `c` reads `fields`, in their shape.
pub open spec fn constructs(c: Construct, fields: Fields, rest: bool) -> bool {
    &&& c is Named <==> fields is Named
    &&& c is Unnamed <==> fields is Unnamed
    &&& c.reads() == field_reads(fields.constructors(), rest)
}

/// What comes of reading `fields`: a construct where all attributes are valid,
/// else the first field whose attributes are not.
pub open spec fn construct_result(
    r: Result<Construct, DeriveError>,
    fields: Fields,
    variant: Option<usize>,
    rest: bool,
) -> bool {
    match r {
        Ok(c) => input::all_valid(fields.constructors()) && constructs(c, fields, rest),
        Err(DeriveError::Field { variant: v, index }) => v == variant && input::first_invalid(
            fields.constructors(),
            index as int,
        ),
        Err(_) => false,
    }
}

/// Whether `arms` read the variants that are not skipped, in order.
pub open spec fn arms_read(arms: Seq<VariantRead>, variants: Seq<Variant>, rest: bool) -> bool {
    &&& arms.len() == input::kept(variants).len()
    &&& forall|k: int|
        0 <= k < arms.len() ==> {
            &&& (#[trigger] arms[k]).index == k
            &&& arms[k].variant == input::kept(variants)[k]
            &&& constructs(
                arms[k].construct,
                variants[input::kept(variants)[k] as int].fields,
                rest,
            )
        }
}

/// Whether attribute `a` is the first of the variant's attributes that carries
/// [`attribute_name`].
pub open spec fn first_named(attributes: Seq<Option<String>>, a: int) -> bool {
    &&& 0 <= a < attributes.len()
    &&& is_named(attributes[a])
    &&& forall|b: int| 0 <= b < a ==> !is_named(#[trigger] attributes[b])
}

/// Whether an attribute carries [`attribute_name`].
pub open spec fn is_named(attribute: Option<String>) -> bool {
    attribute matches Some(name) && name@ == attribute_name()
}

/// Whether none of the attributes carries [`attribute_name`].
pub open spec fn unnamed(attributes: Seq<Option<String>>) -> bool {
    forall|a: int| 0 <= a < attributes.len() ==> !is_named(#[trigger] attributes[a])
}

/// Whether no variant that is not skipped carries an attribute of its own.
pub open spec fn attributes_allowed(variants: Seq<Variant>) -> bool {
    forall|v: int|
        0 <= v < variants.len() && !(#[trigger] variants[v]).skipped ==> unnamed(
            variants[v].attributes@,
        )
}

/// Whether the fields of all variants that are not skipped are valid.
pub open spec fn fields_allowed(variants: Seq<Variant>) -> bool {
    forall|v: int|
        0 <= v < variants.len() && !(#[trigger] variants[v]).skipped ==> input::all_valid(
            variants[v].fields.constructors(),
        )
}

/// Whether the fields of variant `variant` are the first that are not valid, and
/// field `index` is the first among them.
pub open spec fn first_invalid_field(variants: Seq<Variant>, variant: int, index: int) -> bool {
    &&& 0 <= variant < variants.len()
    &&& !variants[variant].skipped
    &&& input::first_invalid(variants[variant].fields.constructors(), index)
    &&& fields_allowed(variants.take(variant))
}

/// Whether some variant that is not skipped has a field list, though it may be
/// empty.
pub open spec fn has_field_list(variants: Seq<Variant>) -> bool {
    exists|v: int|
        0 <= v < variants.len() && !(#[trigger] variants[v]).skipped && !(
        variants[v].fields is Unit)
}

/// What is derived for reading: the plan, and whether it needs a recursion count.
pub open spec fn read_result(
    r: Result<(ReadPlan, bool), DeriveError>,
    data: Data,
) -> bool {
    match data {
        Data::Struct(fields) => structlike_result(r, fields),
        Data::Union(fields) => structlike_result(r, Fields::Named(fields)),
        Data::Enum(variants) => enum_result(r, variants@),
    }
}

/// What is derived for reading one list of fields.
pub open spec fn structlike_result(
    r: Result<(ReadPlan, bool), DeriveError>,
    fields: Fields,
) -> bool {
    match r {
        Ok((ReadPlan::Structlike { arbitrary, take_rest }, counted)) => {
            &&& counted
            &&& input::all_valid(fields.constructors())
            &&& constructs(arbitrary, fields, false)
            &&& constructs(take_rest, fields, true)
        },
        Ok(_) => false,
        Err(DeriveError::Field { variant, index }) => variant is None && input::first_invalid(
            fields.constructors(),
            index as int,
        ),
        Err(_) => false,
    }
}

/// What is derived for reading an enum. Attributes of variants are looked at
/// before the attributes of their fields, and an enum with nothing to read is
/// found last.
pub open spec fn enum_result(
    r: Result<(ReadPlan, bool), DeriveError>,
    variants: Seq<Variant>,
) -> bool {
    match r {
        Ok((ReadPlan::Enum { count, arms, rest_arms }, counted)) => {
            &&& attributes_allowed(variants)
            &&& fields_allowed(variants)
            &&& count == input::kept(variants).len()
            &&& count > 0
            &&& arms_read(arms@, variants, false)
            &&& arms_read(rest_arms@, variants, true)
            &&& counted == has_field_list(variants)
        },
        Ok(_) => false,
        Err(DeriveError::VariantAttribute { position, attribute }) => {
            &&& 0 <= position < variants.len()
            &&& !variants[position as int].skipped
            &&& first_named(variants[position as int].attributes@, attribute as int)
            &&& attributes_allowed(variants.take(position as int))
        },
        Err(DeriveError::Field { variant, index }) => {
            &&& attributes_allowed(variants)
            &&& variant matches Some(v)
            &&& first_invalid_field(variants, v as int, index as int)
        },
        Err(DeriveError::NoVariants) => input::kept(variants).len() == 0,
        Err(_) => false,
    }
}

/// What `arbitrary` does for a field.
pub fn gen_constructor_for_field(field: FieldConstructor) -> (r: FieldRead)
    ensures
        r == field_read(field),
{
    match field {
        FieldConstructor::Default => FieldRead::Default,
        FieldConstructor::Arbitrary => FieldRead::Arbitrary,
        FieldConstructor::With => FieldRead::With,
        FieldConstructor::Value => FieldRead::Value,
    }
}

/// The reads of a list of fields, or the position of the first field whose
/// attributes are invalid.
fn read_fields(constructors: &Vec<Option<FieldConstructor>>, rest: bool) -> (r: Result<
    Vec<FieldRead>,
    usize,
>)
    ensures
        match r {
            Ok(reads) => input::all_valid(constructors@) && reads@ == field_reads(
                constructors@,
                rest,
            ),
            Err(index) => input::first_invalid(constructors@, index as int),
        },
{
    let mut reads: Vec<FieldRead> = Vec::new();
    let mut i: usize = 0;
    while i < constructors.len()
        invariant
            i <= constructors.len(),
            reads@ == field_reads(constructors@, rest).take(i as int),
            forall|j: int| 0 <= j < i ==> (#[trigger] constructors@[j]) is Some,
        decreases constructors.len() - i,
    {
        match constructors[i] {
            None => {
                return Err(i);
            },
            Some(c) => {
                let read: FieldRead = match c {
                    FieldConstructor::Arbitrary => if rest && i + 1 == constructors.len() {
                        FieldRead::TakeRest
                    } else {
                        gen_constructor_for_field(c)
                    },
                    _ => gen_constructor_for_field(c),
                };
                reads.push(read);
            },
        }
        i += 1;
    }
    Ok(reads)
}

/// How `arbitrary`, or with `rest` `arbitrary_take_rest`, constructs a list of
/// fields.
fn construct_fields(fields: &Fields, variant: Option<usize>, rest: bool) -> (r: Result<
    Construct,
    DeriveError,
>)
    ensures
        construct_result(r, *fields, variant, rest),
{
    match fields {
        Fields::Named(constructors) => match read_fields(constructors, rest) {
            Ok(reads) => Ok(Construct::Named(reads)),
            Err(index) => Err(DeriveError::Field { variant, index }),
        },
        Fields::Unnamed(constructors) => match read_fields(constructors, rest) {
            Ok(reads) => Ok(Construct::Unnamed(reads)),
            Err(index) => Err(DeriveError::Field { variant, index }),
        },
        Fields::Unit => {
            assert(field_reads(Seq::empty(), rest) =~= Seq::empty());
            Ok(Construct::Unit)
        },
    }
}

/// How `arbitrary` constructs a list of fields.
pub fn construct(fields: &Fields, variant: Option<usize>) -> (r: Result<Construct, DeriveError>)
    ensures
        construct_result(r, *fields, variant, false),
{
    construct_fields(fields, variant, false)
}

/// How `arbitrary_take_rest` constructs a list of fields: the last field gets all
/// that is left.
pub fn construct_take_rest(fields: &Fields, variant: Option<usize>) -> (r: Result<
    Construct,
    DeriveError,
>)
    ensures
        construct_result(r, *fields, variant, true),
{
    construct_fields(fields, variant, true)
}

/// Refuses a variant, at position `position`, that carries an attribute which only
/// its fields can carry.
pub fn check_variant_attrs(variant: &Variant, position: usize) -> (r: Result<(), DeriveError>)
    ensures
        match r {
            Ok(()) => unnamed(variant.attributes@),
            Err(DeriveError::VariantAttribute { position: p, attribute }) => p == position
                && first_named(variant.attributes@, attribute as int),
            Err(_) => false,
        },
{
    let refused: String = "arbitrary".to_string();
    let mut a: usize = 0;
    while a < variant.attributes.len()
        invariant
            a <= variant.attributes.len(),
            refused@ == attribute_name(),
            forall|b: int| 0 <= b < a ==> !is_named(#[trigger] variant.attributes@[b]),
        decreases variant.attributes.len() - a,
    {
        match &variant.attributes[a] {
            Some(name) => {
                if *name == refused {
                    return Err(DeriveError::VariantAttribute { position, attribute: a });
                }
            },
            None => {},
        }
        a += 1;
    }
    Ok(())
}

/// Refuses the first variant that is not skipped and carries an attribute which
/// only its fields can carry.
fn check_attributes(variants: &Vec<Variant>) -> (r: Result<(), DeriveError>)
    ensures
        match r {
            Ok(()) => attributes_allowed(variants@),
            Err(DeriveError::VariantAttribute { position, attribute }) => {
                &&& 0 <= position < variants@.len()
                &&& !variants@[position as int].skipped
                &&& first_named(variants@[position as int].attributes@, attribute as int)
                &&& attributes_allowed(variants@.take(position as int))
            },
            Err(_) => false,
        },
{
    let mut v: usize = 0;
    while v < variants.len()
        invariant
            v <= variants.len(),
            attributes_allowed(variants@.take(v as int)),
        decreases variants.len() - v,
    {
        if !variants[v].skipped {
            match check_variant_attrs(&variants[v], v) {
                Ok(()) => {},
                Err(e) => {
                    return Err(e);
                },
            }
        }
        proof {
            assert forall|w: int|
                0 <= w < v + 1 && !(#[trigger] variants@.take(v + 1)[w]).skipped implies unnamed(
                variants@.take(v + 1)[w].attributes@,
            ) by {
                if w < v {
                    assert(variants@.take(v as int)[w] == variants@[w]);
                }
            }
        }
        v += 1;
    }
    assert(variants@.take(v as int) =~= variants@);
    Ok(())
}

/// The arms that read the variants which are not skipped, or the first field whose
/// attributes are invalid.
fn read_variants(variants: &Vec<Variant>, rest: bool) -> (r: Result<Vec<VariantRead>, DeriveError>)
    ensures
        match r {
            Ok(arms) => fields_allowed(variants@) && arms_read(arms@, variants@, rest),
            Err(DeriveError::Field { variant, index }) => variant matches Some(v)
                && first_invalid_field(variants@, v as int, index as int),
            Err(_) => false,
        },
{
    let mut arms: Vec<VariantRead> = Vec::new();
    let mut v: usize = 0;
    while v < variants.len()
        invariant
            v <= variants.len(),
            fields_allowed(variants@.take(v as int)),
            arms_read(arms@, variants@.take(v as int), rest),
        decreases variants.len() - v,
    {
        let ghost before = arms@;
        if !variants[v].skipped {
            let fields: &Fields = &variants[v].fields;
            let made: Result<Construct, DeriveError> = if rest {
                construct_take_rest(fields, Some(v))
            } else {
                construct(fields, Some(v))
            };
            match made {
                Ok(c) => {
                    let index: u64 = arms.len() as u64;
                    arms.push(VariantRead { index, variant: v, construct: c });
                },
                Err(e) => {
                    return Err(e);
                },
            }
        }
        proof {
            let was = variants@.take(v as int);
            let now = variants@.take(v + 1);
            input::lemma_kept_step(variants@, v as int);
            input::lemma_kept(was);
            assert forall|w: int|
                0 <= w < now.len() && !(#[trigger] now[w]).skipped implies input::all_valid(
                now[w].fields.constructors(),
            ) by {
                if w < v {
                    assert(was[w] == variants@[w]);
                }
            }
            assert forall|k: int| 0 <= k < arms@.len() implies {
                &&& (#[trigger] arms@[k]).index == k
                &&& arms@[k].variant == input::kept(now)[k]
                &&& constructs(arms@[k].construct, now[input::kept(now)[k] as int].fields, rest)
            } by {
                if k < before.len() {
                    assert(arms@[k] == before[k]);
                    assert(input::kept(now)[k] == input::kept(was)[k]);
                    assert(now[input::kept(was)[k] as int] == was[input::kept(was)[k] as int]);
                }
            }
        }
        v += 1;
    }
    assert(variants@.take(v as int) =~= variants@);
    Ok(arms)
}

/// Whether some variant that is not skipped has a field list.
fn any_field_list(variants: &Vec<Variant>) -> (r: bool)
    ensures
        r == has_field_list(variants@),
{
    let mut v: usize = 0;
    while v < variants.len()
        invariant
            v <= variants.len(),
            forall|w: int|
                0 <= w < v ==> (#[trigger] variants@[w]).skipped || variants@[w].fields is Unit,
        decreases variants.len() - v,
    {
        let listed: bool = match &variants[v].fields {
            Fields::Unit => false,
            _ => true,
        };
        if listed && !variants[v].skipped {
            assert(!variants@[v as int].skipped);
            return true;
        }
        v += 1;
    }
    false
}

/// How one list of fields is read.
fn arbitrary_structlike(fields: &Fields) -> (r: Result<(ReadPlan, bool), DeriveError>)
    ensures
        structlike_result(r, *fields),
{
    match construct(fields, None) {
        Ok(arbitrary) => match construct_take_rest(fields, None) {
            Ok(take_rest) => Ok((ReadPlan::Structlike { arbitrary, take_rest }, true)),
            Err(e) => Err(e),
        },
        Err(e) => Err(e),
    }
}

/// How an enum is read.
fn arbitrary_enum(variants: &Vec<Variant>) -> (r: Result<(ReadPlan, bool), DeriveError>)
    ensures
        enum_result(r, variants@),
{
    match check_attributes(variants) {
        Ok(()) => {},
        Err(e) => {
            return Err(e);
        },
    }
    let arms: Vec<VariantRead> = match read_variants(variants, false) {
        Ok(arms) => arms,
        Err(e) => {
            return Err(e);
        },
    };
    let rest_arms: Vec<VariantRead> = match read_variants(variants, true) {
        Ok(arms) => arms,
        Err(e) => {
            return Err(e);
        },
    };
    if arms.len() == 0 {
        return Err(DeriveError::NoVariants);
    }
    let needs_recursive_count: bool = any_field_list(variants);
    let count: u64 = arms.len() as u64;
    Ok((ReadPlan::Enum { count, arms, rest_arms }, needs_recursive_count))
}

/// How a type is read, and whether reading it needs a recursion count. Only an
/// enum of variants without field lists needs none: it cannot contain itself.
pub fn gen_arbitrary_method(data: &Data) -> (r: Result<(ReadPlan, bool), DeriveError>)
    ensures
        read_result(r, *data),
{
    match data {
        Data::Struct(fields) => arbitrary_structlike(fields),
        Data::Union(fields) => {
            let named: Fields = input::named_fields(fields);
            arbitrary_structlike(&named)
        },
        Data::Enum(variants) => arbitrary_enum(variants),
    }
}

} // verus!
