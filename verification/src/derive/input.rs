//! The type that an implementation is derived for.

use vstd::prelude::*;

verus! {

/// How a field gets its value.
#[derive(Clone, Copy, Debug, PartialEq, Eq, Structural)]
pub enum FieldConstructor {
    /// By `Default::default()`.
    Default,
    /// By `Arbitrary::arbitrary`.
    Arbitrary,
    /// By a function or closure of the user's.
    With,
    /// By an expression of the user's.
    Value,
}

/// The fields of a struct or a variant, each with its constructor. `None` stands
/// for a field whose attributes are invalid.
#[derive(Debug)]
pub enum Fields {
    /// Fields in braces.
    Named(Vec<Option<FieldConstructor>>),
    /// Fields in parentheses.
    Unnamed(Vec<Option<FieldConstructor>>),
    /// No field list at all.
    Unit,
}

impl Fields {
    /// The constructors, in the order of the fields.
    pub open spec fn constructors(self) -> Seq<Option<FieldConstructor>> {
        match self {
            Fields::Named(c) => c@,
            Fields::Unnamed(c) => c@,
            Fields::Unit => Seq::empty(),
        }
    }
}

/// A variant of an enum.
#[derive(Debug)]
pub struct Variant {
    /// The fields.
    pub fields: Fields,
    /// Whether the variant is left out of what is read and written.
    pub skipped: bool,
    /// The names of the variant's attributes, in order. `None` stands for an
    /// attribute whose path is not a single identifier.
    pub attributes: Vec<Option<String>>,
}

/// The body of the type.
#[derive(Debug)]
pub enum Data {
    /// A struct.
    Struct(Fields),
    /// An enum.
    Enum(Vec<Variant>),
    /// A union, whose fields are always named.
    Union(Vec<Option<FieldConstructor>>),
}

/// A generic parameter of the type.
#[derive(Debug)]
pub enum Param {
    /// A lifetime.
    Lifetime,
    /// A type parameter, by its name.
    Type(String),
    /// A const parameter.
    Const,
}

/// A type that an implementation is derived for.
#[derive(Debug)]
pub struct DeriveInput {
    /// The type's name.
    pub ident: String,
    /// The generic parameters, in order.
    pub params: Vec<Param>,
    /// The names of the type parameters that the `bound` attribute gives, in
    /// order, where there is such an attribute.
    pub bounds: Option<Vec<String>>,
    /// The body.
    pub data: Data,
}

/// Why no implementation can be derived.
#[derive(Clone, Copy, Debug, PartialEq, Eq, Structural)]
pub enum DeriveError {
    /// The attributes of a field are invalid. `variant` is the position of its
    /// variant in an enum.
    Field {
        /// The position of the variant, for a field of an enum.
        variant: Option<usize>,
        /// The position of the field.
        index: usize,
    },
    /// A variant carries an `arbitrary` attribute, which only fields can.
    VariantAttribute {
        /// The position of the variant.
        position: usize,
        /// The position of the attribute.
        attribute: usize,
    },
    /// An enum has no variant that is not skipped.
    NoVariants,
    /// Bounds are given for what is no type parameter, or twice.
    TooManyBounds {
        /// How many type parameters got their bounds replaced.
        applied: usize,
        /// How many bounds were given.
        supplied: usize,
    },
}

/// The positions of the variants that are not skipped.
pub open spec fn kept(variants: Seq<Variant>) -> Seq<nat>
    decreases variants.len(),
{
    if variants.len() == 0 {
        Seq::empty()
    } else {
        let before = kept(variants.drop_last());
        if variants.last().skipped {
            before
        } else {
            before.push((variants.len() - 1) as nat)
        }
    }
}

/// The kept variants are in range and not skipped, and every variant that is not
/// skipped is among them.
pub proof fn lemma_kept(variants: Seq<Variant>)
    ensures
        kept(variants).len() <= variants.len(),
        forall|k: int|
            0 <= k < kept(variants).len() ==> (#[trigger] kept(variants)[k]) < variants.len()
                && !variants[kept(variants)[k] as int].skipped,
        forall|v: int|
            0 <= v < variants.len() && !(#[trigger] variants[v]).skipped ==> kept(
                variants,
            ).contains(v as nat),
    decreases variants.len(),
{
    if variants.len() > 0 {
        let b = variants.drop_last();
        lemma_kept(b);
        let ks = kept(variants);
        assert forall|k: int| 0 <= k < ks.len() implies (#[trigger] ks[k]) < variants.len()
            && !variants[ks[k] as int].skipped by {
            if k < kept(b).len() {
                assert(ks[k] == kept(b)[k]);
                assert(b[ks[k] as int] == variants[ks[k] as int]);
            }
        }
        assert forall|v: int|
            0 <= v < variants.len() && !(#[trigger] variants[v]).skipped implies ks.contains(
            v as nat,
        ) by {
            if v < b.len() {
                assert(b[v] == variants[v]);
                assert(kept(b).contains(v as nat));
                let k = choose|k: int| 0 <= k < kept(b).len() && kept(b)[k] == v as nat;
                assert(ks[k] == v as nat);
            } else {
                assert(ks[ks.len() - 1] == v as nat);
            }
        }
    }
}

/// One more variant.
pub proof fn lemma_kept_step(variants: Seq<Variant>, i: int)
    requires
        0 <= i < variants.len(),
    ensures
        kept(variants.take(i + 1)) == if variants[i].skipped {
            kept(variants.take(i))
        } else {
            kept(variants.take(i)).push(i as nat)
        },
{
    assert(variants.take(i + 1).drop_last() =~= variants.take(i));
}

/// The fields of a union as a list of named fields.
pub fn named_fields(constructors: &Vec<Option<FieldConstructor>>) -> (r: Fields)
    ensures
        r is Named,
        r.constructors() == constructors@,
{
    let mut copy: Vec<Option<FieldConstructor>> = Vec::new();
    let mut i: usize = 0;
    while i < constructors.len()
        invariant
            i <= constructors.len(),
            copy@ == constructors@.take(i as int),
        decreases constructors.len() - i,
    {
        copy.push(constructors[i]);
        i += 1;
    }
    Fields::Named(copy)
}

/// Whether field `index` is the first with invalid attributes.
pub open spec fn first_invalid(constructors: Seq<Option<FieldConstructor>>, index: int) -> bool {
    &&& 0 <= index < constructors.len()
    &&& constructors[index] is None
    &&& forall|j: int| 0 <= j < index ==> (#[trigger] constructors[j]) is Some
}

/// Whether the attributes of all fields are valid.
pub open spec fn all_valid(constructors: Seq<Option<FieldConstructor>>) -> bool {
    forall|j: int| 0 <= j < constructors.len() ==> (#[trigger] constructors[j]) is Some
}

} // verus!
