use arbitrary::derive::bounds::BoundChange;
use arbitrary::derive::expand::{
    expand_derive_arbitrary, expand_derive_dearbitrary, recursive_count_name, unraw,
};
use arbitrary::derive::hinting::{FieldHint, HintPlan};
use arbitrary::derive::input::{
    Data, DeriveError, DeriveInput, FieldConstructor, Fields, Param, Variant,
};
use arbitrary::derive::reading::{
    check_variant_attrs, construct, construct_take_rest, gen_arbitrary_method, Construct,
    FieldRead, ReadPlan,
};
use arbitrary::derive::selector::{variant_index, variant_selector};
use arbitrary::derive::writing::{writes_rest_last, WritePlan};
use arbitrary::{Arbitrary, Dearbitrary, Structured, Unstructured};

const ARBITRARY: Option<FieldConstructor> = Some(FieldConstructor::Arbitrary);
const DEFAULT: Option<FieldConstructor> = Some(FieldConstructor::Default);
const WITH: Option<FieldConstructor> = Some(FieldConstructor::With);
const VALUE: Option<FieldConstructor> = Some(FieldConstructor::Value);

fn variant(fields: Fields) -> Variant {
    Variant { fields, skipped: false, attributes: vec![] }
}

fn skipped(fields: Fields) -> Variant {
    Variant { fields, skipped: true, attributes: vec![Some(String::from("arbitrary"))] }
}

fn input(data: Data) -> DeriveInput {
    DeriveInput { ident: String::from("Thing"), params: vec![], bounds: None, data }
}

fn reads(c: &Construct) -> Vec<FieldRead> {
    match c {
        Construct::Named(r) => r.to_vec(),
        Construct::Unnamed(r) => r.to_vec(),
        Construct::Unit => vec![],
    }
}

#[test]
fn selectors_choose_their_variants() {
    assert_eq!(variant_selector(0, 1), 0);
    assert_eq!(variant_selector(0, 2), 0x4000_0000);
    assert_eq!(variant_selector(1, 2), 0xC000_0000);
    assert_eq!(variant_selector(1, 3), 0x8000_0000);
    for count in [1u64, 2, 3, 7, 256, 1000] {
        for index in 0..count {
            assert_eq!(variant_index(variant_selector(index, count), count), index);
        }
    }
    let most = 0x8000_0000u64;
    for index in [0, 1, most / 2, most - 1] {
        assert_eq!(variant_index(variant_selector(index, most), most), index);
    }
    assert_eq!(variant_index(u32::MAX, 3), 2);
}

#[test]
fn fields_are_read_by_their_constructors() {
    let fields = Fields::Named(vec![ARBITRARY, DEFAULT, WITH, VALUE, ARBITRARY]);
    let c = construct(&fields, None).unwrap();
    assert!(matches!(c, Construct::Named(_)));
    assert_eq!(
        reads(&c),
        vec![
            FieldRead::Arbitrary,
            FieldRead::Default,
            FieldRead::With,
            FieldRead::Value,
            FieldRead::Arbitrary,
        ],
    );
    let c = construct_take_rest(&fields, None).unwrap();
    assert_eq!(
        reads(&c),
        vec![
            FieldRead::Arbitrary,
            FieldRead::Default,
            FieldRead::With,
            FieldRead::Value,
            FieldRead::TakeRest,
        ],
    );
    let c = construct_take_rest(&Fields::Unnamed(vec![ARBITRARY, DEFAULT]), None).unwrap();
    assert!(matches!(c, Construct::Unnamed(_)));
    assert_eq!(reads(&c), vec![FieldRead::Arbitrary, FieldRead::Default]);
    assert!(matches!(construct(&Fields::Unit, None), Ok(Construct::Unit)));
}

#[test]
fn the_first_invalid_field_is_reported() {
    let fields = Fields::Unnamed(vec![ARBITRARY, None, None]);
    let expected = DeriveError::Field { variant: Some(4), index: 1 };
    assert_eq!(construct(&fields, Some(4)).unwrap_err(), expected);
    let derived = expand_derive_arbitrary(&input(Data::Struct(fields)));
    assert_eq!(derived.unwrap_err(), DeriveError::Field { variant: None, index: 1 });
    let written = expand_derive_dearbitrary(&input(Data::Struct(Fields::Named(vec![None]))));
    assert_eq!(written.unwrap_err(), DeriveError::Field { variant: None, index: 0 });
}

#[test]
fn structs_write_what_they_read() {
    let thing = input(Data::Struct(Fields::Named(vec![DEFAULT, ARBITRARY, VALUE, WITH])));
    let derived = expand_derive_arbitrary(&thing).unwrap();
    assert_eq!(derived.recursive_count.as_deref(), Some("RECURSIVE_COUNT_Thing"));
    match derived.hint {
        HintPlan::Structlike(hints) => assert_eq!(
            hints,
            vec![FieldHint::Zero, FieldHint::TypeHint, FieldHint::Zero, FieldHint::SizeOf],
        ),
        other => panic!("unexpected {:?}", other),
    }
    match expand_derive_dearbitrary(&thing).unwrap().write {
        WritePlan::Structlike { writes, rest_last } => {
            assert_eq!(writes, vec![1, 3]);
            assert!(!rest_last);
        }
        other => panic!("unexpected {:?}", other),
    }
}

#[test]
fn unions_are_read_like_named_fields() {
    let thing = input(Data::Union(vec![ARBITRARY]));
    match expand_derive_arbitrary(&thing).unwrap().read {
        ReadPlan::Structlike { arbitrary, take_rest } => {
            assert!(matches!(arbitrary, Construct::Named(_)));
            assert_eq!(reads(&take_rest), vec![FieldRead::TakeRest]);
        }
        other => panic!("unexpected {:?}", other),
    }
    assert!(expand_derive_dearbitrary(&thing).is_ok());
}

#[test]
fn enums_number_the_variants_that_are_not_skipped() {
    let thing = input(Data::Enum(vec![
        variant(Fields::Unit),
        skipped(Fields::Unnamed(vec![None])),
        variant(Fields::Unnamed(vec![ARBITRARY, DEFAULT])),
    ]));
    let derived = expand_derive_arbitrary(&thing).unwrap();
    assert!(derived.recursive_count.is_some());
    match derived.read {
        ReadPlan::Enum { count, arms, rest_arms } => {
            assert_eq!(count, 2);
            let places: Vec<(u64, usize)> = arms.iter().map(|a| (a.index, a.variant)).collect();
            assert_eq!(places, vec![(0, 0), (1, 2)]);
            assert!(matches!(arms[0].construct, Construct::Unit));
            assert_eq!(
                reads(&rest_arms[1].construct),
                vec![FieldRead::Arbitrary, FieldRead::Default],
            );
        }
        other => panic!("unexpected {:?}", other),
    }
    match derived.hint {
        HintPlan::Enum(hints) => {
            assert_eq!(hints.len(), 2);
            assert_eq!((hints[0].variant, hints[1].variant), (0, 2));
            assert_eq!(hints[0].hints, Vec::<FieldHint>::new());
            assert_eq!(hints[1].hints, vec![FieldHint::TypeHint, FieldHint::Zero]);
        }
        other => panic!("unexpected {:?}", other),
    }
    match expand_derive_dearbitrary(&thing).unwrap().write {
        WritePlan::Enum(arms) => {
            assert_eq!(arms.len(), 2);
            assert_eq!((arms[0].variant, arms[0].selector), (0, 0x4000_0000));
            assert_eq!((arms[1].variant, arms[1].selector), (2, 0xC000_0000));
            assert_eq!(arms[0].writes, Vec::<usize>::new());
            assert_eq!(arms[1].writes, vec![0]);
            assert!(!arms[0].rest_last && !arms[1].rest_last);
        }
        other => panic!("unexpected {:?}", other),
    }
}

#[test]
fn fieldless_enums_need_no_recursion_count() {
    let thing = input(Data::Enum(vec![variant(Fields::Unit), variant(Fields::Unit)]));
    let derived = expand_derive_arbitrary(&thing).unwrap();
    assert!(derived.recursive_count.is_none());
    assert!(matches!(derived.hint, HintPlan::SelectorOnly));
    let listed = Data::Enum(vec![variant(Fields::Named(vec![]))]);
    assert!(gen_arbitrary_method(&listed).unwrap().1);
}

#[test]
fn enums_without_variants_are_refused() {
    let empty = input(Data::Enum(vec![]));
    assert_eq!(expand_derive_arbitrary(&empty).unwrap_err(), DeriveError::NoVariants);
    assert_eq!(expand_derive_dearbitrary(&empty).unwrap_err(), DeriveError::NoVariants);
    let all_skipped = input(Data::Enum(vec![skipped(Fields::Unit)]));
    assert_eq!(expand_derive_arbitrary(&all_skipped).unwrap_err(), DeriveError::NoVariants);
    assert_eq!(expand_derive_dearbitrary(&all_skipped).unwrap_err(), DeriveError::NoVariants);
}

#[test]
fn variants_cannot_carry_the_attribute() {
    let marked = Variant {
        fields: Fields::Unit,
        skipped: false,
        attributes: vec![None, Some(String::from("doc")), Some(String::from("arbitrary"))],
    };
    let expected = DeriveError::VariantAttribute { position: 1, attribute: 2 };
    assert_eq!(check_variant_attrs(&marked, 1).unwrap_err(), expected);
    assert!(check_variant_attrs(&variant(Fields::Unit), 0).is_ok());
    let thing = input(Data::Enum(vec![variant(Fields::Unnamed(vec![None])), marked]));
    assert_eq!(expand_derive_arbitrary(&thing).unwrap_err(), expected);
}

#[test]
fn type_parameters_are_bounded() {
    let mut thing = input(Data::Struct(Fields::Unit));
    thing.params = vec![
        Param::Lifetime,
        Param::Type(String::from("T")),
        Param::Const,
        Param::Lifetime,
        Param::Type(String::from("U")),
    ];
    let derived = expand_derive_arbitrary(&thing).unwrap();
    assert_eq!(derived.lifetimes, vec![0, 3]);
    let bounded = vec![
        BoundChange::Keep,
        BoundChange::AddBound,
        BoundChange::Keep,
        BoundChange::Keep,
        BoundChange::AddBound,
    ];
    assert_eq!(derived.params, bounded);
    assert_eq!(expand_derive_dearbitrary(&thing).unwrap().params, bounded);

    thing.bounds = Some(vec![String::from("U")]);
    assert_eq!(
        expand_derive_arbitrary(&thing).unwrap().params,
        vec![
            BoundChange::Keep,
            BoundChange::Clear,
            BoundChange::Keep,
            BoundChange::Keep,
            BoundChange::Replace(0),
        ],
    );
    assert_eq!(
        expand_derive_dearbitrary(&thing).unwrap().params,
        vec![BoundChange::Keep; 5],
    );
}

#[test]
fn bounds_that_do_not_apply_are_refused() {
    let mut thing = input(Data::Struct(Fields::Unit));
    thing.params = vec![Param::Type(String::from("T"))];
    thing.bounds = Some(vec![String::from("T"), String::from("V")]);
    let expected = DeriveError::TooManyBounds { applied: 1, supplied: 2 };
    assert_eq!(expand_derive_arbitrary(&thing).unwrap_err(), expected);
    thing.bounds = Some(vec![String::from("T"), String::from("T")]);
    assert_eq!(expand_derive_arbitrary(&thing).unwrap_err(), expected);
    thing.data = Data::Enum(vec![]);
    assert_eq!(expand_derive_arbitrary(&thing).unwrap_err(), DeriveError::NoVariants);
}

#[test]
fn recursion_counts_are_named_after_the_type() {
    assert_eq!(unraw(&String::from("r#type")), "type");
    assert_eq!(unraw(&String::from("rust")), "rust");
    assert_eq!(unraw(&String::from("r#\u{e9}t\u{e9}")), "\u{e9}t\u{e9}");
    assert_eq!(recursive_count_name(&String::from("r#type")), "RECURSIVE_COUNT_type");
}

#[test]
fn written_variants_are_read_back() {
    let thing = input(Data::Enum(vec![
        variant(Fields::Unit),
        variant(Fields::Unnamed(vec![ARBITRARY, DEFAULT, ARBITRARY])),
        skipped(Fields::Unit),
        variant(Fields::Named(vec![VALUE])),
    ]));
    let WritePlan::Enum(writes) = expand_derive_dearbitrary(&thing).unwrap().write else {
        panic!("an enum is written by its variants");
    };
    let ReadPlan::Enum { count, arms, .. } = expand_derive_arbitrary(&thing).unwrap().read else {
        panic!("an enum is read by its variants");
    };
    let fields = (7u16, String::from("held"));
    for (written, read) in writes.iter().zip(&arms) {
        let mut s = Structured::new();
        written.selector.write_to(&mut s);
        for position in &written.writes {
            match position {
                0 => fields.0.write_to(&mut s),
                _ => fields.1.write_to(&mut s),
            }
        }
        let bytes = s.into_bytes();
        let mut u = Unstructured::new(&bytes);
        let selector = u32::arbitrary(&mut u).unwrap();
        assert_eq!(variant_index(selector, count), read.index);
        assert_eq!(written.variant, read.variant);
        for (position, how) in reads(&read.construct).iter().enumerate() {
            if *how == FieldRead::Arbitrary {
                match position {
                    0 => assert_eq!(u16::arbitrary(&mut u).unwrap(), fields.0),
                    _ => assert_eq!(String::arbitrary(&mut u).unwrap(), fields.1),
                }
            }
        }
        assert!(u.is_empty());
    }
}

#[test]
fn the_last_field_is_written_for_all_that_is_left() {
    assert!(writes_rest_last(&Fields::Named(vec![DEFAULT, ARBITRARY])));
    assert!(writes_rest_last(&Fields::Unnamed(vec![ARBITRARY])));
    assert!(!writes_rest_last(&Fields::Unnamed(vec![ARBITRARY, WITH])));
    assert!(!writes_rest_last(&Fields::Unnamed(vec![ARBITRARY, VALUE])));
    assert!(!writes_rest_last(&Fields::Named(vec![])));
    assert!(!writes_rest_last(&Fields::Unit));
    let thing = input(Data::Enum(vec![
        variant(Fields::Unit),
        variant(Fields::Unnamed(vec![ARBITRARY, ARBITRARY])),
    ]));
    match expand_derive_dearbitrary(&thing).unwrap().write {
        WritePlan::Enum(arms) => {
            assert!(!arms[0].rest_last);
            assert!(arms[1].rest_last);
        }
        other => panic!("unexpected {:?}", other),
    }
}

#[test]
fn fields_read_back_where_all_the_data_is_theirs() {
    assert!(writes_rest_last(&Fields::Named(vec![ARBITRARY, ARBITRARY, ARBITRARY])));
    let head = [0xFEu8; 100];
    for len in [0usize, 2, 100, 150, 151, 152, 153, 154, 155, 156, 200, 255, 256, 400] {
        for name in ["", "hi"] {
            let body = vec![7u8; len];
            let name = String::from(name);
            let mut s = Structured::new();
            head.write_to(&mut s);
            body.write_to(&mut s);
            name.write_take_rest_to(&mut s);
            let bytes = s.into_bytes();
            let mut u = Unstructured::new(&bytes);
            assert_eq!(<[u8; 100]>::arbitrary(&mut u).unwrap(), head);
            assert_eq!(Vec::<u8>::arbitrary(&mut u).unwrap(), body);
            assert_eq!(String::arbitrary_take_rest(u).unwrap(), name);
        }
    }
}

#[test]
fn a_number_and_a_string_read_back_as_an_element() {
    let mut s = Structured::new_with_depth(1);
    1u8.write_to(&mut s);
    String::from("hi").write_take_rest_to(&mut s);
    let bytes = s.into_bytes();
    assert_eq!(bytes, vec![1, 104, 105]);
    let mut u = Unstructured::new_with_depth(&bytes, 1);
    assert_eq!(u8::arbitrary(&mut u).unwrap(), 1);
    assert_eq!(String::arbitrary_take_rest(u).unwrap(), "hi");
}
