use arbitrary::scalars::{F32Bits, F64Bits};
use arbitrary::{Arbitrary, Dearbitrary, Error, Unstructured};
use std::rc::Rc;
use std::sync::Arc;

fn roundtrip<T: Dearbitrary + PartialEq + std::fmt::Debug>(value: &T) {
    let bytes = value.to_arbitrary_bytes();
    let mut u = Unstructured::new(&bytes);
    let parsed = T::arbitrary(&mut u).unwrap();
    assert_eq!(value, &parsed, "roundtrip failed: bytes={:?}", bytes);
}

fn parsed<T: Dearbitrary>(value: &T) -> T {
    let bytes = value.to_arbitrary_bytes();
    T::arbitrary(&mut Unstructured::new(&bytes)).unwrap()
}

#[test]
fn roundtrip_integers() {
    roundtrip(&42u8);
    roundtrip(&0u8);
    roundtrip(&255u8);
    roundtrip(&1234u16);
    roundtrip(&0xDEADBEEFu32);
    roundtrip(&0i32);
    roundtrip(&-1i32);
    roundtrip(&i64::MIN);
    roundtrip(&i64::MAX);
    roundtrip(&42usize);
    roundtrip(&42isize);
}

#[test]
fn roundtrip_floats() {
    roundtrip(&F32Bits { bits: 3.14f32.to_bits() });
    roundtrip(&F64Bits { bits: 0.0f64.to_bits() });
    roundtrip(&F64Bits { bits: f64::INFINITY.to_bits() });

    assert_eq!(f32::from_bits(parsed(&F32Bits { bits: 3.14f32.to_bits() }).bits), 3.14f32);
    assert_eq!(f64::from_bits(parsed(&F64Bits { bits: 0.0f64.to_bits() }).bits), 0.0f64);
    let infinity = F64Bits { bits: f64::INFINITY.to_bits() };
    assert_eq!(f64::from_bits(parsed(&infinity).bits), f64::INFINITY);
}

#[test]
fn roundtrip_bool() {
    roundtrip(&true);
    roundtrip(&false);
}

#[test]
fn roundtrip_option() {
    roundtrip(&Some(42u32));
    roundtrip(&None::<u32>);
}

#[test]
fn roundtrip_string() {
    roundtrip(&String::from(""));
    roundtrip(&String::from("hello"));
    roundtrip(&String::from("hello world, this is a longer string!"));
}

#[test]
fn roundtrip_vec_u8() {
    roundtrip(&vec![1u8, 2, 3, 4, 5]);
    roundtrip(&Vec::<u8>::new());
    roundtrip(&vec![0u8; 100]);
}

#[test]
fn roundtrip_vec_u32() {
    roundtrip(&vec![1u32, 2, 3]);
    roundtrip(&Vec::<u32>::new());
    roundtrip(&vec![0xDEADBEEFu32]);
}

#[test]
fn roundtrip_vec_string() {
    roundtrip(&vec![String::from("hello"), String::from("world")]);
    roundtrip(&Vec::<String>::new());
    roundtrip(&vec![String::from("")]);
}

#[test]
fn roundtrip_nested_vec() {
    roundtrip(&vec![vec![1u8, 2], vec![3u8, 4]]);
    roundtrip(&vec![vec![vec![1u8]]]);
    roundtrip(&Vec::<Vec<u8>>::new());
}

#[test]
fn roundtrip_tuple() {
    roundtrip(&(1u8, 2u16, 3u32));
    roundtrip(&(true, 42u8));
}

#[test]
fn roundtrip_array() {
    roundtrip(&[1u8, 2, 3]);
    roundtrip(&[0u32; 0]);
    roundtrip(&[42u64; 3]);
}

#[test]
fn roundtrip_box() {
    roundtrip(&Box::new(42u32));
}

#[test]
fn roundtrip_all_integer_widths() {
    roundtrip(&i8::MIN);
    roundtrip(&i16::MIN);
    roundtrip(&i128::MIN);
    roundtrip(&u128::MAX);
    roundtrip(&u64::MAX);
    roundtrip(&usize::MAX);
    roundtrip(&isize::MIN);
}

#[test]
fn roundtrip_char_and_unit() {
    roundtrip(&'a');
    roundtrip(&'\u{D7FF}');
    roundtrip(&'\u{E000}');
    roundtrip(&char::MAX);
    roundtrip(&());
}

#[test]
fn roundtrip_results_and_pointers() {
    roundtrip(&Ok::<u8, u16>(7));
    roundtrip(&Err::<u8, u16>(700));
    roundtrip(&Rc::new(5u16));
    roundtrip(&Arc::new(String::from("shared")));
}

#[test]
fn roundtrip_text_with_long_encodings() {
    roundtrip(&String::from("\u{e9}\u{20ac}\u{1f980}"));
    roundtrip(&vec![String::from("\u{1f980}"), String::new(), String::from("z")]);
}

#[test]
fn roundtrip_widest_tuple() {
    roundtrip(&(
        1u8,
        String::from("two"),
        3u32,
        Some(4u64),
        vec![5u16],
        6i8,
        7i16,
        true,
        'n',
        [10u8; 2],
        (),
        Box::new(12u8),
    ));
}

#[test]
fn roundtrip_around_suffix_widths() {
    for len in [254usize, 255, 256, 257, 258, 300, 65534, 65535, 65536, 65537, 65538] {
        roundtrip(&vec![7u8; len]);
    }
}

#[test]
fn roundtrip_several_collections_beyond_one_byte_suffixes() {
    roundtrip(&(vec![1u8; 250], vec![2u8; 10]));
    roundtrip(&(vec![1u8; 200], vec![2u8; 5], vec![3u8; 3], [4u8; 100]));
    roundtrip(&([1u8; 300], vec![2u8; 10], vec![3u8; 10]));
    roundtrip(&(vec![1u8; 300], vec![2u8; 300]));
    for first in 240usize..265 {
        for second in [0usize, 1, 5, 250, 255, 256, 257] {
            roundtrip(&(9u16, vec![1u8; first], 8u32, vec![2u8; second], String::from("end")));
        }
    }
}

#[test]
fn roundtrip_collections_of_composite_elements() {
    roundtrip(&vec![(1u8, vec![2u8, 3]), (4u8, vec![])]);
    roundtrip(&vec![Some(String::from("a")), None, Some(String::new())]);
    roundtrip(&vec![vec![String::from("x"), String::new()], vec![String::from("y")]]);
    roundtrip(&vec![(vec![1u8; 250], vec![2u8; 10]); 3]);
}

#[test]
fn scalars_have_fixed_bytes() {
    assert_eq!(0xDEADBEEFu32.to_arbitrary_bytes(), vec![0xEF, 0xBE, 0xAD, 0xDE]);
    assert_eq!((-2i16).to_arbitrary_bytes(), vec![0xFE, 0xFF]);
    assert_eq!(1usize.to_arbitrary_bytes(), vec![1, 0, 0, 0, 0, 0, 0, 0]);
    assert_eq!((-1isize).to_arbitrary_bytes(), vec![0xFF; 8]);
    assert_eq!(true.to_arbitrary_bytes(), vec![1]);
    assert_eq!('a'.to_arbitrary_bytes(), vec![0x61, 0, 0, 0]);
    assert_eq!(Some(3u8).to_arbitrary_bytes(), vec![1, 3]);
    assert_eq!(None::<u8>.to_arbitrary_bytes(), vec![0]);
    assert_eq!(Ok::<u8, u8>(3).to_arbitrary_bytes(), vec![1, 3]);
    assert_eq!(Err::<u8, u8>(3).to_arbitrary_bytes(), vec![0, 3]);
    assert_eq!(().to_arbitrary_bytes(), Vec::<u8>::new());
    assert_eq!(F32Bits { bits: 1.0f32.to_bits() }.to_arbitrary_bytes(), vec![0, 0, 0x80, 0x3F]);
    assert_eq!((1u8, 2u16).to_arbitrary_bytes(), vec![1, 2, 0]);
    assert_eq!([1u16, 2].to_arbitrary_bytes(), vec![1, 0, 2, 0]);
}

#[test]
fn collections_have_fixed_bytes() {
    assert_eq!(vec![1u8, 2, 3].to_arbitrary_bytes(), vec![1, 2, 3, 3]);
    assert_eq!(Vec::<u8>::new().to_arbitrary_bytes(), vec![0]);
    assert_eq!(String::from("hi").to_arbitrary_bytes(), vec![b'h', b'i', 2]);
    assert_eq!(vec![1u16].to_arbitrary_bytes(), vec![1, 0, 2]);
    assert_eq!(
        vec![String::from("a"), String::new()].to_arbitrary_bytes(),
        vec![b'a', 0xFE, 0xED, 0xFA, 0, 0xFF, 6],
    );
    assert_eq!(
        vec![vec![1u8], vec![2u8]].to_arbitrary_bytes(),
        vec![1, 0xFE, 0xED, 0xFA, 0, 2, 6],
    );
    assert_eq!((vec![1u8], vec![2u8, 2]).to_arbitrary_bytes(), vec![1, 2, 2, 2, 1]);
}

#[test]
fn long_collections_have_wide_suffixes() {
    let bytes = vec![0u8; 256].to_arbitrary_bytes();
    assert_eq!(bytes.len(), 258);
    assert_eq!(&bytes[256..], &[1, 0]);
    let bytes = vec![0u8; 65536].to_arbitrary_bytes();
    assert_eq!(bytes.len(), 65540);
    assert_eq!(&bytes[65536..], &[0, 1, 0, 0]);
    let bytes = ([0u8; 100], vec![0u8; 200]).to_arbitrary_bytes();
    assert_eq!(&bytes[300..], &[0, 200]);
    let bytes = (vec![0u8; 250], vec![0u8; 10]).to_arbitrary_bytes();
    assert_eq!(&bytes[260..], &[10, 0, 250]);
    let bytes = ([0u8; 300], vec![0u8; 10], vec![0u8; 10]).to_arbitrary_bytes();
    assert_eq!(&bytes[320..], &[10, 10]);
}

#[test]
fn roundtrip_elements_that_take_no_bytes() {
    roundtrip(&vec![Vec::<u8>::new()]);
    roundtrip(&vec![vec![], vec![1u8], vec![]]);
    roundtrip(&vec![Vec::<Vec<u8>>::new(), vec![vec![]]]);
    roundtrip(&vec![(); 3]);
    roundtrip(&vec![[0u8; 0]; 2]);
    assert_eq!(Vec::<Vec<u8>>::new().to_arbitrary_bytes(), vec![0]);
    assert_eq!(
        vec![Vec::<u8>::new()].to_arbitrary_bytes(),
        vec![0xFE, 0xED, 0xFA, 0, 0xFD, 5],
    );
}

#[test]
fn roundtrip_elements_that_hold_separators() {
    let one = vec![vec![1u8, 0xFE, 0xED, 0xFA, 0, 2]];
    let two = vec![vec![1u8], vec![2u8]];
    roundtrip(&one);
    roundtrip(&two);
    assert_ne!(one.to_arbitrary_bytes(), two.to_arbitrary_bytes());
    assert_eq!(
        one.to_arbitrary_bytes(),
        vec![0xFE, 0xED, 0xFA, 0, 1, 0xFD, 1, 0xED, 0xFA, 0, 2, 11],
    );
    roundtrip(&vec![Some(0x00FAEDFEu32), None, Some(0xFEEDFA00)]);
    roundtrip(&vec![vec![0xFEu8, 0xED, 0xFA], vec![0xFE, 0xED, 0xFA, 0]]);
    roundtrip(&vec![vec![vec![0xFEu8, 0xED, 0xFA, 1], vec![]], vec![vec![0xFE; 9]]]);
}

#[test]
fn other_elements_are_written_as_they_are() {
    for bytes in [
        vec![0xFDu8],
        vec![0xFD, 0xED, 0xFA, 0xDE],
        vec![0xFD, 0, 0xFD, 1],
        vec![0xFE, 0xED, 0xFA],
        vec![0xFE, 0xED, 0xFA, 1],
        vec![0xFE],
    ] {
        let mut expected = bytes.clone();
        expected.push(bytes.len() as u8);
        let v = vec![bytes];
        assert_eq!(v.to_arbitrary_bytes(), expected);
        roundtrip(&v);
    }
    let mixed = vec![vec![0xFDu8, 0xFE], vec![], vec![0xFE, 0xFD]];
    assert_eq!(
        mixed.to_arbitrary_bytes(),
        vec![
            0xFD, 0xFE, // as it is
            0xFE, 0xED, 0xFA, 0, // between
            0xFE, 0xED, 0xFA, 0, 0xFD, // an empty one
            0xFE, 0xED, 0xFA, 0, // between
            0xFE, 0xFD, // as it is
            17,
        ],
    );
    roundtrip(&mixed);
}

#[test]
fn take_rest_needs_no_suffix() {
    let u = Unstructured::new(&[1, 2, 3]);
    assert_eq!(Vec::<u8>::arbitrary_take_rest(u).unwrap(), vec![1, 2, 3]);
    let u = Unstructured::new(b"abc");
    assert_eq!(String::arbitrary_take_rest(u).unwrap(), "abc");
    let u = Unstructured::new(&[0xFF]);
    assert_eq!(String::arbitrary_take_rest(u).unwrap(), "");
    let u = Unstructured::new(&[b'o', b'k', 0xC3, 0x28]);
    assert_eq!(String::arbitrary_take_rest(u).unwrap(), "ok");
}

#[test]
fn missing_bytes_read_as_zero() {
    assert_eq!(u32::arbitrary(&mut Unstructured::new(&[7, 1])).unwrap(), 0x107);
    assert_eq!(bool::arbitrary(&mut Unstructured::new(&[])).unwrap(), false);
    assert_eq!(Option::<u8>::arbitrary(&mut Unstructured::new(&[])).unwrap(), None);
    assert_eq!(String::arbitrary(&mut Unstructured::new(&[])).unwrap(), "");
    assert_eq!(<[u8; 3]>::arbitrary(&mut Unstructured::new(&[5])).unwrap(), [5, 0, 0]);
}

#[test]
fn numbers_that_are_no_char_are_replaced() {
    let surrogate = 0xD800u32.to_arbitrary_bytes();
    assert_eq!(char::arbitrary(&mut Unstructured::new(&surrogate)).unwrap(), '\u{FFFD}');
}

#[test]
fn bytes_beyond_the_data_are_an_error() {
    let mut u = Unstructured::new(&[1, 2]);
    assert_eq!(u.bytes(3), Err(Error::NotEnoughData));
    assert_eq!(u.len(), 2);
    assert_eq!(u.bytes(2).unwrap(), &[1, 2]);
    assert!(u.is_empty());
}

#[test]
fn size_hints_bound_what_is_written() {
    assert_eq!(<(u8, u32)>::size_hint(0), (5, Some(5)));
    assert_eq!(Option::<u16>::size_hint(0), (1, Some(3)));
    assert_eq!(<[u16; 3]>::size_hint(0), (6, Some(6)));
    assert_eq!(Vec::<u8>::size_hint(0), (0, None));
    let len = Some(9u16).to_arbitrary_bytes().len();
    assert!(1 <= len && len <= 3);
}
