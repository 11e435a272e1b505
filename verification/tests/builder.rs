use arbitrary::collections::build_collection_bytes;
use arbitrary::guard::{guard_chunk, take_apart};
use arbitrary::separator::separator_for_depth;
use arbitrary::suffix::encode_byte_size;
use arbitrary::{Dearbitrary, Structured, Unstructured};

#[test]
fn encode_byte_size_roundtrip() {
    // Build a buffer with a known byte_size suffix, then verify
    // arbitrary_byte_size reads it back correctly.
    for desired in [0, 1, 5, 10, 50, 100] {
        let content_len = desired + 20; // some padding after
        let mut s = Structured::new();
        s.write_bytes(&vec![0xAA; desired]);
        s.write_bytes(&vec![0xBB; content_len - desired]); // "other fields"
        s.write_byte_size(desired);
        let bytes = s.into_bytes();

        let mut u = Unstructured::new(&bytes);
        let read_size = u.arbitrary_byte_size();
        assert_eq!(read_size, desired, "failed for desired={desired}");
        let data = u.bytes(read_size).unwrap();
        assert_eq!(data, &vec![0xAA; desired][..]);
    }
}

#[test]
fn encode_byte_size_roundtrip_multiple() {
    // Two deferred sizes: outer reads last suffix, inner reads second-to-last.
    let mut s = Structured::new();
    s.write_bytes(&[1, 2, 3]); // outer collection data (3 bytes)
    s.write_byte_size(3);
    s.write_bytes(&[4, 5]); // inner collection data (2 bytes)
    s.write_byte_size(2);
    let bytes = s.into_bytes();

    let mut u = Unstructured::new(&bytes);
    // First arbitrary_byte_size call (outer) should return 3
    let outer_size = u.arbitrary_byte_size();
    assert_eq!(outer_size, 3);
    let outer_data = u.bytes(outer_size).unwrap();
    assert_eq!(outer_data, &[1, 2, 3]);

    // Second arbitrary_byte_size call (inner) should return 2
    let inner_size = u.arbitrary_byte_size();
    assert_eq!(inner_size, 2);
    let inner_data = u.bytes(inner_size).unwrap();
    assert_eq!(inner_data, &[4, 5]);
}

#[test]
fn padded_sizes_read_back_beyond_one_byte() {
    for desired in [200usize, 300, 50000] {
        for padding in [20usize, 100, 20000] {
            let mut s = Structured::new();
            s.write_bytes(&vec![0xAA; desired]);
            s.write_bytes(&vec![0xBB; padding]);
            s.write_byte_size(desired);
            let bytes = s.into_bytes();
            let mut u = Unstructured::new(&bytes);
            assert_eq!(u.arbitrary_byte_size(), desired);
        }
    }
}

#[test]
fn suffixes_have_the_width_of_their_buffer() {
    assert_eq!(encode_byte_size(3, 0), Vec::<u8>::new());
    assert_eq!(encode_byte_size(3, 1), vec![0]);
    assert_eq!(encode_byte_size(3, 10), vec![3]);
    assert_eq!(encode_byte_size(12, 10), vec![2]);
    assert_eq!(encode_byte_size(255, 256), vec![255]);
    assert_eq!(encode_byte_size(255, 257), vec![0, 255]);
    assert_eq!(encode_byte_size(0x1234, 65537), vec![0x12, 0x34]);
    assert_eq!(encode_byte_size(0x1234, 65538), vec![0, 0, 0x12, 0x34]);
    assert_eq!(encode_byte_size(1, 0x1_0000_0003), vec![0, 0, 0, 1]);
    assert_eq!(encode_byte_size(1, 0x1_0000_0004), vec![0, 0, 0, 0, 0, 0, 0, 1]);
}

#[test]
fn finished_buffers_hold_suffixes_in_reverse() {
    let mut s = Structured::new();
    s.write_bytes(&[1, 2, 3]);
    s.write_byte_size(3);
    s.write_bytes(&[4, 5]);
    s.write_byte_size(2);
    assert_eq!(s.content_len(), 5);
    assert_eq!(s.into_bytes(), vec![1, 2, 3, 4, 5, 2, 3]);
    assert_eq!(Structured::default().into_bytes(), Vec::<u8>::new());
}

#[test]
fn sizes_that_nothing_counts_are_reduced() {
    let mut s = Structured::new();
    s.write_byte_size(0);
    assert_eq!(s.into_bytes(), vec![0]);
    let mut s = Structured::new();
    s.write_bytes(&[9]);
    s.write_byte_size(7);
    let bytes = s.into_bytes();
    assert_eq!(bytes, vec![9, 1]);
}

#[test]
fn leaving_a_collection_restores_the_depth() {
    let mut s = Structured::new_with_depth(4);
    let before = s.enter_collection();
    assert_eq!(before, 4);
    assert_eq!(s.separator_depth(), 5);
    s.write_separator();
    s.exit_collection(before);
    assert_eq!(s.separator_depth(), 4);
    s.write_separator();
    let mut expected = separator_for_depth(5).to_vec();
    expected.extend_from_slice(&separator_for_depth(4));
    assert_eq!(s.into_bytes(), expected);
}

#[test]
fn separators_tell_depths_apart() {
    assert_eq!(separator_for_depth(0), [0xFE, 0xED, 0xFA, 0]);
    assert_ne!(separator_for_depth(1), separator_for_depth(2));
}

#[test]
fn collections_join_or_separate_their_elements() {
    assert_eq!(build_collection_bytes(&[1u16, 2], 0), vec![1, 0, 2, 0]);
    assert_eq!(
        build_collection_bytes(&[Some(1u8), None], 3),
        vec![1, 1, 0xFE, 0xED, 0xFA, 3, 0],
    );
    assert_eq!(build_collection_bytes::<u8>(&[], 0), Vec::<u8>::new());
    assert_eq!(
        build_collection_bytes(&[vec![vec![1u8], vec![2]], vec![vec![3]]], 255),
        vec![1, 0xFE, 0xED, 0xFA, 0, 2, 0xFE, 0xED, 0xFA, 255, 3],
    );
}

#[test]
fn taking_apart_undoes_joining() {
    let bytes = build_collection_bytes(&[vec![1u8, 2], vec![3], vec![4, 5]], 7);
    assert_eq!(take_apart(&bytes, 7), vec![vec![1, 2], vec![3], vec![4, 5]]);
    assert_eq!(take_apart(&bytes, 8).len(), 1);
    assert_eq!(take_apart(&separator_for_depth(2), 2).len(), 0);
    assert_eq!(take_apart(&[0xFE, 0xED, 0xFA], 0), vec![vec![0xFE, 0xED, 0xFA]]);
    assert_eq!(take_apart(&[], 0).len(), 0);
    let twice = [1, 0xFE, 0xED, 0xFA, 0, 0xFE, 0xED, 0xFA, 0, 2, 3];
    assert_eq!(take_apart(&twice, 0), vec![vec![1], vec![2, 3]]);
}

#[test]
fn fixed_size_elements_are_the_same_at_every_depth() {
    for depth in [0u8, 1, 254, 255] {
        assert_eq!(build_collection_bytes(&[1u16, 2], depth), vec![1, 0, 2, 0]);
        let mut parts = build_collection_bytes(&[1u16], depth);
        parts.extend(build_collection_bytes(&[2u16], depth));
        assert_eq!(parts, build_collection_bytes(&[1u16, 2], depth));
    }
}

#[test]
fn a_size_completes_what_was_written_for_the_rest() {
    let v = vec![4u8; 10];
    let mut one = Structured::new();
    one.write_bytes(&[1; 300]);
    v.write_take_rest_to(&mut one);
    one.write_byte_size(10);
    let mut two = Structured::new();
    two.write_bytes(&[1; 300]);
    v.write_to(&mut two);
    let bytes = one.into_bytes();
    assert_eq!(&bytes[310..], &[0, 10]);
    assert_eq!(bytes, two.into_bytes());
}

#[test]
fn a_lone_size_gets_the_shortest_suffix() {
    for (len, suffix) in [
        (255usize, vec![9u8]),
        (256, vec![0, 9]),
        (65535, vec![0, 9]),
        (65536, vec![0, 0, 0, 9]),
    ] {
        let mut s = Structured::new();
        s.write_bytes(&vec![2; len]);
        s.write_byte_size(9);
        assert_eq!(&s.into_bytes()[len..], &suffix[..]);
    }
}

#[test]
fn counted_strings_come_back_in_order() {
    let strings: Vec<Vec<u8>> =
        [300usize, 0, 1, 255, 256, 5].iter().map(|len| vec![*len as u8; *len]).collect();
    let mut s = Structured::new();
    for string in &strings {
        s.write_bytes(string);
        s.write_byte_size(string.len());
    }
    let bytes = s.into_bytes();
    let mut u = Unstructured::new(&bytes);
    for string in &strings {
        let n = u.arbitrary_byte_size();
        assert_eq!(u.bytes(n).unwrap(), &string[..]);
    }
}

#[test]
fn sizes_registered_together_are_read_in_turn() {
    let mut s = Structured::new();
    s.write_bytes(&[7; 300]);
    s.write_byte_size(10);
    s.write_byte_size(20);
    let bytes = s.into_bytes();
    assert_eq!(&bytes[300..], &[0, 20, 0, 10]);
    let mut u = Unstructured::new(&bytes);
    assert_eq!(u.arbitrary_byte_size(), 10);
    assert_eq!(u.bytes(10).unwrap(), &[7; 10]);
    assert_eq!(u.arbitrary_byte_size(), 20);
    assert_eq!(u.bytes(20).unwrap(), &[7; 20]);
}

#[test]
fn sizes_registered_together_are_read_where_widths_differ() {
    let mut s = Structured::new();
    s.write_bytes(&[7; 260]);
    s.write_byte_size(250);
    s.write_byte_size(10);
    let bytes = s.into_bytes();
    assert_eq!(&bytes[260..], &[10, 0, 250]);
    let mut u = Unstructured::new(&bytes);
    assert_eq!(u.arbitrary_byte_size(), 250);
    assert_eq!(u.bytes(250).unwrap(), &[7; 250]);
    assert_eq!(u.arbitrary_byte_size(), 10);
}

#[test]
fn bytes_for_all_that_is_left_stand_alone() {
    let mut s = Structured::new();
    s.write_bytes(&[1; 300]);
    s.write_byte_size(200);
    s.write_rest(&[5, 6]);
    let bytes = s.into_bytes();
    assert_eq!(&bytes[300..], &[5, 6, 200]);
    let mut u = Unstructured::new(&bytes);
    assert_eq!(u.bytes(100).unwrap(), &[1; 100]);
    assert_eq!(u.arbitrary_byte_size(), 200);
    assert_eq!(u.bytes(200).unwrap(), &[1; 200]);
    assert_eq!(u.take_rest(), &[5, 6]);
}

#[test]
fn finished_buffers_begin_with_the_content() {
    for content in [0usize, 1, 255, 256, 70000] {
        for sizes in [0usize, 1, 2, 5] {
            let mut s = Structured::new();
            s.write_bytes(&vec![3; content]);
            for _ in 0..sizes {
                s.write_byte_size(content / 8);
            }
            let bytes = s.into_bytes();
            assert_eq!(&bytes[..content], &vec![3; content][..]);
            let added = bytes.len() - content;
            assert!(if sizes == 0 { added == 0 } else { 1 <= added && added <= 8 * sizes });
        }
    }
}

#[test]
fn only_chunks_that_cannot_stand_are_stuffed() {
    assert_eq!(guard_chunk(vec![1, 2], 0, false), vec![1, 2]);
    assert_eq!(guard_chunk(vec![], 0, true), vec![0xFE, 0xED, 0xFA, 0, 0xFD]);
    assert_eq!(
        guard_chunk(vec![0xFE, 0xED, 0xFA, 0], 0, true),
        vec![0xFE, 0xED, 0xFA, 0, 0xFD, 1, 0xED, 0xFA, 0],
    );
    assert_eq!(guard_chunk(vec![0xFE, 0xED, 0xFA, 0], 1, false), vec![0xFE, 0xED, 0xFA, 0]);
    // The separator of this depth ends as it begins.
    assert_eq!(guard_chunk(vec![0xFE, 0xED, 0xFA], 0xFE, true), vec![0xFE, 0xED, 0xFA]);
    assert_eq!(
        guard_chunk(vec![0xFE, 0xED, 0xFA], 0xFE, false),
        vec![0xFE, 0xED, 0xFA, 0xFE, 0xFD, 1, 0xED, 0xFA],
    );
    let elems = vec![vec![0xFEu8, 0xED, 0xFA]; 2];
    assert_eq!(take_apart(&build_collection_bytes(&elems, 0xFE), 0xFE), elems);
    for chunk in [vec![], vec![0xFD; 3], vec![0xFD, 0], vec![0xFE, 0xED, 0xFA, 9]] {
        for last in [false, true] {
            assert_eq!(take_apart(&guard_chunk(chunk.clone(), 9, last), 9), vec![chunk.clone()]);
        }
    }
}
