//! `String`: its UTF-8 bytes.

use crate::arbitrary::{Arbitrary, Modelled};
use crate::dearbitrary::Dearbitrary;
use crate::guard;
use crate::layout;
use crate::layout::Piece;
use crate::separator;
use crate::structured::Structured;
use crate::suffix;
use crate::unstructured::{Error, Unstructured};
use vstd::prelude::*;
use vstd::slice::slice_subrange;
use vstd::utf8;

verus! {

/// The length of the longest prefix of the first `upto` bytes that is valid UTF-8.
pub open spec fn valid_prefix(bytes: Seq<u8>, upto: nat) -> nat
    decreases upto,
{
    if upto == 0 || utf8::valid_utf8(bytes.take(upto as int)) {
        upto
    } else {
        valid_prefix(bytes, (upto - 1) as nat)
    }
}

/// The text at the front of `bytes`, up to the first byte that is not UTF-8.
pub open spec fn text(bytes: Seq<u8>) -> Seq<char> {
    utf8::decode_utf8(bytes.take(valid_prefix(bytes, bytes.len()) as int))
}

proof fn lemma_valid_prefix(bytes: Seq<u8>, upto: nat, len: nat)
    requires
        len <= upto <= bytes.len(),
        utf8::valid_utf8(bytes.take(len as int)),
        forall|i: int| len < i <= upto ==> !#[trigger] utf8::valid_utf8(bytes.take(i)),
    ensures
        valid_prefix(bytes, upto) == len,
    decreases upto,
{
    if upto > len {
        lemma_valid_prefix(bytes, (upto - 1) as nat, len);
    }
}

/// `core::str::from_utf8` of the standard library: the text that `bytes` encode
/// where they are valid UTF-8. Else the error's `valid_up_to`: the length of the
/// longest prefix that is valid.
#[verifier::external_body]
fn str_from_utf8(bytes: &[u8]) -> (r: Result<&str, usize>)
    ensures
        match r {
            Ok(s) => utf8::valid_utf8(bytes@) && s@ == utf8::decode_utf8(bytes@),
            Err(len) => {
                &&& !utf8::valid_utf8(bytes@)
                &&& len <= bytes@.len()
                &&& utf8::valid_utf8(bytes@.take(len as int))
                &&& forall|i: int|
                    len < i <= bytes@.len() ==> !#[trigger] utf8::valid_utf8(bytes@.take(i))
            },
        },
{
    core::str::from_utf8(bytes).map_err(|e| e.valid_up_to())
}

/// The text at the front of `bytes`, and the number of bytes that it takes.
fn leading_text(bytes: &[u8]) -> (r: (String, usize))
    ensures
        r.0@ == text(bytes@),
        r.1 == valid_prefix(bytes@, bytes@.len()),
        r.1 <= bytes@.len(),
{
    match str_from_utf8(bytes) {
        Ok(s) => {
            proof {
                assert(bytes@.take(bytes@.len() as int) =~= bytes@);
            }
            (s.to_owned(), bytes.len())
        },
        Err(len) => {
            let valid: &[u8] = slice_subrange(bytes, 0, len);
            proof {
                assert(valid@ =~= bytes@.take(len as int));
                lemma_valid_prefix(bytes@, bytes@.len(), len as nat);
                assert(valid@.take(valid@.len() as int) =~= valid@);
            }
            match str_from_utf8(valid) {
                Ok(s) => (s.to_owned(), len),
                Err(_) => (String::new(), len),
            }
        },
    }
}

impl Modelled for String {
    type Model = Seq<char>;

    open spec fn model(&self) -> Seq<char> {
        self@
    }
}

/// As many bytes as the size suffix says, up to the first that is not UTF-8.
impl Arbitrary for String {
    open spec fn hint(depth: usize) -> (usize, Option<usize>) {
        (0, None)
    }

    open spec fn read(data: Seq<u8>, depth: u8) -> (Result<Seq<char>, Error>, Seq<u8>) {
        let (n, rest) = suffix::read_size(data);
        let bytes = rest.take(n as int);
        (Ok(text(bytes)), rest.skip(valid_prefix(bytes, n) as int))
    }

    open spec fn read_rest(data: Seq<u8>, depth: u8) -> Result<Seq<char>, Error> {
        Ok(text(data))
    }

    fn arbitrary(u: &mut Unstructured<'_>) -> (r: Result<Self, Error>) {
        let n: usize = u.arbitrary_byte_size();
        let bytes: &[u8] = u.peek_bytes(n);
        let (text, len): (String, usize) = leading_text(bytes);
        match u.bytes(len) {
            Ok(_) => Ok(text),
            Err(e) => Err(e),
        }
    }

    fn arbitrary_take_rest(u: Unstructured<'_>) -> (r: Result<Self, Error>) {
        Ok(leading_text(u.take_rest()).0)
    }

    fn size_hint(depth: usize) -> (hint: (usize, Option<usize>)) {
        (0, None)
    }
}

/// The bytes that a string becomes where all data is for it. An empty string
/// becomes a byte that is not UTF-8, so that its chunk is not empty.
pub open spec fn chunk_bytes(s: Seq<char>) -> Seq<u8> {
    if s.len() == 0 {
        seq![0xFFu8]
    } else {
        utf8::encode_utf8(s)
    }
}

impl Dearbitrary for String {
    open spec fn pieces(&self, depth: u8) -> Seq<Piece> {
        seq![Piece::Counted(utf8::encode_utf8(self@))]
    }

    open spec fn rest_pieces(&self, depth: u8) -> Seq<Piece> {
        Seq::empty()
    }

    open spec fn rest_tail(&self, depth: u8) -> Option<Seq<u8>> {
        Some(chunk_bytes(self@))
    }

    open spec fn readable(&self, depth: u8) -> bool {
        true
    }

    fn write_to(&self, s: &mut Structured) {
        let str_bytes: &[u8] = self.as_str().as_bytes();
        s.write_bytes(str_bytes);
        s.write_byte_size(str_bytes.len());
        proof {
            layout::lemma_counted(str_bytes@);
            assert(s@ =~= old(s)@.with(self.pieces(old(s)@.depth)));
        }
    }

    fn write_take_rest_to(&self, s: &mut Structured) {
        if self.as_str().is_empty() {
            let invalid: [u8; 1] = [0xFF];
            s.write_rest(&invalid);
            proof {
                assert(invalid@ =~= seq![0xFFu8]);
            }
        } else {
            s.write_rest(self.as_str().as_bytes());
        }
        proof {
            assert(old(s)@ =~= old(s)@.with(Seq::empty()));
        }
    }

    proof fn reads_back(&self, depth: u8, data: Seq<u8>) {
        let bytes = utf8::encode_utf8(self@);
        layout::lemma_counted(bytes);
        lemma_text_of_encoding(self@);
    }

    proof fn rest_reads_back(&self, depth: u8, data: Seq<u8>) {
        let bytes = chunk_bytes(self@);
        if self@.len() == 0 {
            assert(bytes.take(1) =~= bytes);
            assert(!utf8::valid_first_scalar(bytes));
            assert(bytes.take(0) =~= Seq::<u8>::empty());
            lemma_valid_prefix(bytes, 1, 0);
            assert(text(bytes) =~= self@);
        } else {
            lemma_text_of_encoding(self@);
        }
    }

    proof fn hint_holds(&self, depth: u8, hint_depth: usize) {
    }

    proof fn depth_is_ignored(&self, hint_depth: usize, depth: u8, other: u8) {
    }
}

/// Encoded text is all UTF-8 and reads as the text.
proof fn lemma_text_of_encoding(s: Seq<char>)
    ensures
        text(utf8::encode_utf8(s)) == s,
        valid_prefix(utf8::encode_utf8(s), utf8::encode_utf8(s).len())
            == utf8::encode_utf8(s).len(),
{
    let bytes = utf8::encode_utf8(s);
    utf8::encode_utf8_valid_utf8(s);
    utf8::encode_utf8_decode_utf8(s);
    assert(bytes.take(bytes.len() as int) =~= bytes);
}

/// UTF-8 never holds the byte that separators begin with, and encodes every
/// character in at least one byte.
proof fn lemma_encoding_bytes(s: Seq<char>)
    ensures
        forall|i: int|
            0 <= i < utf8::encode_utf8(s).len() ==> #[trigger] utf8::encode_utf8(s)[i] != 0xFE,
        s.len() > 0 ==> utf8::encode_utf8(s).len() > 0,
    decreases s.len(),
{
    if s.len() > 0 {
        lemma_encoding_bytes(s.drop_first());
        let v = s[0] as u32;
        assert({
            &&& ((v & 0x7F) as u8) < 0xFE
            &&& (0xC0 | ((v >> 6) & 0x1F) as u8) < 0xFE
            &&& (0xE0 | ((v >> 12) & 0x0F) as u8) < 0xFE
            &&& (0xF0 | ((v >> 18) & 0x7) as u8) < 0xFE
            &&& (0x80 | (v & 0x3F) as u8) < 0xFE
            &&& (0x80 | ((v >> 6) & 0x3F) as u8) < 0xFE
            &&& (0x80 | ((v >> 12) & 0x3F) as u8) < 0xFE
        }) by (bit_vector);
        let first = utf8::encode_scalar(v);
        let rest = utf8::encode_utf8(s.drop_first());
        assert forall|i: int| 0 <= i < (first + rest).len() implies #[trigger] (first + rest)[i]
            != 0xFE by {
            if i >= first.len() {
                assert((first + rest)[i] == rest[i - first.len()]);
            }
        }
    }
}

/// Strings stand in a collection as they are: no string holds a separator, and the
/// empty ones have a chunk of their own.
pub proof fn law_strings_stand(s: Seq<char>, depth: u8, last: bool)
    ensures
        guard::guarded(chunk_bytes(s), separator::separator(depth), last) == chunk_bytes(s),
{
    lemma_encoding_bytes(s);
    separator::lemma_free_of_separators(chunk_bytes(s), depth, 0);
}

} // verus!
