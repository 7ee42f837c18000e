//! Bytes and text.
//!
//! A pty hands over bytes and a read may end in the middle of a character. The
//! functions here find how much of a buffer is complete text and turn it into a
//! string.
use vstd::prelude::*;
use vstd::string::*;
use vstd::utf8::*;

verus! {

/// `core::str::Utf8Error`, carried and not looked into.
#[verifier::external_type_specification]
#[verifier::external_body]
pub struct ExUtf8Error(core::str::Utf8Error);

/// `core::str::from_utf8` accepts exactly the valid UTF-8 byte sequences, and
/// the string slice it gives back has those bytes.
pub assume_specification<'a>[ core::str::from_utf8 ](v: &'a [u8]) -> (res: Result<
    &'a str,
    core::str::Utf8Error,
>)
    ensures
        res is Ok <==> valid_utf8(v@),
        res matches Ok(s) ==> encode_utf8(s@) == v@,
;

/// What `String::from_utf8_lossy` makes of a byte sequence.
pub uninterp spec fn utf8_lossy(bytes: Seq<u8>) -> Seq<char>;

/// Calls `String::from_utf8_lossy`.
///
/// Claimed of it: the text is a function of the bytes, and bytes that are valid
/// UTF-8 come out as the text they encode. How invalid bytes are replaced is
/// left to the name.
#[verifier::external_body]
pub(crate) fn decode_lossy(bytes: &[u8]) -> (s: String)
    ensures
        s@ == utf8_lossy(bytes@),
        valid_utf8(bytes@) ==> encode_utf8(s@) == bytes@,
{
    String::from_utf8_lossy(bytes).into_owned()
}

// ---- how much of a buffer is text -------------------------------------------------

/// The length of the longest beginning of `bytes` that is whole text.
pub open spec fn text_len(bytes: Seq<u8>) -> int
    decreases bytes.len(),
{
    if bytes.len() > 0 && valid_first_scalar(bytes) {
        length_of_first_scalar(bytes) + text_len(pop_first_scalar(bytes))
    } else {
        0
    }
}

/// That beginning is valid.
pub proof fn lemma_text_len_valid(bytes: Seq<u8>)
    ensures
        0 <= text_len(bytes) <= bytes.len(),
        valid_utf8(bytes.take(text_len(bytes))),
    decreases bytes.len(),
{
    if bytes.len() > 0 && valid_first_scalar(bytes) {
        let k = length_of_first_scalar(bytes);
        let rest = pop_first_scalar(bytes);
        lemma_text_len_valid(rest);
        let t = bytes.take(text_len(bytes));
        assert(pop_first_scalar(t) =~= rest.take(text_len(rest)));
        assert(valid_first_scalar(t));
    }
}

/// No longer beginning is valid.
pub proof fn lemma_text_len_longest(bytes: Seq<u8>, n: int)
    requires
        0 <= n <= bytes.len(),
        valid_utf8(bytes.take(n)),
    ensures
        n <= text_len(bytes),
    decreases bytes.len(),
{
    lemma_text_len_valid(bytes);
    if n > 0 {
        let t = bytes.take(n);
        assert(valid_first_scalar(t));
        assert(valid_first_scalar(bytes));
        assert(length_of_first_scalar(t) == length_of_first_scalar(bytes));
        let rest = pop_first_scalar(bytes);
        let k = length_of_first_scalar(bytes);
        assert(pop_first_scalar(t) =~= rest.take(n - k));
        lemma_text_len_longest(rest, n - k);
    }
}

/// A buffer is valid exactly where all of it is text.
pub proof fn lemma_text_len_whole(bytes: Seq<u8>)
    ensures
        valid_utf8(bytes) <==> text_len(bytes) == bytes.len(),
{
    lemma_text_len_valid(bytes);
    assert(bytes.take(bytes.len() as int) =~= bytes);
    if valid_utf8(bytes) {
        lemma_text_len_longest(bytes, bytes.len() as int);
    }
}

/// A buffer that is the beginning of valid text lacks at most the end of one
/// character.
pub proof fn lemma_text_len_of_prefix(bytes: Seq<u8>, tail: Seq<u8>)
    requires
        valid_utf8(bytes + tail),
    ensures
        bytes.len() - text_len(bytes) <= 3,
    decreases bytes.len(),
{
    let all = bytes + tail;
    if bytes.len() > 0 {
        assert(valid_first_scalar(all));
        assert(all[0] == bytes[0]);
        let k = length_of_first_scalar(all);
        if bytes.len() >= k {
            assert(k >= 2 ==> all[1] == bytes[1]);
            assert(k >= 3 ==> all[2] == bytes[2]);
            assert(k >= 4 ==> all[3] == bytes[3]);
            assert(valid_first_scalar(bytes));
            let rest = pop_first_scalar(bytes);
            assert(rest + tail =~= pop_first_scalar(all));
            lemma_text_len_of_prefix(rest, tail);
        } else {
            assert(!valid_first_scalar(bytes));
        }
    }
}

/// How many bytes the character at place `i` takes, or zero where no whole one
/// stands there.
fn scalar_len(b: &Vec<u8>, i: usize) -> (n: usize)
    requires
        i < b@.len(),
    ensures
        n <= 4,
        n > 0 <==> valid_first_scalar(b@.skip(i as int)),
        n > 0 ==> n == length_of_first_scalar(b@.skip(i as int)) && i + n <= b@.len(),
{
    let ghost s = b@.skip(i as int);
    let left: usize = b.len() - i;
    let b1 = b[i];
    assert(s[0] == b1);
    if b1 <= 0x7f {
        proof {
            assert((b1 & 0x7f) as u32 <= 0x7f) by (bit_vector);
        }
        return 1;
    }
    if left < 2 {
        return 0;
    }
    let b2 = b[i + 1];
    assert(s[1] == b2);
    if b2 < 0x80 || b2 > 0xbf {
        return 0;
    }
    if 0xc0 <= b1 && b1 <= 0xdf {
        let c: u32 = (((b1 & 0x1f) as u32) << 6) | ((b2 & 0x3f) as u32);
        assert(c == decode_first_codepoint(s));
        proof {
            assert((((b1 & 0x1f) as u32) << 6) | ((b2 & 0x3f) as u32) <= 0x7ff) by (bit_vector);
        }
        return if c >= 0x80 {
            2
        } else {
            0
        };
    }
    if left < 3 {
        return 0;
    }
    let b3 = b[i + 2];
    assert(s[2] == b3);
    if b3 < 0x80 || b3 > 0xbf {
        return 0;
    }
    if 0xe0 <= b1 && b1 <= 0xef {
        let c: u32 = (((b1 & 0x0f) as u32) << 12) | (((b2 & 0x3f) as u32) << 6) | ((b3 & 0x3f)
            as u32);
        assert(c == decode_first_codepoint(s));
        return if c >= 0x800 && !(0xd800 <= c && c <= 0xdfff) {
            3
        } else {
            0
        };
    }
    if left < 4 {
        return 0;
    }
    let b4 = b[i + 3];
    assert(s[3] == b4);
    if b4 < 0x80 || b4 > 0xbf {
        return 0;
    }
    if 0xf0 <= b1 && b1 <= 0xf7 {
        let c: u32 = (((b1 & 0x07) as u32) << 18) | (((b2 & 0x3f) as u32) << 12) | (((b3 & 0x3f)
            as u32) << 6) | ((b4 & 0x3f) as u32);
        assert(c == decode_first_codepoint(s));
        return if 0x10000 <= c && c <= 0x10ffff {
            4
        } else {
            0
        };
    }
    0
}

/// How much of a buffer is whole text.
pub fn valid_len(b: &Vec<u8>) -> (n: usize)
    ensures
        n == text_len(b@),
        n <= b@.len(),
{
    let mut i: usize = 0;
    assert(b@.skip(0) =~= b@);
    while i < b.len()
        invariant
            i <= b@.len(),
            text_len(b@) == i + text_len(b@.skip(i as int)),
        decreases b@.len() - i,
    {
        let k = scalar_len(b, i);
        if k == 0 {
            return i;
        }
        assert(pop_first_scalar(b@.skip(i as int)) =~= b@.skip(i + k));
        i += k;
    }
    i
}

/// The text that the first `n` bytes encode.
pub fn text_of(b: &Vec<u8>, n: usize) -> (s: String)
    requires
        n <= b@.len(),
        valid_utf8(b@.take(n as int)),
    ensures
        encode_utf8(s@) == b@.take(n as int),
{
    let mut head: Vec<u8> = Vec::new();
    let mut i: usize = 0;
    while i < n
        invariant
            i <= n <= b@.len(),
            head@ == b@.take(i as int),
        decreases n - i,
    {
        head.push(b[i]);
        i += 1;
        assert(head@ =~= b@.take(i as int));
    }
    match core::str::from_utf8(head.as_slice()) {
        Ok(s) => crate::text::copy_text(s),
        Err(_) => String::new(),
    }
}

/// How many bytes a text takes.
pub fn byte_len(s: &str) -> (n: usize)
    ensures
        n == encode_utf8(s@).len(),
{
    s.as_bytes().len()
}

} // verus!
