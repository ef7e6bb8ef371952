//! How the characters of a string and the bytes of its UTF-8 encoding
//! correspond: the facts that let a search on bytes answer a question asked
//! about characters.

use crate::infix::{is_infix, occurs_at};
use vstd::prelude::*;
use vstd::utf8::*;

verus! {

/// The code of an ASCII character, as the one byte that encodes it.
pub open spec fn is_ascii_byte(b: u8) -> bool {
    b <= 0x7f
}

/// Encoding a concatenation gives the concatenation of the encodings.
pub proof fn lemma_encode_concat(a: Seq<char>, b: Seq<char>)
    ensures
        encode_utf8(a + b) == encode_utf8(a) + encode_utf8(b),
    decreases a.len(),
{
    if a.len() == 0 {
        assert(a + b =~= b);
        assert(encode_utf8(a) + encode_utf8(b) =~= encode_utf8(b));
    } else {
        lemma_encode_concat(a.drop_first(), b);
        assert((a + b).drop_first() =~= a.drop_first() + b);
        assert((a + b)[0] == a[0]);
        assert(encode_utf8(a + b) =~= encode_utf8(a) + encode_utf8(b));
    }
}

/// A single ASCII character is encoded as the one byte of its code.
pub proof fn lemma_encode_ascii_char(c: char)
    requires
        c as u32 <= 0x7f,
    ensures
        encode_utf8(seq![c]) == seq![c as u8],
{
    let s = seq![c];
    assert(is_ascii_chars(s));
    is_ascii_chars_encode_utf8(s);
    assert(encode_utf8(s) =~= seq![c as u8]);
}

/// Where a valid prefix of valid UTF-8 ends, a character begins.
pub proof fn lemma_valid_prefix_ends_at_boundary(bytes: Seq<u8>, end: int)
    requires
        valid_utf8(bytes),
        0 <= end <= bytes.len(),
        valid_utf8(bytes.subrange(0, end)),
    ensures
        is_char_boundary(bytes, end),
    decreases bytes.len(),
{
    if end != 0 {
        let prefix = bytes.subrange(0, end);
        assert(prefix[0] == bytes[0]);
        assert(valid_first_scalar(prefix));
        let width = length_of_first_scalar(prefix);
        assert(width == length_of_first_scalar(bytes));
        assert(1 <= width <= end);
        let rest = pop_first_scalar(bytes);
        assert(pop_first_scalar(prefix) =~= rest.subrange(0, end - width));
        lemma_valid_prefix_ends_at_boundary(rest, end - width);
    }
}

/// An ASCII byte in the encoding of `chars` is a character of its own: the
/// bytes before it and the bytes after it encode the characters before and
/// after that character.
pub proof fn lemma_split_at_ascii_byte(chars: Seq<char>, at: int)
    requires
        0 <= at < encode_utf8(chars).len(),
        is_ascii_byte(encode_utf8(chars)[at]),
    ensures
        ({
            let bytes = encode_utf8(chars);
            let before = decode_utf8(bytes.subrange(0, at));
            let after = decode_utf8(bytes.subrange(at + 1, bytes.len() as int));
            &&& is_char_boundary(bytes, at)
            &&& is_char_boundary(bytes.subrange(at, bytes.len() as int), 1)
            &&& before.len() < chars.len()
            &&& chars[before.len() as int] as u32 == bytes[at] as u32
            &&& chars.take(before.len() as int) == before
            &&& chars.skip(before.len() as int + 1) == after
            &&& encode_utf8(before) == bytes.subrange(0, at)
            &&& encode_utf8(after) == bytes.subrange(at + 1, bytes.len() as int)
        }),
{
    let bytes = encode_utf8(chars);
    let head = bytes.subrange(0, at);
    let tail = bytes.subrange(at, bytes.len() as int);
    let after_bytes = bytes.subrange(at + 1, bytes.len() as int);
    encode_utf8_valid_utf8(chars);
    encode_utf8_decode_utf8(chars);
    is_char_boundary_iff_not_is_continuation_byte(bytes, at);
    valid_utf8_split(bytes, at);
    decode_utf8_split(bytes, at);
    assert(tail[0] == bytes[at]);
    assert(is_leading_byte_width_1(tail[0]));
    assert(length_of_first_scalar(tail) == 1);
    assert(pop_first_scalar(tail) =~= after_bytes);
    let b = tail[0];
    assert((b & 0x7f) as u32 == b as u32) by (bit_vector)
        requires
            b <= 0x7f,
    ;
    assert(decode_first_scalar(tail) == b as u32);
    assert(decode_utf8(tail) =~= seq![decode_first_scalar(tail) as char] + decode_utf8(
        after_bytes,
    ));
    let before = decode_utf8(head);
    let after = decode_utf8(after_bytes);
    assert(chars =~= before + (seq![(b as u32) as char] + after));
    assert(chars[before.len() as int] == (b as u32) as char);
    assert(chars.take(before.len() as int) =~= before);
    assert(chars.skip(before.len() as int + 1) =~= after);
    decode_utf8_encode_utf8(head);
    decode_utf8_encode_utf8(after_bytes);
    assert(is_char_boundary(tail, 1)) by {
        reveal_with_fuel(is_char_boundary, 2);
    }
}

/// An ASCII character of `chars` shows as its byte in the encoding, between
/// the encodings of what stands before and after it.
pub proof fn lemma_ascii_char_encoded(chars: Seq<char>, at: int)
    requires
        0 <= at < chars.len(),
        chars[at] as u32 <= 0x7f,
    ensures
        encode_utf8(chars) == encode_utf8(chars.take(at)) + seq![chars[at] as u8] + encode_utf8(
            chars.skip(at + 1),
        ),
{
    let c = chars[at];
    assert(chars =~= chars.take(at) + (seq![c] + chars.skip(at + 1)));
    lemma_encode_concat(chars.take(at), seq![c] + chars.skip(at + 1));
    lemma_encode_concat(seq![c], chars.skip(at + 1));
    lemma_encode_ascii_char(c);
    assert(encode_utf8(chars) =~= encode_utf8(chars.take(at)) + seq![c as u8] + encode_utf8(
        chars.skip(at + 1),
    ));
}

/// An occurrence among the characters is an occurrence among the bytes.
pub proof fn lemma_occurrence_encoded(needle: Seq<char>, haystack: Seq<char>, at: int)
    requires
        occurs_at(needle, haystack, at),
    ensures
        occurs_at(
            encode_utf8(needle),
            encode_utf8(haystack),
            encode_utf8(haystack.take(at)).len() as int,
        ),
{
    let before = haystack.take(at);
    let after = haystack.skip(at + needle.len());
    assert(haystack =~= before + (needle + after));
    lemma_encode_concat(before, needle + after);
    lemma_encode_concat(needle, after);
    let start = encode_utf8(before).len() as int;
    assert(encode_utf8(haystack).subrange(start, start + encode_utf8(needle).len())
        =~= encode_utf8(needle));
}

/// An occurrence among the bytes is an occurrence among the characters: an
/// encoding cannot begin or end in the middle of another character.
pub proof fn lemma_occurrence_decoded(needle: Seq<char>, haystack: Seq<char>, at: int)
    requires
        occurs_at(encode_utf8(needle), encode_utf8(haystack), at),
    ensures
        is_infix(needle, haystack),
{
    let small = encode_utf8(needle);
    let bytes = encode_utf8(haystack);
    encode_utf8_valid_utf8(needle);
    encode_utf8_valid_utf8(haystack);
    encode_utf8_decode_utf8(needle);
    encode_utf8_decode_utf8(haystack);
    if small.len() == 0 {
        assert(needle.len() == 0);
        assert(haystack.subrange(0, 0) =~= needle);
        assert(occurs_at(needle, haystack, 0));
    } else {
        assert(bytes.subrange(at, at + small.len())[0] == bytes[at]);
        assert(bytes[at] == small[0]);
        assert(valid_first_scalar(small));
        assert(!is_continuation_byte(small[0]));
        is_char_boundary_iff_not_is_continuation_byte(bytes, at);
        valid_utf8_split(bytes, at);
        decode_utf8_split(bytes, at);
        let tail = bytes.subrange(at, bytes.len() as int);
        let end = small.len() as int;
        assert(tail.subrange(0, end) =~= small);
        lemma_valid_prefix_ends_at_boundary(tail, end);
        decode_utf8_split(tail, end);
        let before = decode_utf8(bytes.subrange(0, at));
        let after = decode_utf8(tail.subrange(end, tail.len() as int));
        assert(haystack =~= before + (needle + after));
        let start = before.len() as int;
        assert(haystack.subrange(start, start + needle.len()) =~= needle);
        assert(occurs_at(needle, haystack, start));
    }
}

/// A string contains another exactly when its bytes contain the other's
/// bytes.
pub proof fn lemma_infix_of_encodings(needle: Seq<char>, haystack: Seq<char>)
    ensures
        is_infix(encode_utf8(needle), encode_utf8(haystack)) <==> is_infix(needle, haystack),
{
    if is_infix(needle, haystack) {
        let at = choose|at: int| occurs_at(needle, haystack, at);
        lemma_occurrence_encoded(needle, haystack, at);
    }
    if is_infix(encode_utf8(needle), encode_utf8(haystack)) {
        let at = choose|at: int| occurs_at(encode_utf8(needle), encode_utf8(haystack), at);
        lemma_occurrence_decoded(needle, haystack, at);
    }
}

} // verus!
