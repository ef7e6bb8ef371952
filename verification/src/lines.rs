//! The lines of a text.
//!
//! A line ends at a line feed. The line feed is not part of the line, and
//! neither is a carriage return that stands directly before it. What follows
//! the last line feed is a line too, unless nothing follows it.

use crate::encoding::{lemma_ascii_char_encoded, lemma_split_at_ascii_byte};
use vstd::prelude::*;
use vstd::string::*;
use vstd::utf8::*;

verus! {

/// The position of the first line feed in `text`, or the length of `text`
/// where it holds none.
pub open spec fn line_break(text: Seq<char>) -> int
    decreases text.len(),
{
    if text.len() == 0 || text[0] == '\n' {
        0
    } else {
        1 + line_break(text.drop_first())
    }
}

/// `line` without the carriage return at its end, if it has one.
pub open spec fn without_carriage_return(line: Seq<char>) -> Seq<char> {
    if line.len() > 0 && line.last() == '\r' {
        line.drop_last()
    } else {
        line
    }
}

/// The first line of a text that is not empty.
pub open spec fn first_line(text: Seq<char>) -> Seq<char> {
    let end = line_break(text);
    if end < text.len() {
        without_carriage_return(text.take(end))
    } else {
        text
    }
}

/// What follows the first line and its line feed.
pub open spec fn after_first_line(text: Seq<char>) -> Seq<char> {
    let end = line_break(text);
    if end < text.len() {
        text.skip(end + 1)
    } else {
        Seq::empty()
    }
}

/// The lines of `text`, in the order in which they stand.
pub open spec fn lines_of(text: Seq<char>) -> Seq<Seq<char>>
    decreases text.len(),
    via lines_of_terminates
{
    if text.len() == 0 {
        Seq::empty()
    } else {
        seq![first_line(text)] + lines_of(after_first_line(text))
    }
}

#[via_fn]
proof fn lines_of_terminates(text: Seq<char>) {
    lemma_line_break(text);
}

/// `line_break` is the least position that holds a line feed or ends the
/// text.
pub proof fn lemma_line_break(text: Seq<char>)
    ensures
        0 <= line_break(text) <= text.len(),
        forall|k: int| 0 <= k < line_break(text) ==> text[k] != '\n',
        line_break(text) < text.len() ==> text[line_break(text)] == '\n',
    decreases text.len(),
{
    if text.len() == 0 || text[0] == '\n' {
    } else {
        let rest = text.drop_first();
        lemma_line_break(rest);
        assert forall|k: int| 0 <= k < line_break(text) implies text[k] != '\n' by {
            if k > 0 {
                assert(text[k] == rest[k - 1]);
            }
        }
    }
}

/// A position with no line feed before it, that holds one or ends the text,
/// is the line break.
pub proof fn lemma_line_break_unique(text: Seq<char>, at: int)
    requires
        0 <= at <= text.len(),
        forall|k: int| 0 <= k < at ==> text[k] != '\n',
        at < text.len() ==> text[at] == '\n',
    ensures
        line_break(text) == at,
{
    lemma_line_break(text);
}

/// A text in whose encoding no line feed byte stands holds no line feed.
proof fn lemma_no_line_feed(text: Seq<char>)
    requires
        forall|i: int| 0 <= i < encode_utf8(text).len() ==> encode_utf8(text)[i] != 0x0a,
    ensures
        forall|k: int| 0 <= k < text.len() ==> text[k] != '\n',
{
    assert forall|k: int| 0 <= k < text.len() implies text[k] != '\n' by {
        if text[k] == '\n' {
            lemma_ascii_char_encoded(text, k);
            let at = encode_utf8(text.take(k)).len() as int;
            assert(encode_utf8(text)[at] == 0x0a);
        }
    }
}

/// Splits a text at its first line feed: the first line, and what follows
/// that line feed. A text without a line feed is its own first line, and
/// nothing follows it.
pub fn split_first_line<'a>(text: &'a str) -> (parts: (&'a str, &'a str))
    ensures
        parts.0@ == first_line(text@),
        parts.1@ == after_first_line(text@),
{
    let bytes = text.as_bytes();
    let n: usize = bytes.len();
    let mut end: usize = 0;
    while end < n && bytes[end] != 0x0a
        invariant
            n == bytes@.len(),
            end <= n,
            forall|i: int| 0 <= i < end ==> bytes@[i] != 0x0a,
        decreases n - end,
    {
        end += 1;
    }
    if end == n {
        proof {
            lemma_no_line_feed(text@);
            lemma_line_break_unique(text@, text@.len() as int);
            reveal_strlit("");
            assert(""@ =~= Seq::<char>::empty());
        }
        return (text, "");
    }
    proof {
        lemma_split_at_ascii_byte(text@, end as int);
    }
    let (head, tail) = text.split_at(end);
    let (_, rest) = tail.split_at(1);
    proof {
        let before = decode_utf8(bytes@.subrange(0, end as int));
        encode_utf8_decode_utf8(head@);
        encode_utf8_decode_utf8(rest@);
        assert(tail.spec_bytes().subrange(1, tail.spec_bytes().len() as int) =~= bytes@.subrange(
            end + 1,
            n as int,
        ));
        assert(head@ == before);
        assert forall|k: int| 0 <= k < before.len() implies text@[k] != '\n' by {
            lemma_no_line_feed(before);
            assert(text@.take(before.len() as int)[k] == text@[k]);
        }
        char_u32_cast(text@[before.len() as int], 0x0a);
        char_u32_cast('\n', 0x0a);
        lemma_line_break_unique(text@, before.len() as int);
    }
    let line = strip_carriage_return(head);
    (line, rest)
}

/// Takes the carriage return off the end of `line`, if it has one.
fn strip_carriage_return<'a>(line: &'a str) -> (stripped: &'a str)
    ensures
        stripped@ == without_carriage_return(line@),
{
    let bytes = line.as_bytes();
    let n: usize = bytes.len();
    if n > 0 && bytes[n - 1] == 0x0d {
        proof {
            lemma_split_at_ascii_byte(line@, n - 1);
            assert(bytes@.subrange(n as int, n as int) =~= Seq::<u8>::empty());
            assert(decode_utf8(Seq::<u8>::empty()) =~= Seq::<char>::empty());
        }
        let (stripped, _) = line.split_at(n - 1);
        proof {
            encode_utf8_decode_utf8(stripped@);
            let before = decode_utf8(bytes@.subrange(0, n - 1));
            assert(stripped@ == before);
            assert(before.len() + 1 == line@.len());
            char_u32_cast(line@.last(), 0x0d);
            char_u32_cast('\r', 0x0d);
            assert(line@.take(line@.len() - 1) =~= line@.drop_last());
        }
        stripped
    } else {
        proof {
            if line@.len() > 0 && line@.last() == '\r' {
                lemma_ascii_char_encoded(line@, line@.len() - 1);
                assert(line@.skip(line@.len() as int) =~= Seq::<char>::empty());
                assert(encode_utf8(Seq::<char>::empty()) =~= Seq::<u8>::empty());
                assert(bytes@[n - 1] == 0x0d);
            }
        }
        line
    }
}

} // verus!
