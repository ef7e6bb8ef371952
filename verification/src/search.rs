//! The search itself: the lines of a text in which a query occurs.

use crate::encoding::lemma_infix_of_encodings;
use crate::infix::{bytes_contain, is_infix};
use crate::lines::{after_first_line, first_line, lemma_line_break, lines_of, split_first_line};
use crate::lowercase::{lowercase, to_lowercase};
use vstd::prelude::*;
use vstd::string::*;

verus! {

/// Whether `query` occurs in `line`: as it is written where case counts,
/// and between the lowercase forms of both where it does not.
pub open spec fn line_matches(query: Seq<char>, line: Seq<char>, case_sensitive: bool) -> bool {
    if case_sensitive {
        is_infix(query, line)
    } else {
        is_infix(lowercase(query), lowercase(line))
    }
}

/// `line_matches` as a test on lines, for a fixed query.
pub open spec fn line_test(query: Seq<char>, case_sensitive: bool) -> spec_fn(Seq<char>) -> bool {
    |line: Seq<char>| line_matches(query, line, case_sensitive)
}

/// The lines of `contents` in which `query` occurs, in the order in which
/// they stand in `contents`. The lines are given as they are written, also
/// where case does not count.
pub open spec fn matching_lines(
    query: Seq<char>,
    contents: Seq<char>,
    case_sensitive: bool,
) -> Seq<Seq<char>> {
    lines_of(contents).filter(line_test(query, case_sensitive))
}

/// The lines of `contents` that hold `query` exactly as it is written.
pub open spec fn sensitive_matches(query: Seq<char>, contents: Seq<char>) -> Seq<Seq<char>> {
    matching_lines(query, contents, true)
}

/// The lines of `contents` whose lowercase form holds the lowercase form of
/// `query`.
pub open spec fn insensitive_matches(query: Seq<char>, contents: Seq<char>) -> Seq<Seq<char>> {
    matching_lines(query, contents, false)
}

/// Whether `needle` occurs in `haystack` as a contiguous run of characters.
pub fn contains(haystack: &str, needle: &str) -> (found: bool)
    ensures
        found == is_infix(needle@, haystack@),
{
    proof {
        lemma_infix_of_encodings(needle@, haystack@);
    }
    bytes_contain(haystack.as_bytes(), needle.as_bytes())
}

/// A search takes the first line of the text, or leaves it, and goes on
/// with what follows that line; in an empty text it finds nothing.
pub proof fn lemma_matching_lines_step(query: Seq<char>, contents: Seq<char>, case_sensitive: bool)
    ensures
        matching_lines(query, contents, case_sensitive) == if contents.len() == 0 {
            Seq::<Seq<char>>::empty()
        } else {
            let rest = matching_lines(query, after_first_line(contents), case_sensitive);
            if line_matches(query, first_line(contents), case_sensitive) {
                seq![first_line(contents)] + rest
            } else {
                rest
            }
        },
{
    let test = line_test(query, case_sensitive);
    if contents.len() == 0 {
        reveal(Seq::filter);
        assert(lines_of(contents).filter(test) =~= Seq::<Seq<char>>::empty());
    } else {
        let rest = lines_of(after_first_line(contents));
        rest.lemma_filter_prepend(first_line(contents), test);
        assert(Seq::<Seq<char>>::empty() + rest.filter(test) =~= rest.filter(test));
    }
}

/// Goes through the lines of `contents` and keeps those in which `needle`
/// occurs. Where case does not count, `needle` is the lowercase form of the
/// query, and it is sought in the lowercase form of each line.
fn select_lines<'a>(
    needle: &str,
    contents: &'a str,
    case_sensitive: bool,
    Ghost(query): Ghost<Seq<char>>,
) -> (matches: Vec<&'a str>)
    requires
        needle@ == if case_sensitive {
            query
        } else {
            lowercase(query)
        },
    ensures
        matches.deep_view() == matching_lines(query, contents@, case_sensitive),
{
    let mut matches: Vec<&'a str> = Vec::new();
    let mut rest: &'a str = contents;
    proof {
        assert(matches.deep_view() + matching_lines(query, rest@, case_sensitive)
            =~= matching_lines(query, rest@, case_sensitive));
    }
    while !rest.is_empty()
        invariant
            needle@ == if case_sensitive {
                query
            } else {
                lowercase(query)
            },
            matching_lines(query, contents@, case_sensitive) == matches.deep_view()
                + matching_lines(query, rest@, case_sensitive),
        decreases rest@.len(),
    {
        proof {
            lemma_line_break(rest@);
            lemma_matching_lines_step(query, rest@, case_sensitive);
        }
        let ghost kept = matches.deep_view();
        let (line, tail) = split_first_line(rest);
        let found = if case_sensitive {
            contains(line, needle)
        } else {
            let lowered = to_lowercase(line);
            contains(lowered.as_str(), needle)
        };
        if found {
            matches.push(line);
            proof {
                assert(matches.deep_view() =~= kept + seq![line@]);
            }
        }
        proof {
            assert(matches.deep_view() + matching_lines(query, tail@, case_sensitive) =~= kept
                + matching_lines(query, rest@, case_sensitive));
        }
        rest = tail;
    }
    proof {
        lemma_matching_lines_step(query, rest@, case_sensitive);
        assert(matches.deep_view() + Seq::<Seq<char>>::empty() =~= matches.deep_view());
    }
    matches
}

/// The lines of `contents` that hold `query` exactly as it is written, in
/// their order. Each is a slice of `contents`. The empty query is held by
/// every line.
pub fn search_case_sensitive<'a>(query: &str, contents: &'a str) -> (matches: Vec<&'a str>)
    ensures
        matches.deep_view() == sensitive_matches(query@, contents@),
        forall|i: int|
            0 <= i < matches@.len() ==> (#[trigger] matches@[i])@ == sensitive_matches(
                query@,
                contents@,
            )[i],
{
    let matches = select_lines(query, contents, true, Ghost(query@));
    assert forall|i: int| 0 <= i < matches@.len() implies (#[trigger] matches@[i])@
        == matches.deep_view()[i] by {}
    matches
}

/// The lines of `contents` that hold `query` when letter case is left out of
/// account, in their order: those whose lowercase form holds the lowercase
/// form of `query`. Each is a slice of `contents`, as it is written there.
pub fn search_case_insensitive<'a>(query: &str, contents: &'a str) -> (matches: Vec<&'a str>)
    ensures
        matches.deep_view() == insensitive_matches(query@, contents@),
        forall|i: int|
            0 <= i < matches@.len() ==> (#[trigger] matches@[i])@ == insensitive_matches(
                query@,
                contents@,
            )[i],
{
    let lowered = to_lowercase(query);
    let matches = select_lines(lowered.as_str(), contents, false, Ghost(query@));
    assert forall|i: int| 0 <= i < matches@.len() implies (#[trigger] matches@[i])@
        == matches.deep_view()[i] by {}
    matches
}

} // verus!
