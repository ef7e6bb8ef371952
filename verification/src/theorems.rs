//! What holds of every search, whatever the query and the text.

use crate::infix::{is_infix, occurs_at};
use crate::lines::lines_of;
use crate::lowercase::lowercase;
use crate::search::{
    insensitive_matches, line_matches, line_test, matching_lines, sensitive_matches,
};
use vstd::prelude::*;

verus! {

/// The elements that pass `test` stand in `all.filter(test)` in the order of
/// the positions at which they stand in `all`, each position once, and no
/// position of such an element is left out.
proof fn lemma_filter_positions<A>(all: Seq<A>, test: spec_fn(A) -> bool) -> (positions: Seq<int>)
    ensures
        positions.len() == all.filter(test).len(),
        forall|k: int|
            0 <= k < positions.len() ==> 0 <= #[trigger] positions[k] < all.len() && all.filter(
                test,
            )[k] == all[positions[k]] && test(all[positions[k]]),
        forall|j: int, k: int|
            0 <= j < k < positions.len() ==> #[trigger] positions[j] < #[trigger] positions[k],
        forall|i: int| 0 <= i < all.len() && test(#[trigger] all[i]) ==> positions.contains(i),
    decreases all.len(),
{
    reveal(Seq::filter);
    if all.len() == 0 {
        Seq::empty()
    } else {
        let front = all.drop_last();
        let found = lemma_filter_positions(front, test);
        if test(all.last()) {
            let last = all.len() - 1;
            let positions = found.push(last);
            assert forall|i: int| 0 <= i < all.len() && test(#[trigger] all[i]) implies positions.contains(
                i,
            ) by {
                if i == last {
                    assert(positions[found.len() as int] == i);
                } else {
                    assert(front[i] == all[i]);
                    let k = choose|k: int| 0 <= k < found.len() && found[k] == i;
                    assert(positions[k] == i);
                }
            }
            positions
        } else {
            assert forall|i: int| 0 <= i < all.len() && test(#[trigger] all[i]) implies found.contains(
                i,
            ) by {
                assert(front[i] == all[i]);
            }
            found
        }
    }
}

/// Where every element passes `test`, filtering by it changes nothing.
proof fn lemma_filter_keeps_all<A>(all: Seq<A>, test: spec_fn(A) -> bool)
    requires
        forall|i: int| 0 <= i < all.len() ==> test(#[trigger] all[i]),
    ensures
        all.filter(test) == all,
    decreases all.len(),
{
    reveal(Seq::filter);
    if all.len() > 0 {
        let front = all.drop_last();
        assert forall|i: int| 0 <= i < front.len() implies test(#[trigger] front[i]) by {
            assert(front[i] == all[i]);
        }
        lemma_filter_keeps_all(front, test);
        assert(front.push(all.last()) =~= all);
    }
}

/// Where no element passes `test`, filtering by it leaves nothing.
proof fn lemma_filter_keeps_none<A>(all: Seq<A>, test: spec_fn(A) -> bool)
    requires
        forall|i: int| 0 <= i < all.len() ==> !test(#[trigger] all[i]),
    ensures
        all.filter(test) == Seq::<A>::empty(),
    decreases all.len(),
{
    reveal(Seq::filter);
    if all.len() > 0 {
        let front = all.drop_last();
        assert forall|i: int| 0 <= i < front.len() implies !test(#[trigger] front[i]) by {
            assert(front[i] == all[i]);
        }
        lemma_filter_keeps_none(front, test);
        assert(!test(all[all.len() - 1]));
    } else {
        assert(all =~= Seq::<A>::empty());
    }
}

/// Where every element that passes `narrow` passes `wide` too, the elements
/// that pass `narrow` can be taken from those that pass `wide`.
proof fn lemma_filter_within<A>(all: Seq<A>, narrow: spec_fn(A) -> bool, wide: spec_fn(A) -> bool)
    requires
        forall|i: int| 0 <= i < all.len() && narrow(#[trigger] all[i]) ==> wide(all[i]),
    ensures
        all.filter(wide).filter(narrow) == all.filter(narrow),
    decreases all.len(),
{
    reveal(Seq::filter);
    if all.len() > 0 {
        let front = all.drop_last();
        let last = all.last();
        assert forall|i: int| 0 <= i < front.len() && narrow(#[trigger] front[i]) implies wide(
            front[i],
        ) by {
            assert(front[i] == all[i]);
        }
        lemma_filter_within(front, narrow, wide);
        assert(last == all[all.len() - 1]);
        if wide(last) {
            let kept = front.filter(wide);
            assert(kept.push(last).drop_last() =~= kept);
        }
    }
}

/// A search returns lines of the text and nothing else: each line that
/// comes back stands in the text at a position of its own and holds the
/// query, the lines come back in the order of their positions, and every
/// line of the text that holds the query is among them.
pub proof fn theorem_matches_are_the_matching_lines(
    query: Seq<char>,
    contents: Seq<char>,
    case_sensitive: bool,
) -> (positions: Seq<int>)
    ensures
        ({
            let lines = lines_of(contents);
            let matches = matching_lines(query, contents, case_sensitive);
            &&& positions.len() == matches.len()
            &&& forall|k: int|
                0 <= k < positions.len() ==> 0 <= #[trigger] positions[k] < lines.len()
                    && matches[k] == lines[positions[k]] && line_matches(
                    query,
                    matches[k],
                    case_sensitive,
                )
            &&& forall|j: int, k: int|
                0 <= j < k < positions.len() ==> #[trigger] positions[j] < #[trigger] positions[k]
            &&& forall|i: int|
                0 <= i < lines.len() && line_matches(query, #[trigger] lines[i], case_sensitive)
                    ==> positions.contains(i)
        }),
{
    lemma_filter_positions(lines_of(contents), line_test(query, case_sensitive))
}

/// Two searches for the same query in the same text return the same lines:
/// what comes back depends on nothing else.
pub proof fn theorem_search_is_repeatable(
    query: Seq<char>,
    contents: Seq<char>,
    case_sensitive: bool,
    first: Seq<Seq<char>>,
    second: Seq<Seq<char>>,
)
    requires
        first == matching_lines(query, contents, case_sensitive),
        second == matching_lines(query, contents, case_sensitive),
    ensures
        first == second,
{
}

/// The empty query occurs in every line, so a search for it returns all the
/// lines of the text, whether case counts or not.
pub proof fn theorem_empty_query_matches_every_line(contents: Seq<char>, case_sensitive: bool)
    ensures
        matching_lines(Seq::empty(), contents, case_sensitive) == lines_of(contents),
{
    let lines = lines_of(contents);
    let query = Seq::<char>::empty();
    let test = line_test(query, case_sensitive);
    assert forall|i: int| 0 <= i < lines.len() implies test(#[trigger] lines[i]) by {
        let line = if case_sensitive {
            lines[i]
        } else {
            lowercase(lines[i])
        };
        assert(line.subrange(0, 0) =~= query);
        assert(occurs_at(query, line, 0));
    }
    lemma_filter_keeps_all(lines, test);
}

/// A query that is longer than every line of the text occurs in none of
/// them as it is written.
pub proof fn theorem_long_query_matches_no_line(query: Seq<char>, contents: Seq<char>)
    requires
        forall|i: int|
            0 <= i < lines_of(contents).len() ==> (#[trigger] lines_of(contents)[i]).len()
                < query.len(),
    ensures
        sensitive_matches(query, contents) == Seq::<Seq<char>>::empty(),
{
    lemma_filter_keeps_none(lines_of(contents), line_test(query, true));
}

/// A query whose lowercase form is longer than that of every line of the
/// text is found in none of them where case does not count.
pub proof fn theorem_long_lowercase_query_matches_no_line(query: Seq<char>, contents: Seq<char>)
    requires
        forall|i: int|
            0 <= i < lines_of(contents).len() ==> lowercase(#[trigger] lines_of(contents)[i]).len()
                < lowercase(query).len(),
    ensures
        insensitive_matches(query, contents) == Seq::<Seq<char>>::empty(),
{
    lemma_filter_keeps_none(lines_of(contents), line_test(query, false));
}

/// Where every line that holds the query as it is written also holds it
/// between the lowercase forms, the search without regard to case returns
/// at least the lines of the search with regard to case: these are the
/// lines among its own that hold the query as it is written.
pub proof fn theorem_insensitive_search_finds_no_less(query: Seq<char>, contents: Seq<char>)
    requires
        forall|i: int|
            0 <= i < lines_of(contents).len() && is_infix(query, #[trigger] lines_of(contents)[i])
                ==> is_infix(lowercase(query), lowercase(lines_of(contents)[i])),
    ensures
        sensitive_matches(query, contents) == insensitive_matches(query, contents).filter(
            line_test(query, true),
        ),
        sensitive_matches(query, contents).len() <= insensitive_matches(query, contents).len(),
{
    let lines = lines_of(contents);
    let narrow = line_test(query, true);
    let wide = line_test(query, false);
    lemma_filter_within(lines, narrow, wide);
    lines.filter(wide).lemma_filter_len(narrow);
}

} // verus!
