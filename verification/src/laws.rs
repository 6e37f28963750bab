//! Laws of the line matcher, stated over the spec functions that the
//! search functions' contracts use and proved for every input.

use crate::matcher::ascii_ci_matching_lines;
use crate::matcher::ascii_lowercase;
use crate::matcher::ci_matching_lines;
use crate::matcher::matching_lines;
use crate::text::contains_at;
use crate::text::contains_seq;
use crate::text::lemma_contains_empty;
use crate::text::lines_of;
use vstd::prelude::*;
use vstd::utf8::is_ascii_chars;

verus! {

/// Every line that a search keeps contains the query: each element of
/// `matching_lines(lines_of(contents), query)` — which is what `search`
/// returns — contains `query` as a contiguous substring.
pub proof fn lemma_search_results_contain_query(contents: Seq<char>, query: Seq<char>)
    ensures
        forall|k: int|
            0 <= k < matching_lines(lines_of(contents), query).len() ==> contains_seq(
                #[trigger] matching_lines(lines_of(contents), query)[k],
                query,
            ),
{
    lemma_matching_lines_contain_query(lines_of(contents), query);
}

/// Over any line sequence, every kept line contains the query.
proof fn lemma_matching_lines_contain_query(lines: Seq<Seq<char>>, query: Seq<char>)
    ensures
        forall|k: int|
            0 <= k < matching_lines(lines, query).len() ==> contains_seq(
                #[trigger] matching_lines(lines, query)[k],
                query,
            ),
    decreases lines.len(),
{
    if lines.len() > 0 {
        lemma_matching_lines_contain_query(lines.drop_last(), query);
        let rest = matching_lines(lines.drop_last(), query);
        assert forall|k: int|
            0 <= k < matching_lines(lines, query).len() implies contains_seq(
            #[trigger] matching_lines(lines, query)[k],
            query,
        ) by {
            if k < rest.len() {
                assert(matching_lines(lines, query)[k] == rest[k]);
            }
        }
    }
}

/// A containment survives a character-for-character map: if `needle` occurs
/// in `hay`, then the ASCII lowercasing of `needle` occurs in the ASCII
/// lowercasing of `hay`.
pub proof fn lemma_ascii_fold_preserves_containment(hay: Seq<char>, needle: Seq<char>)
    requires
        contains_seq(hay, needle),
    ensures
        contains_seq(ascii_lowercase(hay), ascii_lowercase(needle)),
{
    let i = choose|i: int| contains_at(hay, needle, i);
    assert(ascii_lowercase(hay).subrange(i, i + ascii_lowercase(needle).len())
        =~= ascii_lowercase(needle)) by {
        assert forall|t: int| 0 <= t < needle.len() implies ascii_lowercase(hay)[i + t]
            == ascii_lowercase(needle)[t] by {
            assert(hay.subrange(i, i + needle.len())[t] == needle[t]);
        }
    }
    assert(contains_at(ascii_lowercase(hay), ascii_lowercase(needle), i));
}

/// Case-insensitive matching keeps at least the lines that case-sensitive
/// matching keeps. On ASCII query and contents — where, by the contract of
/// `search_case_insensitive`, `ascii_ci_matching_lines` is what that
/// function returns — the case-insensitive result is a superset by count
/// of the case-sensitive one.
pub proof fn lemma_case_insensitive_superset(contents: Seq<char>, query: Seq<char>)
    requires
        is_ascii_chars(contents),
        is_ascii_chars(query),
    ensures
        matching_lines(lines_of(contents), query).len() <= ascii_ci_matching_lines(
            lines_of(contents),
            query,
        ).len(),
        forall|k: int|
            0 <= k < lines_of(contents).len() && contains_seq(
                #[trigger] lines_of(contents)[k],
                query,
            ) ==> contains_seq(ascii_lowercase(lines_of(contents)[k]), ascii_lowercase(query)),
{
    lemma_matching_lines_subcount(lines_of(contents), query);
    assert forall|k: int|
        0 <= k < lines_of(contents).len() && contains_seq(
            #[trigger] lines_of(contents)[k],
            query,
        ) implies contains_seq(
        ascii_lowercase(lines_of(contents)[k]),
        ascii_lowercase(query),
    ) by {
        lemma_ascii_fold_preserves_containment(lines_of(contents)[k], query);
    }
}

/// Over any line sequence, folding case never loses a match.
proof fn lemma_matching_lines_subcount(lines: Seq<Seq<char>>, query: Seq<char>)
    ensures
        matching_lines(lines, query).len() <= ascii_ci_matching_lines(lines, query).len(),
    decreases lines.len(),
{
    if lines.len() > 0 {
        lemma_matching_lines_subcount(lines.drop_last(), query);
        if contains_seq(lines.last(), query) {
            lemma_ascii_fold_preserves_containment(lines.last(), query);
        }
    }
}

/// An empty query keeps every line: matching the empty string returns all
/// lines of the text, unchanged and in their original order.
pub proof fn lemma_empty_query_keeps_all_lines(contents: Seq<char>)
    ensures
        matching_lines(lines_of(contents), Seq::<char>::empty()) == lines_of(contents),
{
    lemma_matching_lines_empty_query(lines_of(contents));
}

/// Over any line sequence, the empty query keeps every line.
proof fn lemma_matching_lines_empty_query(lines: Seq<Seq<char>>)
    ensures
        matching_lines(lines, Seq::<char>::empty()) == lines,
    decreases lines.len(),
{
    if lines.len() == 0 {
        assert(matching_lines(lines, Seq::<char>::empty()) =~= lines);
    } else {
        lemma_matching_lines_empty_query(lines.drop_last());
        lemma_contains_empty(lines.last(), Seq::<char>::empty());
        assert(lines.drop_last().push(lines.last()) =~= lines);
    }
}

/// Searching is idempotent: the contracts of `search` and of
/// `search_case_insensitive` pin the returned line sequence to a single
/// value, so two calls with identical query and contents return identical
/// results, element for element and in the same order.
pub proof fn lemma_search_deterministic(
    first: Seq<Seq<char>>,
    second: Seq<Seq<char>>,
    query: Seq<char>,
    contents: Seq<char>,
    case_sensitive: bool,
)
    requires
        first == (if case_sensitive {
            matching_lines(lines_of(contents), query)
        } else {
            ci_matching_lines(lines_of(contents), query)
        }),
        second == (if case_sensitive {
            matching_lines(lines_of(contents), query)
        } else {
            ci_matching_lines(lines_of(contents), query)
        }),
    ensures
        first == second,
{
}

} // verus!
