//! The line matcher: which lines of a text contain a query, with or
//! without case folding.

use crate::config::Config;
use crate::text::contains_seq;
use crate::text::contains_substring;
use crate::text::lemma_contains_empty;
use crate::text::lemma_lines_of_ascii;
use crate::text::lines_of;
use crate::text::split_lines;
use crate::text::views_of;
use vstd::prelude::*;
use vstd::utf8::is_ascii_chars;

verus! {

/// What `str::to_lowercase` returns for the given characters.
pub uninterp spec fn lower_of(s: Seq<char>) -> Seq<char>;

/// The ASCII lowercasing of one character: the letters `'A'` to `'Z'` move
/// to `'a'` to `'z'`, every other character stays.
pub open spec fn ascii_lower_char(c: char) -> char {
    if 'A' <= c && c <= 'Z' {
        ((c as u32 + 32) as u32) as char
    } else {
        c
    }
}

/// The ASCII lowercasing of a character sequence, letter by letter.
pub open spec fn ascii_lowercase(s: Seq<char>) -> Seq<char> {
    s.map_values(|c: char| ascii_lower_char(c))
}

/// Relies on `str::to_lowercase`: the result is a function of the
/// characters alone (its only context-dependent mapping, the Greek capital
/// sigma, still depends only on the characters around it). On ASCII text it
/// lowercases each letter in place, since the sigma is not ASCII; an empty
/// string stays empty.
#[verifier::external_body]
fn lowercase(s: &str) -> (r: String)
    ensures
        r@ == lower_of(s@),
        is_ascii_chars(s@) ==> r@ == ascii_lowercase(s@),
        s@.len() == 0 ==> r@.len() == 0,
{
    s.to_lowercase()
}

/// The lines among `lines` that contain `query`, in order.
pub open spec fn matching_lines(lines: Seq<Seq<char>>, query: Seq<char>) -> Seq<Seq<char>>
    decreases lines.len(),
{
    if lines.len() == 0 {
        Seq::<Seq<char>>::empty()
    } else {
        let rest = matching_lines(lines.drop_last(), query);
        if contains_seq(lines.last(), query) {
            rest.push(lines.last())
        } else {
            rest
        }
    }
}

/// The lines among `lines` whose lowercasing contains the lowercasing of
/// `query`, in order; the lines keep their original characters.
pub open spec fn ci_matching_lines(lines: Seq<Seq<char>>, query: Seq<char>) -> Seq<Seq<char>>
    decreases lines.len(),
{
    if lines.len() == 0 {
        Seq::<Seq<char>>::empty()
    } else {
        let rest = ci_matching_lines(lines.drop_last(), query);
        if contains_seq(lower_of(lines.last()), lower_of(query)) {
            rest.push(lines.last())
        } else {
            rest
        }
    }
}

/// As `ci_matching_lines`, but spelled with the ASCII letter map: on ASCII
/// input the two agree, and this form is independent of `lower_of`.
pub open spec fn ascii_ci_matching_lines(lines: Seq<Seq<char>>, query: Seq<char>) -> Seq<
    Seq<char>,
>
    decreases lines.len(),
{
    if lines.len() == 0 {
        Seq::<Seq<char>>::empty()
    } else {
        let rest = ascii_ci_matching_lines(lines.drop_last(), query);
        if contains_seq(ascii_lowercase(lines.last()), ascii_lowercase(query)) {
            rest.push(lines.last())
        } else {
            rest
        }
    }
}

/// One step of `matching_lines` over a growing prefix.
pub proof fn lemma_matching_lines_step(lines: Seq<Seq<char>>, query: Seq<char>, i: int)
    requires
        0 <= i < lines.len(),
    ensures
        matching_lines(lines.take(i + 1), query) == (if contains_seq(lines[i], query) {
            matching_lines(lines.take(i), query).push(lines[i])
        } else {
            matching_lines(lines.take(i), query)
        }),
{
    let pre = lines.take(i + 1);
    assert(pre.drop_last() =~= lines.take(i));
    assert(pre.last() == lines[i]);
}

/// One step of `ci_matching_lines` over a growing prefix.
pub proof fn lemma_ci_matching_lines_step(lines: Seq<Seq<char>>, query: Seq<char>, i: int)
    requires
        0 <= i < lines.len(),
    ensures
        ci_matching_lines(lines.take(i + 1), query) == (if contains_seq(
            lower_of(lines[i]),
            lower_of(query),
        ) {
            ci_matching_lines(lines.take(i), query).push(lines[i])
        } else {
            ci_matching_lines(lines.take(i), query)
        }),
{
    let pre = lines.take(i + 1);
    assert(pre.drop_last() =~= lines.take(i));
    assert(pre.last() == lines[i]);
}

/// One step of `ascii_ci_matching_lines` over a growing prefix.
pub proof fn lemma_ascii_ci_matching_lines_step(lines: Seq<Seq<char>>, query: Seq<char>, i: int)
    requires
        0 <= i < lines.len(),
    ensures
        ascii_ci_matching_lines(lines.take(i + 1), query) == (if contains_seq(
            ascii_lowercase(lines[i]),
            ascii_lowercase(query),
        ) {
            ascii_ci_matching_lines(lines.take(i), query).push(lines[i])
        } else {
            ascii_ci_matching_lines(lines.take(i), query)
        }),
{
    let pre = lines.take(i + 1);
    assert(pre.drop_last() =~= lines.take(i));
    assert(pre.last() == lines[i]);
}

/// A query whose lowercasing is empty keeps every line.
pub proof fn lemma_ci_matching_lines_all(lines: Seq<Seq<char>>, query: Seq<char>)
    requires
        lower_of(query).len() == 0,
    ensures
        ci_matching_lines(lines, query) == lines,
    decreases lines.len(),
{
    if lines.len() == 0 {
        assert(ci_matching_lines(lines, query) =~= lines);
    } else {
        lemma_ci_matching_lines_all(lines.drop_last(), query);
        lemma_contains_empty(lower_of(lines.last()), lower_of(query));
        assert(lines.drop_last().push(lines.last()) =~= lines);
    }
}

/// The lines of `contents` that contain `query` as a contiguous substring,
/// in their original order.
pub fn search<'a>(query: &str, contents: &'a str) -> (r: Vec<&'a str>)
    ensures
        views_of(r@) == matching_lines(lines_of(contents@), query@),
{
    let lines = split_lines(contents);
    let ghost lv = views_of(lines@);
    let mut r: Vec<&'a str> = Vec::new();
    let mut i: usize = 0;
    while i < lines.len()
        invariant
            i <= lines@.len(),
            lv == views_of(lines@),
            lv == lines_of(contents@),
            views_of(r@) == matching_lines(lv.take(i as int), query@),
        decreases lines@.len() - i,
    {
        let line = lines[i];
        proof {
            lemma_matching_lines_step(lv, query@, i as int);
            assert(lv[i as int] == line@);
        }
        if contains_substring(line, query) {
            proof {
                assert(views_of(r@.push(line)) =~= views_of(r@).push(line@));
            }
            r.push(line);
        }
        i += 1;
    }
    proof {
        assert(lv.take(lines@.len() as int) =~= lv);
    }
    r
}

/// The lines of `contents` whose lowercasing contains the lowercased
/// `query`, in their original order; the returned lines keep their
/// original characters.
pub fn search_case_insensitive<'a>(query: &str, contents: &'a str) -> (r: Vec<&'a str>)
    ensures
        views_of(r@) == ci_matching_lines(lines_of(contents@), query@),
        is_ascii_chars(query@) && is_ascii_chars(contents@) ==> views_of(r@)
            == ascii_ci_matching_lines(lines_of(contents@), query@),
        query@.len() == 0 ==> views_of(r@) == lines_of(contents@),
{
    let query_lower = lowercase(query);
    let lines = split_lines(contents);
    let ghost lv = views_of(lines@);
    let ghost ascii_in = is_ascii_chars(query@) && is_ascii_chars(contents@);
    proof {
        if is_ascii_chars(contents@) {
            lemma_lines_of_ascii(contents@);
        }
    }
    let mut r: Vec<&'a str> = Vec::new();
    let mut i: usize = 0;
    while i < lines.len()
        invariant
            i <= lines@.len(),
            lv == views_of(lines@),
            lv == lines_of(contents@),
            query_lower@ == lower_of(query@),
            ascii_in == (is_ascii_chars(query@) && is_ascii_chars(contents@)),
            ascii_in ==> query_lower@ == ascii_lowercase(query@),
            ascii_in ==> forall|k: int| 0 <= k < lv.len() ==> is_ascii_chars(#[trigger] lv[k]),
            views_of(r@) == ci_matching_lines(lv.take(i as int), query@),
            ascii_in ==> views_of(r@) == ascii_ci_matching_lines(lv.take(i as int), query@),
        decreases lines@.len() - i,
    {
        let line = lines[i];
        let line_lower = lowercase(line);
        proof {
            lemma_ci_matching_lines_step(lv, query@, i as int);
            lemma_ascii_ci_matching_lines_step(lv, query@, i as int);
            assert(lv[i as int] == line@);
        }
        if contains_substring(line_lower.as_str(), query_lower.as_str()) {
            proof {
                assert(views_of(r@.push(line)) =~= views_of(r@).push(line@));
            }
            r.push(line);
        }
        i += 1;
    }
    proof {
        assert(lv.take(lines@.len() as int) =~= lv);
        if query@.len() == 0 {
            assert(lower_of(query@) =~= Seq::<char>::empty());
            lemma_ci_matching_lines_all(lv, query@);
        }
    }
    r
}

/// The matching lines for one whole run, as the configuration asks:
/// case-sensitively or with case folding. Reading the file and printing
/// the result stay with the caller.
pub fn run_search<'a>(config: &Config, contents: &'a str) -> (r: Vec<&'a str>)
    ensures
        config.case_sensitive ==> views_of(r@) == matching_lines(
            lines_of(contents@),
            config.query@,
        ),
        !config.case_sensitive ==> views_of(r@) == ci_matching_lines(
            lines_of(contents@),
            config.query@,
        ),
{
    if config.case_sensitive {
        search(config.query.as_str(), contents)
    } else {
        search_case_insensitive(config.query.as_str(), contents)
    }
}

} // verus!
