//! Substring containment and line splitting over character sequences.

use vstd::prelude::*;
use vstd::string::StrSliceExecFns;
use vstd::utf8::is_ascii_chars;

verus! {

/// The character sequences that a vector of string slices denotes.
pub open spec fn views_of(lines: Seq<&str>) -> Seq<Seq<char>> {
    lines.map_values(|l: &str| l@)
}

/// `needle` occurs in `hay` as the contiguous run starting at position `i`.
pub open spec fn contains_at(hay: Seq<char>, needle: Seq<char>, i: int) -> bool {
    &&& 0 <= i
    &&& i + needle.len() <= hay.len()
    &&& hay.subrange(i, i + needle.len()) == needle
}

/// `needle` occurs somewhere in `hay` as a contiguous run of characters.
pub open spec fn contains_seq(hay: Seq<char>, needle: Seq<char>) -> bool {
    exists|i: int| contains_at(hay, needle, i)
}

/// An empty needle is contained in every sequence.
pub proof fn lemma_contains_empty(hay: Seq<char>, needle: Seq<char>)
    requires
        needle.len() == 0,
    ensures
        contains_seq(hay, needle),
{
    assert(hay.subrange(0, 0) =~= needle);
    assert(contains_at(hay, needle, 0));
}

/// Whether `needle` occurs in `hay` as a contiguous substring of characters.
pub fn contains_substring(hay: &str, needle: &str) -> (r: bool)
    ensures
        r == contains_seq(hay@, needle@),
{
    let hay_len = hay.unicode_len();
    let needle_len = needle.unicode_len();
    if needle_len > hay_len {
        return false;
    }
    if needle_len == 0 {
        proof {
            lemma_contains_empty(hay@, needle@);
        }
        return true;
    }
    let mut i: usize = 0;
    while i <= hay_len - needle_len
        invariant
            0 < needle_len <= hay_len,
            hay_len == hay@.len(),
            needle_len == needle@.len(),
            i <= hay_len - needle_len + 1,
            forall|k: int| 0 <= k < i ==> !contains_at(hay@, needle@, k),
        decreases hay_len - needle_len - i + 1,
    {
        let mut j: usize = 0;
        let mut prefix_eq = true;
        while j < needle_len && prefix_eq
            invariant
                needle_len <= hay_len,
                hay_len == hay@.len(),
                needle_len == needle@.len(),
                i + needle_len <= hay_len,
                j <= needle_len,
                prefix_eq ==> forall|t: int| 0 <= t < j ==> hay@[i + t] == needle@[t],
                !prefix_eq ==> !contains_at(hay@, needle@, i as int),
            decreases needle_len - j,
        {
            if hay.get_char(i + j) != needle.get_char(j) {
                proof {
                    if contains_at(hay@, needle@, i as int) {
                        assert(hay@.subrange(i as int, i + needle@.len())[j as int]
                            == needle@[j as int]);
                    }
                }
                prefix_eq = false;
            }
            j += 1;
        }
        if prefix_eq {
            proof {
                assert(hay@.subrange(i as int, i + needle@.len()) =~= needle@);
                assert(contains_at(hay@, needle@, i as int));
            }
            return true;
        }
        i += 1;
    }
    proof {
        assert forall|k: int| !contains_at(hay@, needle@, k) by {
            if 0 <= k < i {
                assert(!contains_at(hay@, needle@, k));
            }
        }
    }
    false
}

/// The lines of `s`, split at each `'\n'`. The separator belongs to no
/// line; a final line without a terminator still counts, and a terminator
/// at the very end opens no further empty line.
pub open spec fn lines_of(s: Seq<char>) -> Seq<Seq<char>>
    decreases s.len(),
{
    if s.len() == 0 {
        Seq::<Seq<char>>::empty()
    } else if s[0] == '\n' {
        seq![Seq::<char>::empty()] + lines_of(s.skip(1))
    } else {
        let rest = lines_of(s.skip(1));
        if rest.len() == 0 {
            seq![seq![s[0]]]
        } else {
            seq![seq![s[0]] + rest[0]] + rest.skip(1)
        }
    }
}

/// A non-empty text has at least one line.
pub proof fn lemma_lines_of_nonempty(s: Seq<char>)
    requires
        s.len() > 0,
    ensures
        lines_of(s).len() > 0,
{
}

/// A non-empty text without a separator is a single line.
pub proof fn lemma_lines_of_unterminated(s: Seq<char>)
    requires
        s.len() > 0,
        forall|i: int| 0 <= i < s.len() ==> s[i] != '\n',
    ensures
        lines_of(s) == seq![s],
    decreases s.len(),
{
    let t = s.skip(1);
    if s.len() == 1 {
        assert(t =~= Seq::<char>::empty());
        assert(lines_of(t) == Seq::<Seq<char>>::empty());
        assert(seq![s[0]] =~= s);
        assert(lines_of(s) =~= seq![s]);
    } else {
        lemma_lines_of_unterminated(t);
        assert(seq![s[0]] + t =~= s);
        assert(seq![t].skip(1) =~= Seq::<Seq<char>>::empty());
        assert(lines_of(s) =~= seq![s]);
    }
}

/// A text whose only separator is its last character is that single line,
/// without the terminator.
pub proof fn lemma_lines_of_terminated(s: Seq<char>)
    requires
        s.len() > 0,
        s[s.len() - 1] == '\n',
        forall|i: int| 0 <= i < s.len() - 1 ==> s[i] != '\n',
    ensures
        lines_of(s) == seq![s.drop_last()],
    decreases s.len(),
{
    let t = s.skip(1);
    if s.len() == 1 {
        assert(t =~= Seq::<char>::empty());
        assert(lines_of(t) == Seq::<Seq<char>>::empty());
        assert(s.drop_last() =~= Seq::<char>::empty());
        assert(lines_of(s) =~= seq![s.drop_last()]);
    } else {
        assert(t[t.len() - 1] == '\n');
        lemma_lines_of_terminated(t);
        assert(seq![s[0]] + t.drop_last() =~= s.drop_last());
        assert(seq![t.drop_last()].skip(1) =~= Seq::<Seq<char>>::empty());
        assert(lines_of(s) =~= seq![s.drop_last()]);
    }
}

/// Splitting distributes over concatenation at a line boundary: when `t`
/// ends with a separator (or is empty), the lines of `t + u` are the lines
/// of `t` followed by the lines of `u`.
pub proof fn lemma_lines_of_concat(t: Seq<char>, u: Seq<char>)
    requires
        t.len() == 0 || t[t.len() - 1] == '\n',
    ensures
        lines_of(t + u) == lines_of(t) + lines_of(u),
    decreases t.len(),
{
    if t.len() == 0 {
        assert(t + u =~= u);
        assert(lines_of(t) + lines_of(u) =~= lines_of(u));
    } else {
        let s = t + u;
        assert(s[0] == t[0]);
        assert(s.skip(1) =~= t.skip(1) + u);
        lemma_lines_of_concat(t.skip(1), u);
        if t[0] == '\n' {
            assert(lines_of(s) =~= lines_of(t) + lines_of(u));
        } else {
            assert(t.len() >= 2) by {
                if t.len() == 1 {
                    assert(t[0] == t[t.len() - 1]);
                }
            }
            let tr = lines_of(t.skip(1));
            lemma_lines_of_nonempty(t.skip(1));
            let rest = lines_of(s.skip(1));
            assert(rest == tr + lines_of(u));
            assert(rest[0] == tr[0]);
            assert(rest.skip(1) =~= tr.skip(1) + lines_of(u));
            assert(lines_of(s) =~= lines_of(t) + lines_of(u));
        }
    }
}

/// Splitting text made of ASCII characters yields lines of ASCII characters.
pub proof fn lemma_lines_of_ascii(s: Seq<char>)
    requires
        is_ascii_chars(s),
    ensures
        forall|k: int|
            0 <= k < lines_of(s).len() ==> is_ascii_chars(#[trigger] lines_of(s)[k]),
    decreases s.len(),
{
    if s.len() > 0 {
        let t = s.skip(1);
        assert(is_ascii_chars(t)) by {
            assert forall|i: int| 0 <= i < t.len() implies '\0' <= #[trigger] t[i]
                <= '\u{7f}' by {
                assert(t[i] == s[i + 1]);
            }
        }
        lemma_lines_of_ascii(t);
        let rest = lines_of(t);
        if s[0] == '\n' {
            assert forall|k: int| 0 <= k < lines_of(s).len() implies is_ascii_chars(
                #[trigger] lines_of(s)[k],
            ) by {
                if k > 0 {
                    assert(lines_of(s)[k] == rest[k - 1]);
                }
            }
        } else if rest.len() == 0 {
            assert forall|k: int| 0 <= k < lines_of(s).len() implies is_ascii_chars(
                #[trigger] lines_of(s)[k],
            ) by {
                assert(lines_of(s)[k] == seq![s[0]]);
                assert(seq![s[0]][0] == s[0]);
            }
        } else {
            assert forall|k: int| 0 <= k < lines_of(s).len() implies is_ascii_chars(
                #[trigger] lines_of(s)[k],
            ) by {
                if k == 0 {
                    let first = seq![s[0]] + rest[0];
                    assert(is_ascii_chars(rest[0]));
                    assert forall|i: int| 0 <= i < first.len() implies '\0'
                        <= #[trigger] first[i] <= '\u{7f}' by {
                        if i > 0 {
                            assert(first[i] == rest[0][i - 1]);
                        } else {
                            assert(first[i] == s[0]);
                        }
                    }
                } else {
                    assert(lines_of(s)[k] == rest.skip(1)[k - 1]);
                    assert(rest.skip(1)[k - 1] == rest[k]);
                }
            }
        }
    }
}

/// Split `contents` into its lines, in order.
pub fn split_lines<'a>(contents: &'a str) -> (r: Vec<&'a str>)
    ensures
        views_of(r@) == lines_of(contents@),
{
    let n = contents.unicode_len();
    let mut r: Vec<&'a str> = Vec::new();
    let mut start: usize = 0;
    let mut i: usize = 0;
    while i < n
        invariant
            start <= i <= n,
            n == contents@.len(),
            views_of(r@) == lines_of(contents@.take(start as int)),
            start == 0 || contents@[start as int - 1] == '\n',
            forall|k: int| start <= k < i ==> contents@[k] != '\n',
        decreases n - i,
    {
        let c = contents.get_char(i);
        if c == '\n' {
            let line = contents.substring_char(start, i);
            proof {
                let prev = contents@.take(start as int);
                let seg = contents@.subrange(start as int, i as int + 1);
                assert(contents@.take(i as int + 1) =~= prev + seg);
                assert(seg[seg.len() - 1] == '\n');
                lemma_lines_of_concat(prev, seg);
                lemma_lines_of_terminated(seg);
                assert(seg.drop_last() =~= line@);
                assert(lines_of(contents@.take(i as int + 1)) =~= lines_of(prev).push(
                    line@,
                ));
                assert(views_of(r@.push(line)) =~= views_of(r@).push(line@));
            }
            r.push(line);
            start = i + 1;
        }
        i += 1;
    }
    if start < n {
        let line = contents.substring_char(start, n);
        proof {
            let prev = contents@.take(start as int);
            let seg = contents@.subrange(start as int, n as int);
            assert(contents@ =~= prev + seg);
            lemma_lines_of_concat(prev, seg);
            lemma_lines_of_unterminated(seg);
            assert(seg =~= line@);
            assert(lines_of(contents@) =~= lines_of(prev).push(line@));
            assert(views_of(r@.push(line)) =~= views_of(r@).push(line@));
        }
        r.push(line);
    } else {
        proof {
            assert(contents@.take(start as int) =~= contents@);
        }
    }
    r
}

} // verus!
