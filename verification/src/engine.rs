//! The search engine: a mathematical model of line splitting and substring
//! containment, the two search variants proved against it, and the laws that
//! relate them.

use crate::config::Config;
use vstd::prelude::*;

verus! {

/// The position of the first line break in `s` at or after `from`, or
/// `s.len()` when no line break follows.
pub open spec fn find_newline(s: Seq<char>, from: int) -> int
    recommends
        0 <= from <= s.len(),
    decreases s.len() - from,
{
    if from >= s.len() {
        s.len() as int
    } else if s[from] == '\n' {
        from
    } else {
        find_newline(s, from + 1)
    }
}

/// The lines of `s`: maximal stretches free of `'\n'`, in order. A trailing
/// line break closes the last line without opening an empty one, so empty
/// contents have no lines at all.
pub open spec fn split_lines(s: Seq<char>) -> Seq<Seq<char>>
    decreases s.len(),
{
    if s.len() == 0 {
        Seq::empty()
    } else {
        let cut = find_newline(s, 0);
        if 0 <= cut && cut < s.len() {
            seq![s.take(cut)] + split_lines(s.skip(cut + 1))
        } else {
            seq![s]
        }
    }
}

/// `pattern` occurs in `text` starting exactly at position `i`.
pub open spec fn contains_at(text: Seq<char>, pattern: Seq<char>, i: int) -> bool {
    &&& 0 <= i
    &&& i + pattern.len() <= text.len()
    &&& text.subrange(i, i + pattern.len() as int) == pattern
}

/// `pattern` occurs somewhere in `text` as a contiguous substring.
pub open spec fn contains_substring(text: Seq<char>, pattern: Seq<char>) -> bool {
    exists|i: int| contains_at(text, pattern, i)
}

/// `find_newline` lands between `from` and the end, on a line break when one
/// exists, and skips nothing but non-break characters on the way.
pub proof fn lemma_find_newline_props(s: Seq<char>, from: int)
    requires
        0 <= from <= s.len(),
    ensures
        from <= find_newline(s, from) <= s.len(),
        forall|k: int| from <= k < find_newline(s, from) ==> s[k] != '\n',
        find_newline(s, from) < s.len() ==> s[find_newline(s, from)] == '\n',
    decreases s.len() - from,
{
    if from < s.len() && s[from] != '\n' {
        lemma_find_newline_props(s, from + 1);
    }
}

/// A position `m` with no line break before it (at or after `from`) and a
/// line break, or the end, at it is exactly what `find_newline` returns.
pub proof fn lemma_find_newline_is_first(s: Seq<char>, from: int, m: int)
    requires
        0 <= from <= m <= s.len(),
        forall|k: int| from <= k < m ==> s[k] != '\n',
        m == s.len() || s[m] == '\n',
    ensures
        find_newline(s, from) == m,
    decreases m - from,
{
    if from < m {
        lemma_find_newline_is_first(s, from + 1, m);
    }
}

/// Whether `query` occurs in `text` starting at `at`, by comparing the
/// characters one by one.
fn matches_at(text: &str, query: &str, at: usize, qlen: usize) -> (r: bool)
    requires
        qlen == query@.len(),
        at + qlen <= text@.len(),
        text@.len() <= usize::MAX,
    ensures
        r == contains_at(text@, query@, at as int),
{
    let mut j: usize = 0;
    while j < qlen
        invariant
            j <= qlen,
            qlen == query@.len(),
            at + qlen <= text@.len() <= usize::MAX,
            forall|k: int| 0 <= k < j ==> text@[at + k] == query@[k],
        decreases qlen - j,
    {
        if text.get_char(at + j) != query.get_char(j) {
            proof {
                assert(text@.subrange(at as int, at + qlen)[j as int] == text@[at + j]);
            }
            return false;
        }
        j += 1;
    }
    proof {
        assert(text@.subrange(at as int, at + qlen) =~= query@);
    }
    true
}

/// Whether `query` occurs anywhere in `text`, by trying every start
/// position in order.
fn contains_str(text: &str, query: &str) -> (r: bool)
    ensures
        r == contains_substring(text@, query@),
{
    let tlen = text.unicode_len();
    let qlen = query.unicode_len();
    if qlen > tlen {
        assert(forall|i: int| !contains_at(text@, query@, i));
        return false;
    }
    if qlen == 0 {
        proof {
            assert(text@.subrange(0, 0) =~= query@);
            assert(contains_at(text@, query@, 0));
        }
        return true;
    }
    let mut i: usize = 0;
    while i <= tlen - qlen
        invariant
            0 < qlen <= tlen,
            tlen == text@.len(),
            qlen == query@.len(),
            i <= tlen - qlen + 1,
            forall|k: int| 0 <= k < i ==> !contains_at(text@, query@, k),
        decreases tlen - qlen - i + 1,
    {
        if matches_at(text, query, i, qlen) {
            return true;
        }
        i += 1;
    }
    assert(forall|k: int| !contains_at(text@, query@, k));
    false
}

/// Splits `contents` into its lines, as owned strings, in order.
pub fn split_into_lines(contents: &str) -> (lines: Vec<String>)
    ensures
        lines.deep_view() == split_lines(contents@),
{
    let n = contents.unicode_len();
    let mut lines: Vec<String> = Vec::new();
    let mut i: usize = 0;
    proof {
        assert(contents@.skip(0) =~= contents@);
    }
    while i < n
        invariant
            n == contents@.len(),
            i <= n,
            split_lines(contents@) == lines.deep_view() + split_lines(contents@.skip(i as int)),
        decreases n - i,
    {
        let ghost prefix = lines.deep_view();
        let ghost rest = contents@.skip(i as int);
        let mut j: usize = i;
        while j < n && contents.get_char(j) != '\n'
            invariant
                i <= j <= n,
                n == contents@.len(),
                forall|k: int| i <= k < j ==> contents@[k] != '\n',
            decreases n - j,
        {
            j += 1;
        }
        let line = contents.substring_char(i, j).to_owned();
        proof {
            assert forall|k: int| 0 <= k < j - i implies rest[k] != '\n' by {
                assert(rest[k] == contents@[i + k]);
            }
            lemma_find_newline_is_first(rest, 0, j - i);
            assert(line@ =~= rest.take(j - i));
        }
        lines.push(line);
        proof {
            assert(lines.deep_view() =~= prefix.push(line@));
        }
        if j < n {
            proof {
                assert(split_lines(rest) == seq![rest.take(j - i)] + split_lines(
                    rest.skip(j - i + 1),
                ));
                assert(rest.skip(j - i + 1) =~= contents@.skip(j + 1));
                assert(prefix.push(line@) + split_lines(contents@.skip(j + 1)) =~= prefix
                    + split_lines(rest));
            }
            i = j + 1;
        } else {
            proof {
                assert(split_lines(rest) == seq![rest]);
                assert(line@ =~= rest);
                assert(contents@.skip(n as int) =~= Seq::<char>::empty());
                assert(prefix.push(line@) + split_lines(contents@.skip(n as int)) =~= prefix
                    + split_lines(rest));
            }
            i = n;
        }
    }
    proof {
        assert(contents@.skip(n as int) =~= Seq::<char>::empty());
        assert(lines.deep_view() + split_lines(contents@.skip(n as int)) =~= lines.deep_view());
    }
    lines
}

/// What lowercasing a string returns, named so that contracts can speak of
/// it; the result depends on the characters alone.
pub uninterp spec fn lower_of(s: Seq<char>) -> Seq<char>;

/// Relies on str::to_lowercase: lowercases every character of `s`, by the
/// Unicode lowercasing tables, independent of any locale or environment.
#[verifier::external_body]
fn lowercase(s: &str) -> (r: String)
    ensures
        r@ == lower_of(s@),
{
    s.to_lowercase()
}

/// The lines of `contents` that contain `query`, case-sensitively, in their
/// original order.
pub open spec fn matching_lines(query: Seq<char>, contents: Seq<char>) -> Seq<Seq<char>> {
    split_lines(contents).filter(|line: Seq<char>| contains_substring(line, query))
}

/// The lines of `contents` that contain `query` once both are lowercased,
/// in their original order and with their original casing.
pub open spec fn matching_lines_nocase(query: Seq<char>, contents: Seq<char>) -> Seq<Seq<char>> {
    split_lines(contents).filter(
        |line: Seq<char>| contains_substring(lower_of(line), lower_of(query)),
    )
}

/// Returns every line of `contents` that contains `query` as a contiguous
/// substring, case-sensitively, in their original order.
pub fn search(query: &str, contents: &str) -> (results: Vec<String>)
    ensures
        results.deep_view() == matching_lines(query@, contents@),
{
    broadcast use vstd::seq_lib::group_filter_ensures;
    broadcast use Seq::lemma_filter_push;

    let ghost pred = |line: Seq<char>| contains_substring(line, query@);
    let lines = split_into_lines(contents);
    let mut results: Vec<String> = Vec::new();
    let n = lines.len();
    let mut idx: usize = 0;
    proof {
        assert(lines.deep_view().take(0) =~= Seq::<Seq<char>>::empty());
        assert(Seq::<Seq<char>>::empty().filter(pred) =~= Seq::<Seq<char>>::empty());
    }
    while idx < n
        invariant
            n == lines@.len(),
            idx <= n,
            lines.deep_view() == split_lines(contents@),
            results.deep_view() == lines.deep_view().take(idx as int).filter(pred),
            pred == (|line: Seq<char>| contains_substring(line, query@)),
        decreases n - idx,
    {
        let ghost done = results.deep_view();
        let ghost taken = lines.deep_view().take(idx as int);
        if contains_str(lines[idx].as_str(), query) {
            results.push(lines[idx].clone());
            proof {
                assert(results.deep_view() =~= done.push(lines.deep_view()[idx as int]));
            }
        }
        proof {
            assert(lines.deep_view().take(idx + 1) =~= taken.push(lines.deep_view()[idx as int]));
            taken.lemma_filter_push(lines.deep_view()[idx as int], pred);
            assert(results.deep_view() == lines.deep_view().take(idx + 1).filter(pred));
        }
        idx += 1;
    }
    proof {
        assert(lines.deep_view().take(n as int) =~= lines.deep_view());
    }
    results
}

/// Returns every line of `contents` that contains `query` once both are
/// lowercased; the returned lines keep their original casing and order.
pub fn search_case_insensitive(query: &str, contents: &str) -> (results: Vec<String>)
    ensures
        results.deep_view() == matching_lines_nocase(query@, contents@),
{
    broadcast use vstd::seq_lib::group_filter_ensures;
    broadcast use Seq::lemma_filter_push;

    let ghost pred = |line: Seq<char>| contains_substring(lower_of(line), lower_of(query@));
    let lowered_query = lowercase(query);
    let lines = split_into_lines(contents);
    let mut results: Vec<String> = Vec::new();
    let n = lines.len();
    let mut idx: usize = 0;
    proof {
        assert(lines.deep_view().take(0) =~= Seq::<Seq<char>>::empty());
        assert(Seq::<Seq<char>>::empty().filter(pred) =~= Seq::<Seq<char>>::empty());
    }
    while idx < n
        invariant
            n == lines@.len(),
            idx <= n,
            lines.deep_view() == split_lines(contents@),
            lowered_query@ == lower_of(query@),
            results.deep_view() == lines.deep_view().take(idx as int).filter(pred),
            pred == (|line: Seq<char>| contains_substring(lower_of(line), lower_of(query@))),
        decreases n - idx,
    {
        let ghost done = results.deep_view();
        let ghost taken = lines.deep_view().take(idx as int);
        let lowered_line = lowercase(lines[idx].as_str());
        if contains_str(lowered_line.as_str(), lowered_query.as_str()) {
            results.push(lines[idx].clone());
            proof {
                assert(results.deep_view() =~= done.push(lines.deep_view()[idx as int]));
            }
        }
        proof {
            assert(lines.deep_view().take(idx + 1) =~= taken.push(lines.deep_view()[idx as int]));
            taken.lemma_filter_push(lines.deep_view()[idx as int], pred);
            assert(results.deep_view() == lines.deep_view().take(idx + 1).filter(pred));
        }
        idx += 1;
    }
    proof {
        assert(lines.deep_view().take(n as int) =~= lines.deep_view());
    }
    results
}

/// Selects the search variant that the configuration calls for and runs it
/// over `contents`.
pub fn run_search(config: &Config, contents: &str) -> (results: Vec<String>)
    ensures
        config.ignore_case ==> results.deep_view() == matching_lines_nocase(
            config.query@,
            contents@,
        ),
        !config.ignore_case ==> results.deep_view() == matching_lines(config.query@, contents@),
{
    if config.ignore_case {
        search_case_insensitive(config.query.as_str(), contents)
    } else {
        search(config.query.as_str(), contents)
    }
}

} // verus!
