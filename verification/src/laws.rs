//! Laws of the search engine: an absent query yields no matches, and the
//! matching lines keep the order they have in the contents.

use crate::engine::contains_at;
use crate::engine::contains_substring;
use crate::engine::find_newline;
use crate::engine::lemma_find_newline_props;
use crate::engine::lower_of;
use crate::engine::matching_lines;
use crate::engine::matching_lines_nocase;
use crate::engine::split_lines;
use vstd::prelude::*;

verus! {

/// Every element of a filtered sequence stands somewhere in the original.
proof fn lemma_filter_elem_index<A>(s: Seq<A>, pred: spec_fn(A) -> bool, i: int)
    requires
        0 <= i < s.filter(pred).len(),
    ensures
        exists|si: int| 0 <= si < s.len() && s[si] == s.filter(pred)[i],
    decreases s.len(),
{
    reveal(Seq::filter);
    if s.len() > 0 {
        let dl = s.drop_last();
        let dlf = dl.filter(pred);
        if pred(s.last()) && i == dlf.len() {
            assert(s[s.len() - 1] == s.filter(pred)[i]);
        } else {
            lemma_filter_elem_index(dl, pred, i);
            let si = choose|si: int| 0 <= si < dl.len() && dl[si] == dlf[i];
            assert(s[si] == s.filter(pred)[i]);
        }
    }
}

/// Two elements of a filtered sequence stand in the original in the same
/// relative order.
proof fn lemma_filter_keeps_order<A>(s: Seq<A>, pred: spec_fn(A) -> bool, i: int, j: int)
    requires
        0 <= i < j < s.filter(pred).len(),
    ensures
        exists|si: int, sj: int|
            0 <= si < sj < s.len() && s[si] == s.filter(pred)[i] && s[sj] == s.filter(pred)[j],
    decreases s.len(),
{
    reveal(Seq::filter);
    if s.len() > 0 {
        let dl = s.drop_last();
        let dlf = dl.filter(pred);
        if pred(s.last()) && j == dlf.len() {
            lemma_filter_elem_index(dl, pred, i);
            let si = choose|si: int| 0 <= si < dl.len() && dl[si] == dlf[i];
            let sj = s.len() - 1;
            assert(0 <= si < sj < s.len() && s[si] == s.filter(pred)[i] && s[sj] == s.filter(
                pred,
            )[j]);
        } else {
            lemma_filter_keeps_order(dl, pred, i, j);
            let (si, sj) = choose|si: int, sj: int|
                0 <= si < sj < dl.len() && dl[si] == dlf[i] && dl[sj] == dlf[j];
            assert(0 <= si < sj < s.len() && s[si] == s.filter(pred)[i] && s[sj] == s.filter(
                pred,
            )[j]);
        }
    }
}

/// A substring of a substring of `outer` is a substring of `outer`.
pub proof fn lemma_contains_transitive(outer: Seq<char>, inner: Seq<char>, pattern: Seq<char>)
    requires
        contains_substring(outer, inner),
        contains_substring(inner, pattern),
    ensures
        contains_substring(outer, pattern),
{
    let i = choose|i: int| contains_at(outer, inner, i);
    let p = choose|p: int| contains_at(inner, pattern, p);
    assert forall|t: int| 0 <= t < pattern.len() implies outer.subrange(
        i + p,
        i + p + pattern.len() as int,
    )[t] == pattern[t] by {
        assert(outer.subrange(i, i + inner.len() as int)[p + t] == outer[i + p + t]);
        assert(inner.subrange(p, p + pattern.len() as int)[t] == inner[p + t]);
    }
    assert(outer.subrange(i + p, i + p + pattern.len() as int) =~= pattern);
    assert(contains_at(outer, pattern, i + p));
}

/// Every line of `contents` is drawn verbatim from `contents`: it occurs in
/// it as a contiguous substring.
pub proof fn lemma_line_is_substring(contents: Seq<char>, k: int)
    requires
        0 <= k < split_lines(contents).len(),
    ensures
        contains_substring(contents, split_lines(contents)[k]),
    decreases contents.len(),
{
    let cut = find_newline(contents, 0);
    lemma_find_newline_props(contents, 0);
    if 0 <= cut && cut < contents.len() {
        if k == 0 {
            let line = contents.take(cut);
            assert(contents.subrange(0, line.len() as int) =~= line);
            assert(contains_at(contents, line, 0));
        } else {
            let rest = contents.skip(cut + 1);
            lemma_line_is_substring(rest, k - 1);
            let line = split_lines(rest)[k - 1];
            let off = choose|off: int| contains_at(rest, line, off);
            assert forall|t: int| 0 <= t < line.len() implies contents.subrange(
                cut + 1 + off,
                cut + 1 + off + line.len() as int,
            )[t] == line[t] by {
                assert(rest.subrange(off, off + line.len() as int)[t] == rest[off + t]);
            }
            assert(contents.subrange(cut + 1 + off, cut + 1 + off + line.len() as int) =~= line);
            assert(contains_at(contents, line, cut + 1 + off));
            assert(split_lines(contents)[k] == line);
        }
    } else {
        assert(contents.subrange(0, contents.len() as int) =~= contents);
        assert(contains_at(contents, contents, 0));
    }
}

/// A query that occurs nowhere in the contents matches no line: the
/// case-sensitive search returns the empty sequence, not an error.
pub proof fn lemma_absent_query_no_matches(query: Seq<char>, contents: Seq<char>)
    requires
        !contains_substring(contents, query),
    ensures
        matching_lines(query, contents) == Seq::<Seq<char>>::empty(),
{
    broadcast use vstd::seq_lib::group_filter_ensures;

    let pred = |line: Seq<char>| contains_substring(line, query);
    let m = matching_lines(query, contents);
    if m.len() > 0 {
        assert(pred(split_lines(contents).filter(pred)[0]));
        lemma_filter_elem_index(split_lines(contents), pred, 0);
        let k = choose|k: int|
            0 <= k < split_lines(contents).len() && split_lines(contents)[k] == m[0];
        lemma_line_is_substring(contents, k);
        lemma_contains_transitive(contents, m[0], query);
    }
    assert(m =~= Seq::<Seq<char>>::empty());
}

/// A query whose lowercased form occurs in no lowercased line matches no
/// line: the case-insensitive search returns the empty sequence.
pub proof fn lemma_absent_query_no_matches_nocase(query: Seq<char>, contents: Seq<char>)
    requires
        forall|k: int|
            0 <= k < split_lines(contents).len() ==> !contains_substring(
                lower_of(#[trigger] split_lines(contents)[k]),
                lower_of(query),
            ),
    ensures
        matching_lines_nocase(query, contents) == Seq::<Seq<char>>::empty(),
{
    broadcast use vstd::seq_lib::group_filter_ensures;

    let pred = |line: Seq<char>| contains_substring(lower_of(line), lower_of(query));
    let m = matching_lines_nocase(query, contents);
    if m.len() > 0 {
        assert(pred(split_lines(contents).filter(pred)[0]));
        lemma_filter_elem_index(split_lines(contents), pred, 0);
    }
    assert(m =~= Seq::<Seq<char>>::empty());
}

/// Every result of the case-sensitive search is a line drawn verbatim from
/// the contents, and it contains the query.
pub proof fn lemma_result_is_matching_line(query: Seq<char>, contents: Seq<char>, k: int)
    requires
        0 <= k < matching_lines(query, contents).len(),
    ensures
        contains_substring(matching_lines(query, contents)[k], query),
        exists|li: int|
            0 <= li < split_lines(contents).len() && split_lines(contents)[li] == matching_lines(
                query,
                contents,
            )[k],
        contains_substring(contents, matching_lines(query, contents)[k]),
{
    broadcast use vstd::seq_lib::group_filter_ensures;

    let pred = |line: Seq<char>| contains_substring(line, query);
    assert(pred(split_lines(contents).filter(pred)[k]));
    lemma_filter_elem_index(split_lines(contents), pred, k);
    let li = choose|li: int|
        0 <= li < split_lines(contents).len() && split_lines(contents)[li] == matching_lines(
            query,
            contents,
        )[k];
    lemma_line_is_substring(contents, li);
}

/// Every result of the case-insensitive search is a line drawn verbatim
/// from the contents, with its original casing, and its lowercased form
/// contains the lowercased query.
pub proof fn lemma_nocase_result_is_matching_line(query: Seq<char>, contents: Seq<char>, k: int)
    requires
        0 <= k < matching_lines_nocase(query, contents).len(),
    ensures
        contains_substring(
            lower_of(matching_lines_nocase(query, contents)[k]),
            lower_of(query),
        ),
        exists|li: int|
            0 <= li < split_lines(contents).len() && split_lines(contents)[li]
                == matching_lines_nocase(query, contents)[k],
        contains_substring(contents, matching_lines_nocase(query, contents)[k]),
{
    broadcast use vstd::seq_lib::group_filter_ensures;

    let pred = |line: Seq<char>| contains_substring(lower_of(line), lower_of(query));
    assert(pred(split_lines(contents).filter(pred)[k]));
    lemma_filter_elem_index(split_lines(contents), pred, k);
    let li = choose|li: int|
        0 <= li < split_lines(contents).len() && split_lines(contents)[li]
            == matching_lines_nocase(query, contents)[k];
    lemma_line_is_substring(contents, li);
}

/// The case-sensitive search never reorders: any two of its results stand
/// in the contents' lines in the same relative order.
pub proof fn lemma_search_keeps_order(query: Seq<char>, contents: Seq<char>, i: int, j: int)
    requires
        0 <= i < j < matching_lines(query, contents).len(),
    ensures
        exists|li: int, lj: int|
            0 <= li < lj < split_lines(contents).len() && split_lines(contents)[li]
                == matching_lines(query, contents)[i] && split_lines(contents)[lj]
                == matching_lines(query, contents)[j],
{
    let pred = |line: Seq<char>| contains_substring(line, query);
    lemma_filter_keeps_order(split_lines(contents), pred, i, j);
}

/// The case-insensitive search never reorders either.
pub proof fn lemma_search_nocase_keeps_order(query: Seq<char>, contents: Seq<char>, i: int, j: int)
    requires
        0 <= i < j < matching_lines_nocase(query, contents).len(),
    ensures
        exists|li: int, lj: int|
            0 <= li < lj < split_lines(contents).len() && split_lines(contents)[li]
                == matching_lines_nocase(query, contents)[i] && split_lines(contents)[lj]
                == matching_lines_nocase(query, contents)[j],
{
    let pred = |line: Seq<char>| contains_substring(lower_of(line), lower_of(query));
    lemma_filter_keeps_order(split_lines(contents), pred, i, j);
}

} // verus!
