//! The matcher: filters a sequence of lines by substring containment
//! under a selectable comparison policy (exact or case-insensitive).

use vstd::prelude::*;
use vstd::string::StrSliceExecFns;

use crate::lines::views_of;

verus! {

/// The comparison policy used when testing a line against the query.
#[derive(Clone, Copy, PartialEq, Eq, Structural, Debug)]
pub enum MatchPolicy {
    /// A line matches iff it contains the query, character for character.
    Exact,
    /// A line matches iff its lowercase form contains the query's
    /// lowercase form.
    CaseInsensitive,
}

/// `pat` occurs in `text` starting at position `i`.
pub open spec fn contains_at(text: Seq<char>, pat: Seq<char>, i: int) -> bool {
    &&& 0 <= i
    &&& i + pat.len() <= text.len()
    &&& forall|k: int| 0 <= k < pat.len() ==> text[i + k] == pat[k]
}

/// `pat` occurs somewhere in `text` as a contiguous substring.
/// The empty pattern occurs in every text (at position 0).
pub open spec fn has_substring(text: Seq<char>, pat: Seq<char>) -> bool {
    exists|i: int| contains_at(text, pat, i)
}

/// The simple lowercase mapping of one character: locale-agnostic,
/// one character in, one character out, no multi-character tailoring.
pub uninterp spec fn lower_char(c: char) -> char;

/// The lowercase form of a text: the simple lowercase mapping applied
/// to each character in place.
pub open spec fn lower_of(s: Seq<char>) -> Seq<char> {
    s.map_values(|c: char| lower_char(c))
}

/// Relies on char::to_lowercase: the Unicode lowercase mapping of a
/// character, which depends on that character alone. This wrapper keeps
/// the mapping's first character (`to_lowercase` yields at least one
/// character, so the fallback never fires), which is the whole mapping
/// except for the few characters whose lowercase form is longer.
#[verifier::external_body]
fn lower_char_exec(c: char) -> (r: char)
    ensures
        r == lower_char(c),
{
    c.to_lowercase().next().unwrap_or(c)
}

/// The characters of a string, materialized.
fn chars_of(s: &str) -> (r: Vec<char>)
    ensures
        r@ == s@,
{
    let n = s.unicode_len();
    let mut r: Vec<char> = Vec::new();
    let mut i: usize = 0;
    while i < n
        invariant
            i <= n,
            n == s@.len(),
            r@ == s@.take(i as int),
        decreases n - i,
    {
        let c = s.get_char(i);
        r.push(c);
        proof {
            assert(r@ =~= s@.take(i + 1));
        }
        i += 1;
    }
    proof {
        assert(s@.take(n as int) =~= s@);
    }
    r
}

/// The simple lowercase form of a character sequence.
fn lower_chars(v: &Vec<char>) -> (r: Vec<char>)
    ensures
        r@ == lower_of(v@),
{
    let n = v.len();
    let mut r: Vec<char> = Vec::new();
    let mut i: usize = 0;
    while i < n
        invariant
            i <= n,
            n == v@.len(),
            r@ == lower_of(v@.take(i as int)),
        decreases n - i,
    {
        let lc = lower_char_exec(v[i]);
        r.push(lc);
        proof {
            assert(r@ =~= lower_of(v@.take(i + 1)));
        }
        i += 1;
    }
    proof {
        assert(v@.take(n as int) =~= v@);
    }
    r
}

/// Does `pat` occur in `text` starting exactly at position `i`?
fn match_at(text: &Vec<char>, pat: &Vec<char>, i: usize) -> (b: bool)
    requires
        i + pat@.len() <= text@.len(),
    ensures
        b == contains_at(text@, pat@, i as int),
{
    let n = text.len();
    let m = pat.len();
    let mut j: usize = 0;
    while j < m
        invariant
            j <= m,
            n == text@.len(),
            m == pat@.len(),
            i + m <= n,
            forall|k: int| 0 <= k < j ==> text@[i + k] == pat@[k],
        decreases m - j,
    {
        if text[i + j] != pat[j] {
            return false;
        }
        j += 1;
    }
    true
}

/// Does `pat` occur anywhere in `text` as a contiguous substring?
pub fn contains_chars(text: &Vec<char>, pat: &Vec<char>) -> (b: bool)
    ensures
        b == has_substring(text@, pat@),
{
    let n = text.len();
    let m = pat.len();
    if m > n {
        return false;
    }
    let mut i: usize = 0;
    loop
        invariant
            i + m <= n,
            n == text@.len(),
            m == pat@.len(),
            forall|j: int| 0 <= j < i ==> !contains_at(text@, pat@, j),
        decreases n - i,
    {
        if match_at(text, pat, i) {
            return true;
        }
        if n - i == m {
            assert forall|j: int| !contains_at(text@, pat@, j) by {
                if contains_at(text@, pat@, j) {
                    assert(0 <= j <= i);
                }
            }
            return false;
        }
        i += 1;
    }
}

/// The form in which a text takes part in the comparison: itself under
/// the exact policy, its lowercase form under the case-insensitive one.
pub open spec fn folded(s: Seq<char>, policy: MatchPolicy) -> Seq<char> {
    match policy {
        MatchPolicy::Exact => s,
        MatchPolicy::CaseInsensitive => lower_of(s),
    }
}

/// A line matches a query iff the folded line contains the folded query
/// as a contiguous substring.
pub open spec fn line_matches(query: Seq<char>, line: Seq<char>, policy: MatchPolicy) -> bool {
    has_substring(folded(line, policy), folded(query, policy))
}

/// The lines that match a query, in their original order: the model of
/// `find_matches`.
pub open spec fn matching_lines(
    query: Seq<char>,
    lines: Seq<Seq<char>>,
    policy: MatchPolicy,
) -> Seq<Seq<char>>
    decreases lines.len(),
{
    if lines.len() == 0 {
        Seq::empty()
    } else {
        let rest = matching_lines(query, lines.drop_last(), policy);
        if line_matches(query, lines.last(), policy) {
            rest.push(lines.last())
        } else {
            rest
        }
    }
}

/// Filter `lines` down to those containing `query` under `policy`,
/// preserving their order. The returned lines borrow the same text as
/// the input lines.
pub fn find_matches<'a>(query: &str, lines: &Vec<&'a str>, policy: MatchPolicy) -> (result: Vec<
    &'a str,
>)
    ensures
        views_of(result@) == matching_lines(query@, views_of(lines@), policy),
{
    let query_chars = chars_of(query);
    let needle = match policy {
        MatchPolicy::Exact => query_chars,
        MatchPolicy::CaseInsensitive => lower_chars(&query_chars),
    };
    let mut result: Vec<&'a str> = Vec::new();
    let mut idx: usize = 0;
    proof {
        assert(views_of(lines@).take(0) =~= Seq::<Seq<char>>::empty());
        assert(views_of(result@) =~= Seq::<Seq<char>>::empty());
    }
    while idx < lines.len()
        invariant
            idx <= lines@.len(),
            needle@ == folded(query@, policy),
            views_of(result@) == matching_lines(query@, views_of(lines@).take(idx as int), policy),
        decreases lines@.len() - idx,
    {
        let line = lines[idx];
        let line_chars = chars_of(line);
        let hay = match policy {
            MatchPolicy::Exact => line_chars,
            MatchPolicy::CaseInsensitive => lower_chars(&line_chars),
        };
        let is_match = contains_chars(&hay, &needle);
        proof {
            let vl = views_of(lines@);
            assert(vl.take(idx + 1).drop_last() =~= vl.take(idx as int));
            assert(vl.take(idx + 1).last() == line@);
            assert(is_match == line_matches(query@, line@, policy));
        }
        if is_match {
            let ghost old_views = views_of(result@);
            result.push(line);
            proof {
                assert(views_of(result@) =~= old_views.push(line@));
            }
        }
        idx += 1;
    }
    proof {
        assert(views_of(lines@).take(lines@.len() as int) =~= views_of(lines@));
    }
    result
}

/// `xs` can be had from `ys` by deleting elements, keeping the order:
/// either `xs` is exhausted, or the last elements agree and the fronts
/// nest, or `xs` nests in `ys` without its last element.
pub open spec fn is_subsequence_of<A>(xs: Seq<A>, ys: Seq<A>) -> bool
    decreases ys.len(),
{
    if xs.len() == 0 {
        true
    } else if ys.len() == 0 {
        false
    } else if xs.last() == ys.last() && is_subsequence_of(xs.drop_last(), ys.drop_last()) {
        true
    } else {
        is_subsequence_of(xs, ys.drop_last())
    }
}

/// Law: the matching lines form an order-preserving subsequence of the
/// input lines; every line of the result matches, and every input line
/// that matches appears in the result.
pub proof fn lemma_matches_subsequence(
    query: Seq<char>,
    lines: Seq<Seq<char>>,
    policy: MatchPolicy,
)
    ensures
        is_subsequence_of(matching_lines(query, lines, policy), lines),
        forall|i: int|
            0 <= i < matching_lines(query, lines, policy).len() ==> line_matches(
                query,
                #[trigger] matching_lines(query, lines, policy)[i],
                policy,
            ),
        forall|i: int|
            0 <= i < lines.len() && line_matches(query, #[trigger] lines[i], policy)
                ==> matching_lines(query, lines, policy).contains(lines[i]),
    decreases lines.len(),
{
    if lines.len() > 0 {
        lemma_matches_subsequence(query, lines.drop_last(), policy);
        let rest = matching_lines(query, lines.drop_last(), policy);
        let result = matching_lines(query, lines, policy);
        if line_matches(query, lines.last(), policy) {
            assert(rest.push(lines.last()).drop_last() =~= rest);
        }
        assert forall|i: int|
            0 <= i < lines.len() && line_matches(query, #[trigger] lines[i], policy) implies result
            .contains(lines[i]) by {
            if i < lines.len() - 1 {
                assert(lines.drop_last()[i] == lines[i]);
                let j = choose|j: int| 0 <= j < rest.len() && rest[j] == lines[i];
                assert(result[j] == lines[i]);
            } else {
                assert(result.last() == lines[i]);
            }
        }
    }
}

/// Case-insensitive matching folds both operands the same way, so an
/// exact occurrence of the query is also an occurrence of the folded
/// query in the folded line.
proof fn lemma_exact_match_folds(query: Seq<char>, line: Seq<char>)
    requires
        line_matches(query, line, MatchPolicy::Exact),
    ensures
        line_matches(query, line, MatchPolicy::CaseInsensitive),
{
    let i = choose|i: int| contains_at(line, query, i);
    assert forall|k: int| 0 <= k < lower_of(query).len() implies lower_of(line)[i + k] == lower_of(
        query,
    )[k] by {
        assert(line[i + k] == query[k]);
    }
    assert(contains_at(lower_of(line), lower_of(query), i));
}

/// Law: case-insensitive matching is never stricter than exact
/// matching; the exact result is an order-preserving subsequence of the
/// case-insensitive result.
pub proof fn lemma_case_insensitive_no_stricter(query: Seq<char>, lines: Seq<Seq<char>>)
    ensures
        is_subsequence_of(
            matching_lines(query, lines, MatchPolicy::Exact),
            matching_lines(query, lines, MatchPolicy::CaseInsensitive),
        ),
    decreases lines.len(),
{
    if lines.len() > 0 {
        lemma_case_insensitive_no_stricter(query, lines.drop_last());
        let exact = matching_lines(query, lines.drop_last(), MatchPolicy::Exact);
        let folded_res = matching_lines(query, lines.drop_last(), MatchPolicy::CaseInsensitive);
        let last = lines.last();
        if line_matches(query, last, MatchPolicy::Exact) {
            lemma_exact_match_folds(query, last);
            assert(exact.push(last).drop_last() =~= exact);
            assert(folded_res.push(last).drop_last() =~= folded_res);
        } else if line_matches(query, last, MatchPolicy::CaseInsensitive) {
            assert(folded_res.push(last).drop_last() =~= folded_res);
        }
    }
}

/// Law: the empty query matches every line, under either policy; the
/// result is the input, unchanged and in order.
pub proof fn lemma_empty_query_matches_all(
    query: Seq<char>,
    lines: Seq<Seq<char>>,
    policy: MatchPolicy,
)
    requires
        query.len() == 0,
    ensures
        matching_lines(query, lines, policy) == lines,
    decreases lines.len(),
{
    if lines.len() > 0 {
        lemma_empty_query_matches_all(query, lines.drop_last(), policy);
        assert(contains_at(folded(lines.last(), policy), folded(query, policy), 0));
        assert(matching_lines(query, lines, policy) =~= lines);
    }
}

} // verus!
