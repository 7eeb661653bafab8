//! The line splitter: decomposes a block of text into an ordered
//! sequence of lines, without the line terminators.
//!
//! A line feed separates lines; a carriage return immediately preceding
//! a line feed is not part of the line's content. The terminator acts
//! as a separator, not a terminator: a final line feed does not produce
//! a trailing empty line. The returned lines borrow the input text; no
//! text is copied.

use vstd::prelude::*;
use vstd::string::StrSliceExecFns;

verus! {

/// The position of the first line feed in `s`, or `s.len()` if there
/// is none (see `lemma_first_nl`).
pub open spec fn first_nl(s: Seq<char>) -> int
    decreases s.len(),
{
    if s.len() == 0 {
        0
    } else if s[0] == '\n' {
        0
    } else {
        1 + first_nl(s.drop_first())
    }
}

pub proof fn lemma_first_nl(s: Seq<char>)
    ensures
        0 <= first_nl(s) <= s.len(),
        forall|j: int| 0 <= j < first_nl(s) ==> s[j] != '\n',
        first_nl(s) < s.len() ==> s[first_nl(s)] == '\n',
    decreases s.len(),
{
    if s.len() > 0 && s[0] != '\n' {
        lemma_first_nl(s.drop_first());
        assert forall|j: int| 0 <= j < first_nl(s) implies s[j] != '\n' by {
            if j >= 1 {
                assert(s.drop_first()[j - 1] == s[j]);
            }
        }
    }
}

/// A line with a trailing carriage return removed: applied to the text
/// between two line feeds, so that "\r\n" terminates a line just as
/// "\n" does.
pub open spec fn strip_cr(line: Seq<char>) -> Seq<char> {
    if line.len() > 0 && line.last() == '\r' {
        line.drop_last()
    } else {
        line
    }
}

/// The lines of `text`: the model of `split_lines`.
///
/// The guard on `first_nl` holds exactly when a line feed occurs in
/// `text` (by `lemma_first_nl`); it also keeps the recursion visibly
/// well-founded. A carriage return is stripped only where a line feed
/// follows it, so a lone trailing "\r" stays in its line.
pub open spec fn spec_split_lines(text: Seq<char>) -> Seq<Seq<char>>
    decreases text.len(),
{
    if text.len() == 0 {
        Seq::empty()
    } else {
        let nl = first_nl(text);
        if 0 <= nl < text.len() {
            seq![strip_cr(text.take(nl))] + spec_split_lines(text.skip(nl + 1))
        } else {
            seq![text]
        }
    }
}

/// The character sequences that a sequence of borrowed lines stands for.
pub open spec fn views_of(lines: Seq<&str>) -> Seq<Seq<char>> {
    lines.map_values(|l: &str| l@)
}

/// Split `text` into its lines, as borrowed slices of `text`, in order.
pub fn split_lines<'a>(text: &'a str) -> (lines: Vec<&'a str>)
    ensures
        views_of(lines@) == spec_split_lines(text@),
{
    let n = text.unicode_len();
    let mut lines: Vec<&'a str> = Vec::new();
    let mut start: usize = 0;
    let mut i: usize = 0;
    proof {
        assert(text@.skip(0) =~= text@);
        assert(views_of(lines@) + spec_split_lines(text@) =~= spec_split_lines(text@));
    }
    while i < n
        invariant
            0 <= start <= i <= n,
            n == text@.len(),
            forall|k: int| start <= k < i ==> text@[k] != '\n',
            spec_split_lines(text@) == views_of(lines@) + spec_split_lines(
                text@.skip(start as int),
            ),
        decreases n - i,
    {
        let c = text.get_char(i);
        if c == '\n' {
            let end = if i > start && text.get_char(i - 1) == '\r' {
                i - 1
            } else {
                i
            };
            let line = text.substring_char(start, end);
            proof {
                let rest = text@.skip(start as int);
                lemma_first_nl(rest);
                assert(rest[i - start] == '\n');
                assert(first_nl(rest) == i - start);
                assert(rest.take(i - start) =~= text@.subrange(start as int, i as int));
                assert(strip_cr(rest.take(i - start)) =~= line@);
                assert(rest.skip(i - start + 1) =~= text@.skip(i + 1));
                let ghost old_lines = lines@;
                assert(spec_split_lines(rest) == seq![line@] + spec_split_lines(
                    text@.skip(i + 1),
                ));
            }
            lines.push(line);
            proof {
                assert(views_of(lines@) =~= views_of(lines@.drop_last()) + seq![line@]);
                assert((views_of(lines@.drop_last()) + seq![line@]) + spec_split_lines(
                    text@.skip(i + 1),
                ) =~= views_of(lines@.drop_last()) + (seq![line@] + spec_split_lines(
                    text@.skip(i + 1),
                )));
            }
            start = i + 1;
        }
        i += 1;
    }
    if start < n {
        let line = text.substring_char(start, n);
        proof {
            let rest = text@.skip(start as int);
            lemma_first_nl(rest);
            assert(first_nl(rest) == rest.len());
            assert(rest =~= line@);
            assert(spec_split_lines(rest) == seq![line@]);
        }
        lines.push(line);
        proof {
            assert(views_of(lines@) =~= views_of(lines@.drop_last()) + seq![line@]);
        }
    } else {
        proof {
            assert(text@.skip(start as int).len() == 0);
            assert(views_of(lines@) + spec_split_lines(text@.skip(start as int)) =~= views_of(
                lines@,
            ));
        }
    }
    lines
}

} // verus!
