//! Headings of Markdown texts.

use vstd::prelude::*;
use vstd::slice::slice_subrange;
use vstd::string::*;

use crate::text::{
    chars_of, is_white_space, lemma_trim_end, line_ranges, lines_of, ranges_of, trim_end_of,
    white_space,
};

verus! {

/// `line` without the first spaces at its start, at most `n` of them.
pub open spec fn without_spaces(line: Seq<char>, n: nat) -> Seq<char>
    decreases n,
{
    if n > 0 && line.len() > 0 && line[0] == ' ' {
        without_spaces(line.drop_first(), (n - 1) as nat)
    } else {
        line
    }
}

/// `line` without the indentation that a heading may have: up to three spaces.
pub open spec fn unindented(line: Seq<char>) -> Seq<char> {
    without_spaces(line, 3)
}

/// Whether `line` starts with the mark of a heading.
pub open spec fn is_marked(line: Seq<char>) -> bool {
    unindented(line).len() > 0 && unindented(line)[0] == '#'
}

/// Whether `s` is not empty and made of `c` alone.
pub open spec fn is_run_of(s: Seq<char>, c: char) -> bool {
    s.len() > 0 && forall|i: int| 0 <= i < s.len() ==> #[trigger] s[i] == c
}

/// Whether `line` makes the line before it a heading: it is made of `=` or of `-` alone.
pub open spec fn is_underline(line: Seq<char>) -> bool {
    let s = trim_end_of(unindented(line));
    is_run_of(s, '=') || is_run_of(s, '-')
}

/// Whether `line` holds white space alone.
pub open spec fn is_blank(line: Seq<char>) -> bool {
    forall|i: int| 0 <= i < line.len() ==> is_white_space(#[trigger] line[i])
}

/// Whether the line at `i` is a heading: it is marked, or it is not blank and underlined.
pub open spec fn is_heading(lines: Seq<Seq<char>>, i: int) -> bool {
    is_marked(lines[i]) || (!is_blank(lines[i]) && i + 1 < lines.len() && is_underline(
        lines[i + 1],
    ))
}

/// The first heading from the line at `i` on.
pub open spec fn heading_from(lines: Seq<Seq<char>>, i: int) -> Option<Seq<char>>
    decreases lines.len() - i,
{
    if i >= lines.len() {
        None
    } else if is_heading(lines, i) {
        Some(lines[i])
    } else {
        heading_from(lines, i + 1)
    }
}

/// The line of the first heading of a text.
pub open spec fn first_heading_of(text: Seq<char>) -> Option<Seq<char>> {
    heading_from(lines_of(text), 0)
}

/// The number of spaces at the start of `line` that are its indentation.
fn indentation(line: &[char]) -> (n: usize)
    ensures
        n <= line@.len(),
        line@.skip(n as int) == unindented(line@),
{
    let mut n: usize = 0;
    proof {
        assert(line@.skip(0) =~= line@);
    }
    while n < 3 && n < line.len() && line[n] == ' '
        invariant
            n <= 3,
            n <= line@.len(),
            unindented(line@) == without_spaces(line@.skip(n as int), (3 - n) as nat),
        decreases 3 - n,
    {
        proof {
            assert(line@.skip(n as int).drop_first() =~= line@.skip(n + 1));
        }
        n += 1;
    }
    n
}

/// Whether `line` starts with the mark of a heading.
fn has_mark(line: &[char]) -> (r: bool)
    ensures
        r == is_marked(line@),
{
    let n = indentation(line);
    n < line.len() && line[n] == '#'
}

/// Whether `line` holds white space alone.
fn holds_nothing(line: &[char]) -> (r: bool)
    ensures
        r == is_blank(line@),
{
    for i in 0..line.len()
        invariant
            forall|j: int| 0 <= j < i ==> is_white_space(#[trigger] line@[j]),
    {
        if !white_space(line[i]) {
            return false;
        }
    }
    true
}

/// Whether `line` makes the line before it a heading.
fn is_rule(line: &[char]) -> (r: bool)
    ensures
        r == is_underline(line@),
{
    let start = indentation(line);
    let ghost rest = line@.skip(start as int);
    let mut end: usize = line.len();
    proof {
        assert(line@.subrange(start as int, end as int) =~= rest);
    }
    while end > start && white_space(line[end - 1])
        invariant
            start <= end <= line@.len(),
            trim_end_of(rest) == trim_end_of(line@.subrange(start as int, end as int)),
        decreases end,
    {
        proof {
            assert(line@.subrange(start as int, end as int).drop_last() =~= line@.subrange(
                start as int,
                end - 1,
            ));
        }
        end -= 1;
    }
    let ghost s = line@.subrange(start as int, end as int);
    proof {
        assert(trim_end_of(rest) == s);
    }
    if start == end {
        return false;
    }
    let c = line[start];
    proof {
        assert(s[0] == c);
    }
    if c != '=' && c != '-' {
        return false;
    }
    for i in start..end
        invariant
            start < end <= line@.len(),
            s == line@.subrange(start as int, end as int),
            s == trim_end_of(unindented(line@)),
            s[0] == c,
            forall|j: int| start <= j < i ==> #[trigger] line@[j] == c,
    {
        if line[i] != c {
            proof {
                assert(s[i - start] != c);
            }
            return false;
        }
    }
    proof {
        assert forall|k: int| 0 <= k < s.len() implies #[trigger] s[k] == c by {
            assert(line@[start + k] == c);
        }
    }
    true
}

/// The line of the first heading of a text, if it has one.
pub fn first_heading(text: &str) -> (r: Option<&str>)
    ensures
        match r {
            Some(line) => first_heading_of(text@) == Some(line@),
            None => first_heading_of(text@) is None,
        },
{
    let chars = chars_of(text);
    let ranges = line_ranges(&chars);
    let ghost lines = lines_of(text@);
    for i in 0..ranges.len()
        invariant
            chars@ == text@,
            lines == lines_of(text@),
            ranges_of(chars@, ranges@) == lines,
            forall|k: int|
                0 <= k < ranges@.len() ==> (#[trigger] ranges@[k]).0 <= ranges@[k].1
                    <= chars@.len(),
            first_heading_of(text@) == heading_from(lines, i as int),
    {
        let (start, end) = ranges[i];
        proof {
            assert(ranges@[i as int] == (start, end));
            assert(lines[i as int] == chars@.subrange(start as int, end as int));
        }
        let line = slice_subrange(chars.as_slice(), start, end);
        let mut found: bool = has_mark(line);
        if !found && i + 1 < ranges.len() && !holds_nothing(line) {
            let (from, to) = ranges[i + 1];
            proof {
                assert(ranges@[i + 1] == (from, to));
                assert(lines[i + 1] == chars@.subrange(from as int, to as int));
            }
            found = is_rule(slice_subrange(chars.as_slice(), from, to));
        }
        if found {
            return Some(text.substring_char(start, end));
        }
    }
    None
}

/// The first heading is a heading with none before it; there is none where no line is one.
pub proof fn no_heading_comes_before_the_first(text: Seq<char>)
    ensures
        match first_heading_of(text) {
            Some(line) => exists|i: int|
                0 <= i < lines_of(text).len() && line == lines_of(text)[i] && #[trigger] is_heading(
                    lines_of(text),
                    i,
                ) && forall|j: int| 0 <= j < i ==> !#[trigger] is_heading(lines_of(text), j),
            None => forall|j: int|
                0 <= j < lines_of(text).len() ==> !#[trigger] is_heading(lines_of(text), j),
        },
{
    lemma_heading_from(lines_of(text), 0);
}

proof fn lemma_heading_from(lines: Seq<Seq<char>>, k: int)
    requires
        0 <= k <= lines.len(),
        forall|j: int| 0 <= j < k ==> !#[trigger] is_heading(lines, j),
    ensures
        match heading_from(lines, k) {
            Some(line) => exists|i: int|
                0 <= i < lines.len() && line == lines[i] && #[trigger] is_heading(lines, i)
                    && forall|j: int| 0 <= j < i ==> !#[trigger] is_heading(lines, j),
            None => forall|j: int| 0 <= j < lines.len() ==> !#[trigger] is_heading(lines, j),
        },
    decreases lines.len() - k,
{
    if k < lines.len() && !is_heading(lines, k) {
        lemma_heading_from(lines, k + 1);
    }
}

/// A line is marked where its first character behind at most three spaces is `#`.
pub proof fn marks_stand_behind_at_most_three_spaces(line: Seq<char>)
    ensures
        is_marked(line) <==> exists|k: int|
            0 <= k <= 3 && k < line.len() && #[trigger] line[k] == '#' && forall|i: int|
                0 <= i < k ==> #[trigger] line[i] == ' ',
{
    let a = lemma_without_spaces(line, 3);
    if is_marked(line) {
        assert(line.skip(a)[0] == line[a]);
    }
    if exists|k: int|
        0 <= k <= 3 && k < line.len() && #[trigger] line[k] == '#' && forall|i: int|
            0 <= i < k ==> #[trigger] line[i] == ' ' {
        let k = choose|k: int|
            0 <= k <= 3 && k < line.len() && #[trigger] line[k] == '#' && forall|i: int|
                0 <= i < k ==> #[trigger] line[i] == ' ';
        if k < a {
            assert(line[k] == ' ');
        } else if a < k {
            assert(line[a] == ' ');
        }
        assert(line.skip(a)[0] == line[a]);
    }
}

/// Whether `line` is made of at most three spaces up to `a`, of `c` alone from there up to `b`, and
/// of white space behind that.
pub open spec fn is_run_at(line: Seq<char>, c: char, a: int, b: int) -> bool {
    &&& 0 <= a <= 3
    &&& a < b <= line.len()
    &&& forall|i: int| 0 <= i < a ==> #[trigger] line[i] == ' '
    &&& forall|i: int| a <= i < b ==> #[trigger] line[i] == c
    &&& forall|i: int| b <= i < line.len() ==> is_white_space(#[trigger] line[i])
}

/// A line underlines the one before it where it is a run of `=` or of `-`, behind at most three
/// spaces and with nothing but white space behind it.
pub proof fn underlines_are_runs(line: Seq<char>)
    ensures
        is_underline(line) <==> exists|c: char, a: int, b: int|
            (c == '=' || c == '-') && #[trigger] is_run_at(line, c, a, b),
{
    let a = lemma_without_spaces(line, 3);
    let t = line.skip(a);
    let n = lemma_trim_end(t);
    let s = t.take(n);
    if is_underline(line) {
        let c = s[0];
        assert forall|i: int| a <= i < a + n implies #[trigger] line[i] == c by {
            assert(s[i - a] == line[i]);
        }
        assert forall|i: int| a + n <= i < line.len() implies is_white_space(#[trigger] line[i]) by {
            assert(t[i - a] == line[i]);
        }
        assert(is_run_at(line, c, a, a + n));
    }
    if exists|c: char, x: int, y: int|
        (c == '=' || c == '-') && #[trigger] is_run_at(line, c, x, y) {
        let (c, x, y) = choose|c: char, x: int, y: int|
            (c == '=' || c == '-') && #[trigger] is_run_at(line, c, x, y);
        assert(line[x] == c);
        if x < a {
            assert(line[x] == ' ');
        } else if a < x {
            assert(line[a] == ' ');
        }
        assert(line[y - 1] == c);
        if n > y - a {
            assert(t[n - 1] == line[a + n - 1]);
        } else if n < y - a {
            assert(t[y - 1 - a] == line[y - 1]);
        }
        assert forall|i: int| 0 <= i < s.len() implies #[trigger] s[i] == c by {
            assert(s[i] == line[a + i]);
        }
    }
}

proof fn lemma_without_spaces(line: Seq<char>, n: nat) -> (k: int)
    ensures
        0 <= k <= n,
        k <= line.len(),
        without_spaces(line, n) == line.skip(k),
        forall|i: int| 0 <= i < k ==> #[trigger] line[i] == ' ',
        k == n || k == line.len() || line[k] != ' ',
    decreases n,
{
    if n > 0 && line.len() > 0 && line[0] == ' ' {
        let t = line.drop_first();
        let k = lemma_without_spaces(t, (n - 1) as nat);
        assert(t.skip(k) =~= line.skip(k + 1));
        assert forall|i: int| 0 <= i < k + 1 implies #[trigger] line[i] == ' ' by {
            if i > 0 {
                assert(t[i - 1] == line[i]);
            }
        }
        k + 1
    } else {
        assert(line.skip(0) =~= line);
        0
    }
}

/// A line is a heading where it is marked, or holds more than white space and is underlined by the
/// next one.
pub proof fn headings_are_marked_or_underlined(lines: Seq<Seq<char>>, i: int)
    requires
        0 <= i < lines.len(),
    ensures
        is_heading(lines, i) <==> is_marked(lines[i]) || (i + 1 < lines.len() && is_underline(
            lines[i + 1],
        ) && exists|k: int| 0 <= k < lines[i].len() && !is_white_space(#[trigger] lines[i][k])),
{
}

} // verus!
