//! Text: cutting, trimming, searching and ordering of strings.

use vstd::prelude::*;
use vstd::string::*;
use vstd::utf8::*;

verus! {

/// The view of an optional text.
pub open spec fn opt_text(text: Option<&str>) -> Option<Seq<char>> {
    match text {
        Some(t) => Some(t@),
        None => None,
    }
}

/// The view of an optional string.
pub open spec fn opt_string(text: Option<String>) -> Option<Seq<char>> {
    match text {
        Some(t) => Some(t@),
        None => None,
    }
}

/// The number of bytes that `s` takes in UTF-8.
pub open spec fn byte_len(s: Seq<char>) -> nat {
    encode_utf8(s).len()
}

/// The longest prefix of `s` that takes at most `max` bytes in UTF-8.
pub open spec fn fitting_prefix(s: Seq<char>, max: nat) -> Seq<char>
    decreases s.len(),
{
    if s.len() == 0 || byte_len(s) <= max {
        s
    } else {
        fitting_prefix(s.drop_last(), max)
    }
}

/// Path separators of both POSIX and Windows.
pub open spec fn is_separator(c: char) -> bool {
    c == '/' || c == '\\'
}

/// Whether `s` holds no separator.
pub open spec fn is_plain(s: Seq<char>) -> bool {
    forall|i: int| 0 <= i < s.len() ==> !is_separator(#[trigger] s[i])
}

/// The run of characters at the end of `s` that holds no separator.
pub open spec fn last_run(s: Seq<char>) -> Seq<char>
    decreases s.len(),
{
    if s.len() == 0 || is_separator(s.last()) {
        Seq::empty()
    } else {
        last_run(s.drop_last()).push(s.last())
    }
}

/// The last non-empty segment of a path; empty where there is none.
pub open spec fn last_segment(s: Seq<char>) -> Seq<char>
    decreases s.len(),
{
    if s.len() > 0 && is_separator(s.last()) {
        last_segment(s.drop_last())
    } else {
        last_run(s)
    }
}

/// The name under which a path is shown: its last non-empty segment, or `?`.
pub open spec fn base_name_of(s: Seq<char>) -> Seq<char> {
    if last_segment(s).len() == 0 {
        "?"@
    } else {
        last_segment(s)
    }
}

/// The characters with the Unicode property `White_Space`.
pub open spec fn is_white_space(c: char) -> bool {
    ||| '\u{9}' <= c <= '\u{d}'
    ||| c == ' '
    ||| c == '\u{85}'
    ||| c == '\u{a0}'
    ||| c == '\u{1680}'
    ||| '\u{2000}' <= c <= '\u{200a}'
    ||| c == '\u{2028}'
    ||| c == '\u{2029}'
    ||| c == '\u{202f}'
    ||| c == '\u{205f}'
    ||| c == '\u{3000}'
}

/// `s` without its leading white space.
pub open spec fn trim_start_of(s: Seq<char>) -> Seq<char>
    decreases s.len(),
{
    if s.len() > 0 && is_white_space(s.first()) {
        trim_start_of(s.drop_first())
    } else {
        s
    }
}

/// `s` without its trailing white space.
pub open spec fn trim_end_of(s: Seq<char>) -> Seq<char>
    decreases s.len(),
{
    if s.len() > 0 && is_white_space(s.last()) {
        trim_end_of(s.drop_last())
    } else {
        s
    }
}

/// `s` without white space on either side.
pub open spec fn trim_of(s: Seq<char>) -> Seq<char> {
    trim_end_of(trim_start_of(s))
}

/// `s` without its leading occurrences of `c`.
pub open spec fn strip_leading(s: Seq<char>, c: char) -> Seq<char>
    decreases s.len(),
{
    if s.len() > 0 && s.first() == c {
        strip_leading(s.drop_first(), c)
    } else {
        s
    }
}

/// The characters of `s` before the first line feed.
pub open spec fn until_line_feed(s: Seq<char>) -> Seq<char>
    decreases s.len(),
{
    if s.len() == 0 || s.first() == '\n' {
        Seq::empty()
    } else {
        seq![s.first()] + until_line_feed(s.drop_first())
    }
}

/// The first line of `s` without its line ending; nothing where `s` is empty.
///
/// A line ends in a line feed, before which a carriage return belongs to the line ending.
pub open spec fn first_line_of(s: Seq<char>) -> Option<Seq<char>> {
    let line = until_line_feed(s);
    if s.len() == 0 {
        None
    } else if line.len() < s.len() && line.len() > 0 && line.last() == '\r' {
        Some(line.drop_last())
    } else {
        Some(line)
    }
}

/// What follows the first line of `s`.
pub open spec fn after_first_line(s: Seq<char>) -> Seq<char> {
    let n = until_line_feed(s).len() as int;
    if n < s.len() {
        s.skip(n + 1)
    } else {
        Seq::empty()
    }
}

/// The lines of `s` without their line endings.
pub open spec fn lines_of(s: Seq<char>) -> Seq<Seq<char>>
    decreases s.len(),
{
    match first_line_of(s) {
        Some(line) => seq![line] + lines_of(after_first_line(s)),
        None => Seq::empty(),
    }
}

/// The parts of `s` at the given ranges.
pub open spec fn ranges_of(s: Seq<char>, ranges: Seq<(usize, usize)>) -> Seq<Seq<char>> {
    ranges.map_values(|r: (usize, usize)| s.subrange(r.0 as int, r.1 as int))
}

/// `c` with the ASCII capitals turned into small letters.
pub open spec fn ascii_lower(c: char) -> char {
    if 'A' <= c <= 'Z' {
        (c as u8 + 32) as char
    } else {
        c
    }
}

/// `s` with the ASCII capitals turned into small letters.
pub open spec fn ascii_lower_of(s: Seq<char>) -> Seq<char> {
    s.map_values(|c: char| ascii_lower(c))
}

/// Whether `needle` stands in `hay` at position `k`.
pub open spec fn occurs_at(hay: Seq<char>, needle: Seq<char>, k: int) -> bool {
    0 <= k && k + needle.len() <= hay.len() && hay.subrange(k, k + needle.len()) == needle
}

/// Whether `needle` stands somewhere in `hay`.
pub open spec fn occurs_in(hay: Seq<char>, needle: Seq<char>) -> bool {
    exists|k: int| occurs_at(hay, needle, k)
}

/// Whether `s` starts with `prefix`.
pub open spec fn has_prefix(s: Seq<char>, prefix: Seq<char>) -> bool {
    prefix.len() <= s.len() && s.take(prefix.len() as int) == prefix
}

/// Whether `s` ends in `suffix`.
pub open spec fn has_suffix(s: Seq<char>, suffix: Seq<char>) -> bool {
    suffix.len() <= s.len() && s.skip(s.len() - suffix.len()) == suffix
}

/// The decimal digit for `d`.
pub open spec fn digit(d: nat) -> char {
    seq!['0', '1', '2', '3', '4', '5', '6', '7', '8', '9'][d as int]
}

/// `n` in decimal, without leading zeros.
pub open spec fn decimal(n: nat) -> Seq<char>
    decreases n,
{
    if n < 10 {
        seq![digit(n)]
    } else {
        decimal(n / 10).push(digit(n % 10))
    }
}

/// `n` in decimal, with a minus sign where it is negative.
pub open spec fn signed_decimal(n: int) -> Seq<char> {
    if n < 0 {
        seq!['-'] + decimal((-n) as nat)
    } else {
        decimal(n as nat)
    }
}

/// Whether `a` and `b` agree before position `i`, at which `a` has ended or holds the smaller byte.
pub open spec fn first_difference(a: Seq<u8>, b: Seq<u8>, i: int) -> bool {
    &&& 0 <= i <= a.len()
    &&& i < b.len()
    &&& forall|j: int| 0 <= j < i ==> a[j] == b[j]
    &&& i < a.len() ==> a[i] < b[i]
}

/// The lexicographic order of byte strings.
pub open spec fn bytes_before(a: Seq<u8>, b: Seq<u8>) -> bool {
    exists|i: int| first_difference(a, b, i)
}

/// The order of strings: that of their UTF-8 bytes.
pub open spec fn text_before(a: Seq<char>, b: Seq<char>) -> bool {
    bytes_before(encode_utf8(a), encode_utf8(b))
}

/// The characters of `s`, in order.
pub fn chars_of(s: &str) -> (r: Vec<char>)
    ensures
        r@ == s@,
{
    let mut out: Vec<char> = Vec::new();
    for c in it: s.chars()
        invariant
            it.seq() == s@,
            out@ == s@.take(it.index()),
    {
        out.push(c);
    }
    out
}

/// An optional string as a slice.
pub fn as_opt_str(text: &Option<String>) -> (r: Option<&str>)
    ensures
        opt_text(r) == opt_string(*text),
{
    match text {
        Some(t) => Some(t.as_str()),
        None => None,
    }
}

/// Whether two strings hold the same characters.
pub fn str_eq(a: &str, b: &str) -> (r: bool)
    ensures
        r == (a@ == b@),
{
    let x = a.as_bytes();
    let y = b.as_bytes();
    if x.len() != y.len() {
        return false;
    }
    for i in 0..x.len()
        invariant
            x@ == encode_utf8(a@),
            y@ == encode_utf8(b@),
            x@.len() == y@.len(),
            forall|j: int| 0 <= j < i ==> x@[j] == y@[j],
    {
        if x[i] != y[i] {
            return false;
        }
    }
    proof {
        assert(x@ =~= y@);
        lemma_encoding_is_injective(a@, b@);
    }
    true
}

/// Cuts `s` to the longest prefix that takes at most `max_bytes` bytes.
pub fn truncate(s: &str, max_bytes: usize) -> (r: String)
    ensures
        r@ == fitting_prefix(s@, max_bytes as nat),
{
    let bytes = s.as_bytes();
    if bytes.len() <= max_bytes {
        s.to_owned()
    } else {
        let mut end: usize = max_bytes;
        while end > 0 && !s.is_char_boundary(end)
            invariant
                end <= max_bytes < bytes@.len(),
                bytes@ == encode_utf8(s@),
                forall|j: int| end < j <= max_bytes ==> !#[trigger] is_char_boundary(bytes@, j),
            decreases end,
        {
            end -= 1;
        }
        proof {
            encode_utf8_valid_utf8(s@);
            is_char_boundary_start_end_of_seq(bytes@);
        }
        let (head, tail) = s.split_at(end);
        proof {
            lemma_longest_head(s@, head@, tail@, end as int, max_bytes as int);
        }
        head.to_owned()
    }
}

/// The last non-empty segment of a path, or `?` where there is none.
#[verifier::spinoff_prover]
pub fn base_name(p: &str) -> (r: String)
    ensures
        r@ == base_name_of(p@),
{
    let chars = chars_of(p);
    let mut end: usize = chars.len();
    proof {
        assert(chars@.take(end as int) =~= chars@);
    }
    while end > 0 && (chars[end - 1] == '/' || chars[end - 1] == '\\')
        invariant
            end <= chars@.len(),
            last_segment(chars@) == last_segment(chars@.take(end as int)),
        decreases end,
    {
        proof {
            assert(chars@.take(end as int).drop_last() =~= chars@.take(end - 1));
        }
        end -= 1;
    }
    let mut start: usize = end;
    proof {
        assert(last_segment(chars@.take(end as int)) == last_run(chars@.take(end as int)));
        assert(chars@.subrange(end as int, end as int) =~= Seq::<char>::empty());
        assert(last_run(chars@.take(end as int)) =~= last_run(chars@.take(end as int))
            + chars@.subrange(end as int, end as int));
    }
    while start > 0 && !(chars[start - 1] == '/' || chars[start - 1] == '\\')
        invariant
            start <= end <= chars@.len(),
            last_run(chars@.take(end as int)) == last_run(chars@.take(start as int))
                + chars@.subrange(start as int, end as int),
        decreases start,
    {
        proof {
            let run = chars@.take(start as int);
            assert(run.drop_last() =~= chars@.take(start - 1));
            assert(last_run(run) + chars@.subrange(start as int, end as int) =~= last_run(
                chars@.take(start - 1),
            ) + chars@.subrange(start - 1, end as int));
        }
        start -= 1;
    }
    proof {
        assert(last_run(chars@.take(start as int)) =~= Seq::<char>::empty());
        assert(last_segment(p@) =~= p@.subrange(start as int, end as int));
    }
    if start == end {
        "?".to_owned()
    } else {
        p.substring_char(start, end).to_owned()
    }
}

/// Whether `c` has the Unicode property `White_Space`.
pub fn white_space(c: char) -> (r: bool)
    ensures
        r == is_white_space(c),
{
    ('\u{9}' <= c && c <= '\u{d}') || c == ' ' || c == '\u{85}' || c == '\u{a0}' || c == '\u{1680}'
        || ('\u{2000}' <= c && c <= '\u{200a}') || c == '\u{2028}' || c == '\u{2029}' || c
        == '\u{202f}' || c == '\u{205f}' || c == '\u{3000}'
}

/// `s` without white space on either side.
pub fn trim(s: &str) -> (r: &str)
    ensures
        r@ == trim_of(s@),
{
    let chars = chars_of(s);
    let mut start: usize = 0;
    proof {
        assert(chars@.skip(0) =~= chars@);
    }
    while start < chars.len() && white_space(chars[start])
        invariant
            start <= chars@.len(),
            trim_start_of(chars@) == trim_start_of(chars@.skip(start as int)),
        decreases chars@.len() - start,
    {
        proof {
            assert(chars@.skip(start as int).drop_first() =~= chars@.skip(start + 1));
        }
        start += 1;
    }
    let mut end: usize = chars.len();
    proof {
        assert(chars@.subrange(start as int, end as int) =~= chars@.skip(start as int));
    }
    while end > start && white_space(chars[end - 1])
        invariant
            start <= end <= chars@.len(),
            trim_end_of(chars@.skip(start as int)) == trim_end_of(
                chars@.subrange(start as int, end as int),
            ),
        decreases end,
    {
        proof {
            assert(chars@.subrange(start as int, end as int).drop_last() =~= chars@.subrange(
                start as int,
                end - 1,
            ));
        }
        end -= 1;
    }
    s.substring_char(start, end)
}

/// `s` without its leading occurrences of `c`.
pub fn trim_start_matches(s: &str, c: char) -> (r: &str)
    ensures
        r@ == strip_leading(s@, c),
{
    let chars = chars_of(s);
    let mut start: usize = 0;
    proof {
        assert(chars@.skip(0) =~= chars@);
    }
    while start < chars.len() && chars[start] == c
        invariant
            start <= chars@.len(),
            strip_leading(chars@, c) == strip_leading(chars@.skip(start as int), c),
        decreases chars@.len() - start,
    {
        proof {
            assert(chars@.skip(start as int).drop_first() =~= chars@.skip(start + 1));
        }
        start += 1;
    }
    proof {
        assert(chars@.subrange(start as int, chars@.len() as int) =~= chars@.skip(start as int));
    }
    s.substring_char(start, chars.len())
}

/// The first line of `s` without its line ending, if `s` is not empty.
pub fn first_line(s: &str) -> (r: Option<&str>)
    ensures
        match r {
            Some(line) => first_line_of(s@) == Some(line@),
            None => first_line_of(s@) is None,
        },
{
    let chars = chars_of(s);
    if chars.len() == 0 {
        return None;
    }
    let mut end: usize = 0;
    proof {
        assert(chars@.skip(0) =~= chars@);
        assert(until_line_feed(chars@) =~= chars@.take(0) + until_line_feed(chars@.skip(0)));
    }
    while end < chars.len() && chars[end] != '\n'
        invariant
            end <= chars@.len(),
            until_line_feed(chars@) == chars@.take(end as int) + until_line_feed(
                chars@.skip(end as int),
            ),
        decreases chars@.len() - end,
    {
        proof {
            assert(chars@.skip(end as int).drop_first() =~= chars@.skip(end + 1));
            assert(chars@.take(end as int) + until_line_feed(chars@.skip(end as int))
                =~= chars@.take(end + 1) + until_line_feed(chars@.skip(end + 1)));
        }
        end += 1;
    }
    proof {
        assert(until_line_feed(chars@) =~= chars@.take(end as int));
        assert(chars@.take(end as int) =~= chars@.subrange(0, end as int));
    }
    if end < chars.len() && end > 0 && chars[end - 1] == '\r' {
        proof {
            assert(chars@.take(end as int).drop_last() =~= chars@.subrange(0, end - 1));
        }
        Some(s.substring_char(0, end - 1))
    } else {
        Some(s.substring_char(0, end))
    }
}

/// Where the lines of a text lie, without their line endings.
pub fn line_ranges(chars: &Vec<char>) -> (r: Vec<(usize, usize)>)
    ensures
        ranges_of(chars@, r@) == lines_of(chars@),
        forall|k: int| 0 <= k < r@.len() ==> (#[trigger] r@[k]).0 <= r@[k].1 <= chars@.len(),
{
    let mut out: Vec<(usize, usize)> = Vec::new();
    let mut start: usize = 0;
    proof {
        assert(chars@.skip(0) =~= chars@);
        assert(lines_of(chars@) =~= ranges_of(chars@, out@) + lines_of(chars@.skip(0)));
    }
    while start < chars.len()
        invariant
            start <= chars@.len(),
            lines_of(chars@) == ranges_of(chars@, out@) + lines_of(chars@.skip(start as int)),
            forall|k: int|
                0 <= k < out@.len() ==> (#[trigger] out@[k]).0 <= out@[k].1 <= chars@.len(),
        decreases chars@.len() - start,
    {
        let ghost rest = chars@.skip(start as int);
        let ghost prior = ranges_of(chars@, out@);
        let mut end: usize = start;
        proof {
            assert(until_line_feed(rest) =~= chars@.subrange(start as int, end as int)
                + until_line_feed(chars@.skip(end as int)));
        }
        while end < chars.len() && chars[end] != '\n'
            invariant
                start <= end <= chars@.len(),
                until_line_feed(rest) == chars@.subrange(start as int, end as int)
                    + until_line_feed(chars@.skip(end as int)),
            decreases chars@.len() - end,
        {
            proof {
                assert(chars@.skip(end as int).drop_first() =~= chars@.skip(end + 1));
                assert(chars@.subrange(start as int, end as int) + until_line_feed(
                    chars@.skip(end as int),
                ) =~= chars@.subrange(start as int, end + 1) + until_line_feed(
                    chars@.skip(end + 1),
                ));
            }
            end += 1;
        }
        let mut stop: usize = end;
        if end < chars.len() && end > start && chars[end - 1] == '\r' {
            stop = end - 1;
        }
        let ghost line = chars@.subrange(start as int, stop as int);
        proof {
            let whole = chars@.subrange(start as int, end as int);
            assert(until_line_feed(rest) =~= whole);
            if stop < end {
                assert(whole.drop_last() =~= line);
            }
            assert(first_line_of(rest) == Some(line));
        }
        out.push((start, stop));
        if end < chars.len() {
            start = end + 1;
        } else {
            start = end;
        }
        proof {
            assert(after_first_line(rest) =~= chars@.skip(start as int));
            assert(ranges_of(chars@, out@) =~= prior + seq![line]);
            assert(prior + (seq![line] + lines_of(chars@.skip(start as int))) =~= (prior
                + seq![line]) + lines_of(chars@.skip(start as int)));
        }
    }
    proof {
        assert(lines_of(chars@.skip(start as int)) =~= Seq::<Seq<char>>::empty());
        assert(lines_of(chars@) =~= ranges_of(chars@, out@));
    }
    out
}

/// `c` with the ASCII capitals turned into small letters.
pub fn to_ascii_lower(c: char) -> (r: char)
    ensures
        r == ascii_lower(c),
{
    if 'A' <= c && c <= 'Z' {
        (c as u8 + 32) as char
    } else {
        c
    }
}

/// The characters of `s` with the ASCII capitals turned into small letters.
pub fn lower_chars_of(s: &str) -> (r: Vec<char>)
    ensures
        r@ == ascii_lower_of(s@),
{
    let mut out: Vec<char> = Vec::new();
    for c in it: s.chars()
        invariant
            it.seq() == s@,
            out@ == ascii_lower_of(s@.take(it.index())),
    {
        out.push(to_ascii_lower(c));
        proof {
            assert(s@.take(it.index() + 1) =~= s@.take(it.index()).push(c));
        }
    }
    proof {
        assert(s@.take(s@.len() as int) =~= s@);
    }
    out
}

/// Whether two strings differ at most in the case of ASCII letters.
pub fn eq_ignore_ascii_case(a: &str, b: &str) -> (r: bool)
    ensures
        r == (ascii_lower_of(a@) == ascii_lower_of(b@)),
{
    let x = lower_chars_of(a);
    let y = lower_chars_of(b);
    if x.len() != y.len() {
        return false;
    }
    for i in 0..x.len()
        invariant
            x@ == ascii_lower_of(a@),
            y@ == ascii_lower_of(b@),
            x@.len() == y@.len(),
            forall|j: int| 0 <= j < i ==> x@[j] == y@[j],
    {
        if x[i] != y[i] {
            return false;
        }
    }
    proof {
        assert(x@ =~= y@);
    }
    true
}

/// Whether `needle` stands in `hay` at position `k`.
fn matches_at(hay: &Vec<char>, needle: &Vec<char>, k: usize) -> (r: bool)
    requires
        k + needle@.len() <= hay@.len(),
    ensures
        r == occurs_at(hay@, needle@, k as int),
{
    let limit: usize = hay.len();
    for i in 0..needle.len()
        invariant
            k + needle@.len() <= hay@.len(),
            hay@.len() == limit,
            forall|j: int| 0 <= j < i ==> hay@[k + j] == needle@[j],
    {
        if hay[k + i] != needle[i] {
            proof {
                assert(hay@.subrange(k as int, k + needle@.len())[i as int] == hay@[k + i]);
            }
            return false;
        }
    }
    proof {
        assert(hay@.subrange(k as int, k + needle@.len()) =~= needle@);
    }
    true
}

/// Whether `needle` stands somewhere in `hay`.
pub fn contains(hay: &Vec<char>, needle: &Vec<char>) -> (r: bool)
    ensures
        r == occurs_in(hay@, needle@),
{
    if needle.len() > hay.len() {
        return false;
    }
    let last: usize = hay.len() - needle.len();
    let mut k: usize = 0;
    while k <= last
        invariant
            last + needle@.len() == hay@.len(),
            k <= last + 1,
            forall|j: int| 0 <= j < k ==> !occurs_at(hay@, needle@, j),
        decreases last + 1 - k,
    {
        if matches_at(hay, needle, k) {
            return true;
        }
        if k == last {
            return false;
        }
        k += 1;
    }
    false
}

/// Whether `s` starts with `prefix`.
pub fn starts_with(s: &str, prefix: &str) -> (r: bool)
    ensures
        r == has_prefix(s@, prefix@),
{
    let x = chars_of(s);
    let y = chars_of(prefix);
    if y.len() > x.len() {
        return false;
    }
    proof {
        assert(s@.subrange(0, prefix@.len() as int) =~= s@.take(prefix@.len() as int));
    }
    matches_at(&x, &y, 0)
}

/// `s` without `suffix`, if it ends in it.
pub fn strip_suffix<'a>(s: &'a str, suffix: &str) -> (r: Option<&'a str>)
    ensures
        match r {
            Some(rest) => has_suffix(s@, suffix@) && rest@ == s@.take(s@.len() - suffix@.len()),
            None => !has_suffix(s@, suffix@),
        },
{
    let x = chars_of(s);
    let y = chars_of(suffix);
    if y.len() > x.len() {
        return None;
    }
    let cut: usize = x.len() - y.len();
    proof {
        assert(s@.subrange(cut as int, cut + suffix@.len()) =~= s@.skip(cut as int));
        assert(s@.subrange(0, cut as int) =~= s@.take(cut as int));
    }
    if matches_at(&x, &y, cut) {
        Some(s.substring_char(0, cut))
    } else {
        None
    }
}

/// The decimal digit for `d`, as a string.
fn digit_str(d: u64) -> (r: &'static str)
    requires
        d < 10,
    ensures
        r@ == seq![digit(d as nat)],
{
    proof {
        reveal_strlit("0");
        reveal_strlit("1");
        reveal_strlit("2");
        reveal_strlit("3");
        reveal_strlit("4");
        reveal_strlit("5");
        reveal_strlit("6");
        reveal_strlit("7");
        reveal_strlit("8");
        reveal_strlit("9");
    }
    if d == 0 {
        "0"
    } else if d == 1 {
        "1"
    } else if d == 2 {
        "2"
    } else if d == 3 {
        "3"
    } else if d == 4 {
        "4"
    } else if d == 5 {
        "5"
    } else if d == 6 {
        "6"
    } else if d == 7 {
        "7"
    } else if d == 8 {
        "8"
    } else {
        "9"
    }
}

/// Appends `n` in decimal.
pub fn push_decimal(out: &mut String, n: u64)
    ensures
        final(out)@ == old(out)@ + decimal(n as nat),
    decreases n,
{
    if n >= 10 {
        push_decimal(out, n / 10);
    }
    out.append(digit_str(n % 10));
    proof {
        assert(out@ =~= old(out)@ + decimal(n as nat));
    }
}

/// Appends `n` in decimal, with a minus sign where it is negative.
pub fn push_signed_decimal(out: &mut String, n: i64)
    ensures
        final(out)@ == old(out)@ + signed_decimal(n as int),
{
    if n < 0 {
        let below: u64 = (-(n + 1)) as u64;
        proof {
            reveal_strlit("-");
        }
        out.append("-");
        push_decimal(out, below + 1);
        proof {
            assert(out@ =~= old(out)@ + signed_decimal(n as int));
        }
    } else {
        push_decimal(out, n as u64);
    }
}

/// Whether `a` comes before `b` in the lexicographic order of bytes.
pub fn bytes_less(a: &[u8], b: &[u8]) -> (r: bool)
    ensures
        r == bytes_before(a@, b@),
{
    let mut i: usize = 0;
    while i < a.len() && i < b.len()
        invariant
            i <= a@.len(),
            i <= b@.len(),
            forall|j: int| 0 <= j < i ==> a@[j] == b@[j],
        decreases a@.len() - i,
    {
        if a[i] != b[i] {
            proof {
                if a@[i as int] < b@[i as int] {
                    assert(first_difference(a@, b@, i as int));
                } else {
                    assert forall|k: int| !first_difference(a@, b@, k) by {
                        if first_difference(a@, b@, k) {
                            if k < i {
                                assert(a@[k] == b@[k]);
                            } else if k > i {
                                assert(a@[i as int] == b@[i as int]);
                            }
                        }
                    }
                }
            }
            return a[i] < b[i];
        }
        i += 1;
    }
    proof {
        if i < b@.len() {
            assert(first_difference(a@, b@, i as int));
        } else {
            assert forall|k: int| !first_difference(a@, b@, k) by {
                if first_difference(a@, b@, k) {
                    assert(a@[k] == b@[k]);
                }
            }
        }
    }
    i < b.len()
}

/// Whether `a` comes before `b` in the order of strings.
pub fn str_less(a: &str, b: &str) -> (r: bool)
    ensures
        r == text_before(a@, b@),
{
    bytes_less(a.as_bytes(), b.as_bytes())
}

/// Two strings with the same UTF-8 bytes are the same string.
pub proof fn lemma_encoding_is_injective(a: Seq<char>, b: Seq<char>)
    ensures
        encode_utf8(a) == encode_utf8(b) ==> a == b,
{
    encode_utf8_decode_utf8(a);
    encode_utf8_decode_utf8(b);
}

proof fn lemma_encode_concat(a: Seq<char>, b: Seq<char>)
    ensures
        encode_utf8(a + b) == encode_utf8(a) + encode_utf8(b),
    decreases a.len(),
{
    if a.len() == 0 {
        assert(a + b =~= b);
        assert(encode_utf8(a) + encode_utf8(b) =~= encode_utf8(b));
    } else {
        lemma_encode_concat(a.drop_first(), b);
        assert((a + b).drop_first() =~= a.drop_first() + b);
        assert(encode_utf8(a + b) =~= encode_utf8(a) + encode_utf8(b));
    }
}

proof fn lemma_prefix_ends_at_boundary(a: Seq<char>, b: Seq<char>)
    ensures
        is_char_boundary(encode_utf8(a + b), byte_len(a) as int),
    decreases a.len(),
{
    let bytes = encode_utf8(a + b);
    encode_utf8_valid_utf8(a + b);
    if a.len() > 0 {
        encode_utf8_first_scalar(a + b);
        lemma_encode_concat(a, b);
        assert((a + b).drop_first() =~= a.drop_first() + b);
        assert(pop_first_scalar(bytes) =~= encode_utf8(a.drop_first() + b));
        lemma_prefix_ends_at_boundary(a.drop_first(), b);
    }
}

proof fn lemma_scalar_takes_a_byte(c: char)
    ensures
        byte_len(seq![c]) > 0,
{
    assert(seq![c].drop_first() =~= Seq::<char>::empty());
}

/// A prefix that fits and cannot be lengthened is the longest one that fits.
proof fn lemma_fitting_prefix(s: Seq<char>, k: int, max: nat)
    requires
        0 <= k <= s.len(),
        byte_len(s.take(k)) <= max,
        k == s.len() || byte_len(s.take(k + 1)) > max,
    ensures
        fitting_prefix(s, max) == s.take(k),
    decreases s.len(),
{
    if k == s.len() {
        assert(s.take(k) =~= s);
    } else {
        assert(s =~= s.take(k + 1) + s.skip(k + 1));
        lemma_encode_concat(s.take(k + 1), s.skip(k + 1));
        let t = s.drop_last();
        assert(t.take(k) =~= s.take(k));
        if k < t.len() {
            assert(t.take(k + 1) =~= s.take(k + 1));
        }
        lemma_fitting_prefix(t, k, max);
    }
}

proof fn lemma_longest_head(s: Seq<char>, head: Seq<char>, tail: Seq<char>, end: int, max: int)
    requires
        0 <= end <= max < byte_len(s),
        is_char_boundary(encode_utf8(s), end),
        forall|j: int| end < j <= max ==> !#[trigger] is_char_boundary(encode_utf8(s), j),
        encode_utf8(head) == encode_utf8(s).subrange(0, end),
        encode_utf8(tail) == encode_utf8(s).subrange(end, encode_utf8(s).len() as int),
    ensures
        head == fitting_prefix(s, max as nat),
{
    let bytes = encode_utf8(s);
    assert(bytes =~= encode_utf8(head) + encode_utf8(tail));
    lemma_encode_concat(head, tail);
    lemma_encoding_is_injective(s, head + tail);
    let k = head.len() as int;
    assert(s.take(k) =~= head);
    assert(tail.len() > 0);
    let next = head.push(tail[0]);
    assert(s.take(k + 1) =~= next);
    assert(next =~= head + seq![tail[0]]);
    lemma_encode_concat(head, seq![tail[0]]);
    lemma_scalar_takes_a_byte(tail[0]);
    assert(s =~= next + s.skip(k + 1));
    lemma_prefix_ends_at_boundary(next, s.skip(k + 1));
    lemma_fitting_prefix(s, k, max as nat);
}

/// A cut text is a prefix, fits, and no longer prefix fits.
pub proof fn cutting_keeps_the_most(s: Seq<char>, max: nat)
    ensures
        fitting_prefix(s, max).len() <= s.len(),
        fitting_prefix(s, max) == s.take(fitting_prefix(s, max).len() as int),
        byte_len(fitting_prefix(s, max)) <= max,
        forall|k: int|
            0 <= k <= s.len() && byte_len(#[trigger] s.take(k)) <= max ==> k <= fitting_prefix(
                s,
                max,
            ).len(),
    decreases s.len(),
{
    if s.len() == 0 || byte_len(s) <= max {
        assert(s.take(s.len() as int) =~= s);
    } else {
        let t = s.drop_last();
        cutting_keeps_the_most(t, max);
        let r = fitting_prefix(t, max);
        assert(t.take(r.len() as int) =~= s.take(r.len() as int));
        assert forall|k: int| 0 <= k <= s.len() && byte_len(#[trigger] s.take(k)) <= max implies k
            <= r.len() by {
            if k == s.len() {
                assert(s.take(k) =~= s);
            } else {
                assert(t.take(k) =~= s.take(k));
            }
        }
    }
}

/// Where four bytes are allowed, a text that is not empty is not cut to nothing.
pub proof fn cutting_leaves_something(s: Seq<char>, max: nat)
    requires
        s.len() > 0,
        max >= 4,
    ensures
        fitting_prefix(s, max).len() > 0,
{
    cutting_keeps_the_most(s, max);
    let one = s.take(1);
    let none = one.drop_first();
    assert(none =~= Seq::<char>::empty());
    assert(encode_utf8(none) =~= Seq::<u8>::empty());
    assert(encode_utf8(one) =~= encode_scalar(one[0] as u32));
}

/// A line and what follows its line feed: the lines are this one and those that follow.
pub proof fn lines_are_split_at_line_feeds(line: Seq<char>, rest: Seq<char>)
    requires
        !line.contains('\n'),
        line.len() == 0 || line.last() != '\r',
    ensures
        lines_of(line + seq!['\n'] + rest) == seq![line] + lines_of(rest),
{
    lemma_until_line_feed(line, rest);
    assert(after_first_line(line + seq!['\n'] + rest) =~= rest);
}

proof fn lemma_until_line_feed(line: Seq<char>, rest: Seq<char>)
    requires
        !line.contains('\n'),
    ensures
        until_line_feed(line + seq!['\n'] + rest) == line,
    decreases line.len(),
{
    let s = line + seq!['\n'] + rest;
    if line.len() > 0 {
        let tail = line.drop_first();
        assert(s.drop_first() =~= tail + seq!['\n'] + rest);
        assert(line[0] == s.first());
        assert forall|i: int| 0 <= i < tail.len() implies #[trigger] tail[i] != '\n' by {
            assert(line[i + 1] == tail[i]);
        }
        lemma_until_line_feed(tail, rest);
        assert(seq![s.first()] + tail =~= line);
    } else {
        assert(s.first() == '\n');
    }
}

/// The name of a path is never empty, and holds no separator.
pub proof fn names_are_plain(s: Seq<char>)
    ensures
        base_name_of(s).len() > 0,
        is_plain(base_name_of(s)),
{
    reveal_strlit("?");
    lemma_segment_is_plain(s);
}

/// The name of `<dir>/<name>` is `<name>`, for either separator and with any number of them at
/// the end.
pub proof fn name_is_last_segment(dir: Seq<char>, name: Seq<char>, end: Seq<char>)
    requires
        name.len() > 0,
        is_plain(name),
        forall|i: int| 0 <= i < end.len() ==> is_separator(#[trigger] end[i]),
        dir.len() == 0 || is_separator(dir.last()),
    ensures
        base_name_of(dir + name + end) == name,
    decreases end.len(),
{
    let s = dir + name + end;
    if end.len() > 0 {
        assert(s.drop_last() =~= dir + name + end.drop_last());
        name_is_last_segment(dir, name, end.drop_last());
        assert(is_separator(s.last())) by {
            assert(s.last() == end[end.len() - 1]);
        }
        assert(last_segment(s) == last_segment(s.drop_last()));
    } else {
        assert(s =~= dir + name);
        assert(s.last() == name[name.len() - 1]);
        lemma_run_after(dir, name);
    }
}

proof fn lemma_run_after(dir: Seq<char>, name: Seq<char>)
    requires
        is_plain(name),
        dir.len() == 0 || is_separator(dir.last()),
    ensures
        last_run(dir + name) == name,
    decreases name.len(),
{
    let s = dir + name;
    if name.len() == 0 {
        assert(s =~= dir);
        assert(last_run(s) =~= name);
    } else {
        assert(s.drop_last() =~= dir + name.drop_last());
        assert(s.last() == name[name.len() - 1]);
        lemma_run_after(dir, name.drop_last());
        assert(last_run(s) =~= name);
    }
}

proof fn lemma_run_is_plain(s: Seq<char>)
    ensures
        is_plain(last_run(s)),
    decreases s.len(),
{
    if s.len() > 0 && !is_separator(s.last()) {
        let run = last_run(s.drop_last());
        lemma_run_is_plain(s.drop_last());
        assert(is_plain(run.push(s.last())));
    }
}

proof fn lemma_segment_is_plain(s: Seq<char>)
    ensures
        is_plain(last_segment(s)),
    decreases s.len(),
{
    if s.len() > 0 && is_separator(s.last()) {
        lemma_segment_is_plain(s.drop_last());
    } else {
        lemma_run_is_plain(s);
    }
}

/// Of two different byte strings one comes before the other, and never both.
pub proof fn bytes_are_totally_ordered(a: Seq<u8>, b: Seq<u8>)
    ensures
        a == b || bytes_before(a, b) || bytes_before(b, a),
        bytes_before(a, b) ==> a != b && !bytes_before(b, a),
{
    lemma_bytes_total_from(a, b, 0);
    if bytes_before(a, b) {
        if bytes_before(b, a) {
            bytes_order_is_transitive(a, b, a);
        }
        if bytes_before(a, a) {
            let i = choose|i: int| first_difference(a, a, i);
            assert(first_difference(a, a, i));
            assert(false);
        }
    }
}

/// The order of byte strings carries over.
pub proof fn bytes_order_is_transitive(a: Seq<u8>, b: Seq<u8>, c: Seq<u8>)
    requires
        bytes_before(a, b),
        bytes_before(b, c),
    ensures
        bytes_before(a, c),
{
    let i = choose|i: int| first_difference(a, b, i);
    let j = choose|j: int| first_difference(b, c, j);
    let k = if i < j {
        i
    } else {
        j
    };
    assert(first_difference(a, c, k)) by {
        assert forall|m: int| 0 <= m < k implies a[m] == c[m] by {
            assert(a[m] == b[m] && b[m] == c[m]);
        }
    }
}

proof fn lemma_bytes_total_from(a: Seq<u8>, b: Seq<u8>, i: int)
    requires
        0 <= i <= a.len(),
        i <= b.len(),
        forall|j: int| 0 <= j < i ==> a[j] == b[j],
    ensures
        a == b || bytes_before(a, b) || bytes_before(b, a),
    decreases a.len() - i,
{
    if i < a.len() && i < b.len() && a[i] == b[i] {
        lemma_bytes_total_from(a, b, i + 1);
    } else if i == a.len() && i == b.len() {
        assert(a =~= b);
    } else if i < b.len() && (i == a.len() || a[i] < b[i]) {
        assert(first_difference(a, b, i));
    } else {
        assert(first_difference(b, a, i));
    }
}

/// Not coming before carries over, for byte strings.
pub proof fn lemma_bytes_not_before(a: Seq<u8>, b: Seq<u8>, c: Seq<u8>)
    requires
        !bytes_before(a, b),
        !bytes_before(b, c),
    ensures
        !bytes_before(a, c),
{
    bytes_are_totally_ordered(a, b);
    bytes_are_totally_ordered(b, c);
    bytes_are_totally_ordered(a, c);
    if b != a && c != b {
        bytes_order_is_transitive(c, b, a);
    }
    bytes_are_totally_ordered(c, a);
}

/// Of two different strings one comes before the other, and never both.
pub proof fn texts_are_totally_ordered(a: Seq<char>, b: Seq<char>)
    ensures
        a == b || text_before(a, b) || text_before(b, a),
        text_before(a, b) ==> a != b && !text_before(b, a),
{
    bytes_are_totally_ordered(encode_utf8(a), encode_utf8(b));
    lemma_encoding_is_injective(a, b);
}

/// Whether `r` is the longest prefix of `s` of which the UTF-8 bytes are at most `max`.
pub open spec fn is_cut_to(r: Seq<char>, s: Seq<char>, max: nat) -> bool {
    &&& r.len() <= s.len()
    &&& r == s.take(r.len() as int)
    &&& encode_utf8(r).len() <= max
    &&& forall|k: int| r.len() < k <= s.len() ==> encode_utf8(#[trigger] s.take(k)).len() > max
}

/// A cut text is the longest prefix whose UTF-8 bytes are at most so many.
pub proof fn cut_texts_are_the_longest_that_fit(s: Seq<char>, max: nat)
    ensures
        is_cut_to(fitting_prefix(s, max), s, max),
{
    cutting_keeps_the_most(s, max);
}

/// Whether `c` is one of the two characters that part a path.
pub open spec fn parts_paths(c: char) -> bool {
    c == '/' || c == '\\'
}

/// The name of a path that holds anything but separators is what stands between two of them, or
/// an end of the path, with nothing but separators behind it; that of any other path is `?`.
pub proof fn names_stand_between_separators(s: Seq<char>)
    ensures
        (exists|i: int| 0 <= i < s.len() && !parts_paths(#[trigger] s[i])) ==> exists|
            a: int,
            b: int,
        |
            0 <= a < b <= s.len() && base_name_of(s) == #[trigger] s.subrange(a, b) && (a == 0
                || parts_paths(s[a - 1])) && (forall|i: int|
                a <= i < b ==> !parts_paths(#[trigger] s[i])) && (forall|i: int|
                b <= i < s.len() ==> parts_paths(#[trigger] s[i])),
        (forall|i: int| 0 <= i < s.len() ==> parts_paths(#[trigger] s[i])) ==> base_name_of(s)
            == "?"@,
{
    lemma_segment_range(s);
}

proof fn lemma_segment_range(s: Seq<char>) -> (r: (int, int))
    ensures
        0 <= r.0 <= r.1 <= s.len(),
        last_segment(s) == s.subrange(r.0, r.1),
        r.0 == 0 || parts_paths(s[r.0 - 1]),
        forall|i: int| r.0 <= i < r.1 ==> !parts_paths(#[trigger] s[i]),
        forall|i: int| r.1 <= i < s.len() ==> parts_paths(#[trigger] s[i]),
        (exists|i: int| 0 <= i < s.len() && !parts_paths(#[trigger] s[i])) ==> r.0 < r.1,
        (forall|i: int| 0 <= i < s.len() ==> parts_paths(#[trigger] s[i])) ==> last_segment(
            s,
        ).len() == 0,
    decreases s.len(),
{
    if s.len() > 0 && is_separator(s.last()) {
        let t = s.drop_last();
        let (a, b) = lemma_segment_range(t);
        assert(t.subrange(a, b) =~= s.subrange(a, b));
        assert(a == 0 || s[a - 1] == t[a - 1]);
        assert forall|i: int| a <= i < b implies !parts_paths(#[trigger] s[i]) by {
            assert(t[i] == s[i]);
        }
        assert forall|i: int| b <= i < s.len() implies parts_paths(#[trigger] s[i]) by {
            if i < t.len() {
                assert(t[i] == s[i]);
            }
        }
        if exists|i: int| 0 <= i < s.len() && !parts_paths(#[trigger] s[i]) {
            let i = choose|i: int| 0 <= i < s.len() && !parts_paths(#[trigger] s[i]);
            assert(t[i] == s[i]);
        }
        if forall|i: int| 0 <= i < s.len() ==> parts_paths(#[trigger] s[i]) {
            assert forall|i: int| 0 <= i < t.len() implies parts_paths(#[trigger] t[i]) by {
                assert(t[i] == s[i]);
            }
        }
        (a, b)
    } else {
        let a = lemma_run_range(s);
        if s.len() > 0 {
            assert(!parts_paths(s[s.len() - 1]));
            if a == s.len() {
                assert(parts_paths(s[a - 1]));
            }
        }
        (a, s.len() as int)
    }
}

proof fn lemma_run_range(s: Seq<char>) -> (a: int)
    ensures
        0 <= a <= s.len(),
        last_run(s) == s.skip(a),
        a == 0 || parts_paths(s[a - 1]),
        forall|i: int| a <= i < s.len() ==> !parts_paths(#[trigger] s[i]),
    decreases s.len(),
{
    if s.len() == 0 || is_separator(s.last()) {
        assert(s.skip(s.len() as int) =~= Seq::<char>::empty());
        s.len() as int
    } else {
        let t = s.drop_last();
        let a = lemma_run_range(t);
        assert(t.skip(a).push(s.last()) =~= s.skip(a));
        assert forall|i: int| a <= i < s.len() implies !parts_paths(#[trigger] s[i]) by {
            if i < t.len() {
                assert(t[i] == s[i]);
            }
        }
        a
    }
}

/// A trimmed text is the part of the text between the white space at its ends.
pub proof fn trimming_drops_white_space_at_the_ends(s: Seq<char>)
    ensures
        exists|a: int, b: int|
            0 <= a <= b <= s.len() && trim_of(s) == #[trigger] s.subrange(a, b) && (forall|i: int|
                0 <= i < a ==> is_white_space(#[trigger] s[i])) && (forall|i: int|
                b <= i < s.len() ==> is_white_space(#[trigger] s[i])) && (a < b
                ==> !is_white_space(s[a]) && !is_white_space(s[b - 1])),
{
    let a = lemma_trim_start(s);
    let t = s.skip(a);
    let n = lemma_trim_end(t);
    assert(t.take(n) =~= s.subrange(a, a + n));
    assert forall|i: int| a + n <= i < s.len() implies is_white_space(#[trigger] s[i]) by {
        assert(t[i - a] == s[i]);
    }
    if n > 0 {
        assert(t[n - 1] == s[a + n - 1]);
        assert(t[0] == s[a]);
    }
}

proof fn lemma_trim_start(s: Seq<char>) -> (a: int)
    ensures
        0 <= a <= s.len(),
        trim_start_of(s) == s.skip(a),
        forall|i: int| 0 <= i < a ==> is_white_space(#[trigger] s[i]),
        a < s.len() ==> !is_white_space(s[a]),
    decreases s.len(),
{
    if s.len() > 0 && is_white_space(s.first()) {
        let t = s.drop_first();
        let a = lemma_trim_start(t);
        assert(t.skip(a) =~= s.skip(a + 1));
        assert forall|i: int| 0 <= i < a + 1 implies is_white_space(#[trigger] s[i]) by {
            if i > 0 {
                assert(t[i - 1] == s[i]);
            }
        }
        a + 1
    } else {
        assert(s.skip(0) =~= s);
        0
    }
}

/// Where the white space at the end of a text starts.
pub proof fn lemma_trim_end(s: Seq<char>) -> (n: int)
    ensures
        0 <= n <= s.len(),
        trim_end_of(s) == s.take(n),
        forall|i: int| n <= i < s.len() ==> is_white_space(#[trigger] s[i]),
        n > 0 ==> !is_white_space(s[n - 1]),
    decreases s.len(),
{
    if s.len() > 0 && is_white_space(s.last()) {
        let t = s.drop_last();
        let n = lemma_trim_end(t);
        assert(t.take(n) =~= s.take(n));
        assert forall|i: int| n <= i < s.len() implies is_white_space(#[trigger] s[i]) by {
            if i < t.len() {
                assert(t[i] == s[i]);
            }
        }
        n
    } else {
        assert(s.take(s.len() as int) =~= s);
        s.len() as int
    }
}

/// Stripping a character drops all its occurrences at the start, and nothing else.
pub proof fn stripping_drops_a_run(s: Seq<char>, c: char)
    ensures
        exists|k: int|
            0 <= k <= s.len() && strip_leading(s, c) == #[trigger] s.skip(k) && (forall|i: int|
                0 <= i < k ==> #[trigger] s[i] == c) && (k < s.len() ==> s[k] != c),
    decreases s.len(),
{
    if s.len() > 0 && s.first() == c {
        let t = s.drop_first();
        stripping_drops_a_run(t, c);
        let k = choose|k: int|
            0 <= k <= t.len() && strip_leading(t, c) == #[trigger] t.skip(k) && (forall|i: int|
                0 <= i < k ==> #[trigger] t[i] == c) && (k < t.len() ==> t[k] != c);
        assert(t.skip(k) =~= s.skip(k + 1));
        assert forall|i: int| 0 <= i < k + 1 implies #[trigger] s[i] == c by {
            if i > 0 {
                assert(t[i - 1] == s[i]);
            }
        }
    } else {
        assert(s.skip(0) =~= s);
    }
}

/// The first line is what stands before the first line feed, or before a carriage return and the
/// first line feed; of a text without a line feed it is the whole text.
pub proof fn first_lines_end_at_the_line_ending(line: Seq<char>, rest: Seq<char>)
    requires
        !line.contains('\n'),
    ensures
        line.len() == 0 || line.last() != '\r' ==> first_line_of(line + seq!['\n'] + rest) == Some(
            line,
        ),
        first_line_of(line + seq!['\r', '\n'] + rest) == Some(line),
        line.len() > 0 ==> first_line_of(line) == Some(line) && lines_of(line) == seq![line],
        lines_of(line + seq!['\r', '\n'] + rest) == seq![line] + lines_of(rest),
        first_line_of(Seq::empty()) is None,
        lines_of(Seq::empty()) == Seq::<Seq<char>>::empty(),
{
    lemma_until_line_feed(line, rest);
    let with = line.push('\r');
    assert forall|i: int| 0 <= i < with.len() implies #[trigger] with[i] != '\n' by {
        if i < line.len() {
            assert(line.contains(line[i]));
        }
    }
    lemma_until_line_feed(with, rest);
    let s = line + seq!['\r', '\n'] + rest;
    assert(s =~= with + seq!['\n'] + rest);
    assert(with.drop_last() =~= line);
    assert(after_first_line(s) =~= rest);
    lemma_no_line_feed(line);
    assert(after_first_line(line) =~= Seq::<char>::empty());
    assert(seq![line] + Seq::<Seq<char>>::empty() =~= seq![line]);
    reveal_with_fuel(lines_of, 2);
}

proof fn lemma_no_line_feed(s: Seq<char>)
    requires
        !s.contains('\n'),
    ensures
        until_line_feed(s) == s,
    decreases s.len(),
{
    if s.len() > 0 {
        let t = s.drop_first();
        assert(s.contains(s[0]));
        assert forall|i: int| 0 <= i < t.len() implies #[trigger] t[i] != '\n' by {
            assert(s[i + 1] == t[i]);
        }
        lemma_no_line_feed(t);
        assert(seq![s.first()] + t =~= s);
    }
}

/// Only the ASCII capitals change, each into the small letter 32 code points up.
pub proof fn capitals_turn_into_small_letters(s: Seq<char>, i: int)
    requires
        0 <= i < s.len(),
    ensures
        ascii_lower_of(s).len() == s.len(),
        ascii_lower_of(s)[i] == ascii_lower(s[i]),
        0x41 <= s[i] as int <= 0x5a ==> ascii_lower_of(s)[i] as int == s[i] as int + 32,
        !(0x41 <= s[i] as int <= 0x5a) ==> ascii_lower_of(s)[i] == s[i],
{
}

/// A text occurs in another where that is made of it and what stands before and behind it.
pub proof fn occurrences_part_a_text(hay: Seq<char>, needle: Seq<char>)
    ensures
        occurs_in(hay, needle) <==> exists|a: Seq<char>, b: Seq<char>|
            hay == #[trigger] (a + needle + b),
{
    if occurs_in(hay, needle) {
        let k = choose|k: int| occurs_at(hay, needle, k);
        let a = hay.take(k);
        let b = hay.skip(k + needle.len());
        assert(hay =~= a + needle + b);
    }
    if exists|a: Seq<char>, b: Seq<char>| hay == #[trigger] (a + needle + b) {
        let (a, b) = choose|a: Seq<char>, b: Seq<char>| hay == #[trigger] (a + needle + b);
        assert(hay.subrange(a.len() as int, (a.len() + needle.len()) as int) =~= needle);
        assert(occurs_at(hay, needle, a.len() as int));
    }
}

/// A text has a prefix or a suffix where that and a rest make it up.
pub proof fn prefixes_and_suffixes_part_a_text(s: Seq<char>, part: Seq<char>)
    ensures
        has_prefix(s, part) <==> exists|rest: Seq<char>| s == #[trigger] (part + rest),
        has_suffix(s, part) <==> exists|rest: Seq<char>| s == #[trigger] (rest + part),
{
    if has_prefix(s, part) {
        let rest = s.skip(part.len() as int);
        assert(s =~= part + rest);
    }
    if exists|rest: Seq<char>| s == #[trigger] (part + rest) {
        let rest = choose|rest: Seq<char>| s == #[trigger] (part + rest);
        assert(s.take(part.len() as int) =~= part);
    }
    if has_suffix(s, part) {
        let rest = s.take(s.len() - part.len());
        assert(s =~= rest + part);
    }
    if exists|rest: Seq<char>| s == #[trigger] (rest + part) {
        let rest = choose|rest: Seq<char>| s == #[trigger] (rest + part);
        assert(s.skip(s.len() - part.len()) =~= part);
    }
}

/// The number that a row of decimal digits stands for.
pub open spec fn value_of(digits: Seq<char>) -> int
    decreases digits.len(),
{
    if digits.len() == 0 {
        0
    } else {
        10 * value_of(digits.drop_last()) + (digits.last() as int - 0x30)
    }
}

/// A number is written in digits that stand for it, without a zero in front unless it is zero; a
/// negative one has a minus sign before the digits of its absolute value.
pub proof fn numerals_stand_for_their_number(n: nat)
    ensures
        value_of(decimal(n)) == n,
        decimal(n).len() > 0,
        forall|i: int|
            0 <= i < decimal(n).len() ==> 0x30 <= (#[trigger] decimal(n)[i]) as int <= 0x39,
        n > 0 ==> decimal(n)[0] != '0',
        n == 0 ==> decimal(n) == seq!['0'],
        signed_decimal(n as int) == decimal(n),
        n > 0 ==> signed_decimal(-n) == seq!['-'] + decimal(n),
    decreases n,
{
    if n >= 10 {
        numerals_stand_for_their_number(n / 10);
        let head = decimal(n / 10);
        assert(decimal(n).drop_last() =~= head);
        lemma_digit(n % 10);
        assert forall|i: int| 0 <= i < decimal(n).len() implies 0x30 <= (
        #[trigger] decimal(n)[i]) as int <= 0x39 by {
            if i < head.len() {
                assert(decimal(n)[i] == head[i]);
            }
        }
        assert(decimal(n)[0] == head[0]);
    } else {
        lemma_digit(n);
        assert(decimal(n).drop_last() =~= Seq::<char>::empty());
        assert(decimal(n) =~= seq![digit(n)]);
        assert(value_of(Seq::<char>::empty()) == 0);
    }
}

proof fn lemma_digit(d: nat)
    requires
        d < 10,
    ensures
        digit(d) as int == 0x30 + d,
{
}

/// Byte strings are ordered by the first byte in which they differ, and a prefix comes before a
/// longer string; texts are ordered by their UTF-8 bytes.
pub proof fn smaller_bytes_and_prefixes_come_first(
    head: Seq<u8>,
    x: u8,
    y: u8,
    s: Seq<u8>,
    t: Seq<u8>,
)
    ensures
        x < y ==> bytes_before(head + seq![x] + s, head + seq![y] + t),
        bytes_before(head, head + seq![x] + s),
        forall|a: Seq<char>, b: Seq<char>|
            #![trigger text_before(a, b)]
            text_before(a, b) <==> bytes_before(encode_utf8(a), encode_utf8(b)),
{
    let a = head + seq![x] + s;
    let b = head + seq![y] + t;
    let k = head.len() as int;
    if x < y {
        assert(first_difference(a, b, k));
    }
    assert(first_difference(head, a, k));
}

/// The view of an optional text is there where the text is, and is the text's.
pub proof fn optional_views_are_those_of_the_text(t: &str, s: String)
    ensures
        opt_text(Some(t)) == Some(t@),
        opt_text(None) is None,
        opt_string(Some(s)) == Some(s@),
        opt_string(None) is None,
{
}

/// The parts of a text at given ranges are those that lie there, one for each range.
pub proof fn parts_lie_at_their_ranges(s: Seq<char>, ranges: Seq<(usize, usize)>, k: int)
    requires
        0 <= k < ranges.len(),
    ensures
        ranges_of(s, ranges).len() == ranges.len(),
        ranges_of(s, ranges)[k] == s.subrange(ranges[k].0 as int, ranges[k].1 as int),
{
}

/// White space are the code points that Unicode lists as such.
pub proof fn white_space_is_that_of_unicode(c: char)
    ensures
        is_white_space(c) <==> {
            let n = c as int;
            ||| 0x9 <= n <= 0xd
            ||| n == 0x20
            ||| n == 0x85
            ||| n == 0xa0
            ||| n == 0x1680
            ||| 0x2000 <= n <= 0x200a
            ||| 0x2028 <= n <= 0x2029
            ||| n == 0x202f
            ||| n == 0x205f
            ||| n == 0x3000
        },
{
}

} // verus!
