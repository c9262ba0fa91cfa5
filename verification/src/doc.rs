//! Text handling for documentation examples: splitting text into lines,
//! measuring and removing indentation, hiding lines in doc tests, and
//! keeping track of which dependencies an example uses.
use vstd::prelude::*;

use crate::text::{concat, owned, str_eq};

verus! {

// ---------------------------------------------------------------------------
// Characters and strings
// ---------------------------------------------------------------------------

/// The characters of a string.
pub fn chars_of(s: &str) -> (r: Vec<char>)
    ensures
        r@ == s@,
{
    let mut it = s.chars();
    let mut out: Vec<char> = Vec::new();
    loop
        invariant
            out@ + vstd::std_specs::iter::IteratorSpec::remaining(&it) == s@,
            vstd::std_specs::iter::IteratorSpec::decrease(&it) is Some,
        ensures
            out@ == s@,
        decreases vstd::std_specs::iter::IteratorSpec::decrease(&it)->0,
    {
        match it.next() {
            Some(c) => out.push(c),
            None => {
                assert(out@ + Seq::<char>::empty() =~= out@);
                break;
            },
        }
    }
    out
}

/// `String::push`.
///
/// The contract claims what std documents: the character is appended.
#[verifier::external_body]
pub(crate) fn push_char(s: &mut String, c: char)
    ensures
        final(s)@ == old(s)@.push(c),
{
    s.push(c)
}

/// A string of the characters `cs`.
pub fn string_of(cs: &Vec<char>) -> (r: String)
    ensures
        r@ == cs@,
{
    let mut s = owned("");
    proof {
        reveal_strlit("");
    }
    let mut i: usize = 0;
    while i < cs.len()
        invariant
            i <= cs@.len(),
            s@ == cs@.take(i as int),
        decreases cs@.len() - i,
    {
        push_char(&mut s, cs[i]);
        assert(cs@.take(i + 1) =~= cs@.take(i as int).push(cs@[i as int]));
        i = i + 1;
    }
    assert(cs@.take(cs@.len() as int) =~= cs@);
    s
}

/// A character with the Unicode `White_Space` property.
pub open spec fn is_whitespace(c: char) -> bool {
    ||| ('\u{9}' <= c && c <= '\u{d}')
    ||| c == ' '
    ||| c == '\u{85}'
    ||| c == '\u{a0}'
    ||| c == '\u{1680}'
    ||| ('\u{2000}' <= c && c <= '\u{200a}')
    ||| c == '\u{2028}'
    ||| c == '\u{2029}'
    ||| c == '\u{202f}'
    ||| c == '\u{205f}'
    ||| c == '\u{3000}'
}

/// Whether a character has the `White_Space` property, as
/// `char::is_whitespace` tells.
fn char_is_whitespace(c: char) -> (r: bool)
    ensures
        r == is_whitespace(c),
{
    ('\u{9}' <= c && c <= '\u{d}') || c == ' ' || c == '\u{85}' || c == '\u{a0}' || c
        == '\u{1680}' || ('\u{2000}' <= c && c <= '\u{200a}') || c == '\u{2028}' || c
        == '\u{2029}' || c == '\u{202f}' || c == '\u{205f}' || c == '\u{3000}'
}

// ---------------------------------------------------------------------------
// Leading and trailing runs
// ---------------------------------------------------------------------------

/// How many characters at the start of `s` satisfy `p`.
pub open spec fn leading(s: Seq<char>, p: spec_fn(char) -> bool) -> nat
    decreases s.len(),
{
    if s.len() > 0 && p(s[0]) {
        1 + leading(s.drop_first(), p)
    } else {
        0
    }
}

/// How many characters at the end of `s` satisfy `p`.
pub open spec fn trailing(s: Seq<char>, p: spec_fn(char) -> bool) -> nat
    decreases s.len(),
{
    if s.len() > 0 && p(s.last()) {
        1 + trailing(s.drop_last(), p)
    } else {
        0
    }
}

proof fn lemma_leading(s: Seq<char>, p: spec_fn(char) -> bool, k: int)
    requires
        0 <= k <= s.len(),
        forall|j: int| 0 <= j < k ==> p(#[trigger] s[j]),
        k == s.len() || !p(s[k]),
    ensures
        leading(s, p) == k,
    decreases k,
{
    if k > 0 {
        lemma_leading(s.drop_first(), p, k - 1);
    }
}

proof fn lemma_trailing(s: Seq<char>, p: spec_fn(char) -> bool, k: int)
    requires
        0 <= k <= s.len(),
        forall|j: int| s.len() - k <= j < s.len() ==> p(#[trigger] s[j]),
        k == s.len() || !p(s[s.len() - k - 1]),
    ensures
        trailing(s, p) == k,
    decreases k,
{
    if k > 0 {
        let t = s.drop_last();
        assert forall|j: int| t.len() - (k - 1) <= j < t.len() implies p(#[trigger] t[j]) by {
            assert(t[j] == s[j]);
        }
        if k - 1 != t.len() {
            assert(t[t.len() - (k - 1) - 1] == s[s.len() - k - 1]);
        }
        lemma_trailing(t, p, k - 1);
    }
}

/// `s` without the characters at its start that satisfy `p`.
pub open spec fn trim_start_by(s: Seq<char>, p: spec_fn(char) -> bool) -> Seq<char> {
    s.skip(leading(s, p) as int)
}

/// `s` without the characters at its end that satisfy `p`.
pub open spec fn trim_end_by(s: Seq<char>, p: spec_fn(char) -> bool) -> Seq<char> {
    s.take(s.len() - trailing(s, p))
}

/// `s` without whitespace at either end, as `str::trim` gives it.
pub open spec fn trim(s: Seq<char>) -> Seq<char> {
    trim_end_by(trim_start_by(s, |c: char| is_whitespace(c)), |c: char| is_whitespace(c))
}

proof fn lemma_leading_le(s: Seq<char>, p: spec_fn(char) -> bool)
    ensures
        leading(s, p) <= s.len(),
    decreases s.len(),
{
    if s.len() > 0 {
        lemma_leading_le(s.drop_first(), p);
    }
}

proof fn lemma_trailing_le(s: Seq<char>, p: spec_fn(char) -> bool)
    ensures
        trailing(s, p) <= s.len(),
    decreases s.len(),
{
    if s.len() > 0 {
        lemma_trailing_le(s.drop_last(), p);
    }
}

/// The number of `ch` characters that start `s[from..to]`.
fn count_leading_char(s: &Vec<char>, from: usize, to: usize, ch: char) -> (r: usize)
    requires
        from <= to <= s@.len(),
    ensures
        r as int == leading(s@.subrange(from as int, to as int), |c: char| c == ch),
{
    let ghost t = s@.subrange(from as int, to as int);
    let mut k: usize = from;
    while k < to && s[k] == ch
        invariant
            from <= k <= to,
            to <= s@.len(),
            t == s@.subrange(from as int, to as int),
            forall|j: int| 0 <= j < k - from ==> #[trigger] t[j] == ch,
        decreases to - k,
    {
        k = k + 1;
    }
    proof {
        lemma_leading(t, |c: char| c == ch, (k - from) as int);
    }
    k - from
}

/// The number of `ch` characters that end `s[from..to]`.
fn count_trailing_char(s: &Vec<char>, from: usize, to: usize, ch: char) -> (r: usize)
    requires
        from <= to <= s@.len(),
    ensures
        r as int == trailing(s@.subrange(from as int, to as int), |c: char| c == ch),
{
    let ghost t = s@.subrange(from as int, to as int);
    let mut k: usize = to;
    while k > from && s[k - 1] == ch
        invariant
            from <= k <= to,
            to <= s@.len(),
            t == s@.subrange(from as int, to as int),
            forall|j: int| k - from <= j < to - from ==> #[trigger] t[j] == ch,
        decreases k - from,
    {
        k = k - 1;
    }
    proof {
        lemma_trailing(t, |c: char| c == ch, (to - k) as int);
    }
    to - k
}

/// The number of whitespace characters that start `s[from..to]`.
fn count_leading_whitespace(s: &Vec<char>, from: usize, to: usize) -> (r: usize)
    requires
        from <= to <= s@.len(),
    ensures
        r as int == leading(s@.subrange(from as int, to as int), |c: char| is_whitespace(c)),
{
    let ghost t = s@.subrange(from as int, to as int);
    let mut k: usize = from;
    while k < to && char_is_whitespace(s[k])
        invariant
            from <= k <= to,
            to <= s@.len(),
            t == s@.subrange(from as int, to as int),
            forall|j: int| 0 <= j < k - from ==> is_whitespace(#[trigger] t[j]),
        decreases to - k,
    {
        k = k + 1;
    }
    proof {
        lemma_leading(t, |c: char| is_whitespace(c), (k - from) as int);
    }
    k - from
}

/// The number of whitespace characters that end `s[from..to]`.
fn count_trailing_whitespace(s: &Vec<char>, from: usize, to: usize) -> (r: usize)
    requires
        from <= to <= s@.len(),
    ensures
        r as int == trailing(s@.subrange(from as int, to as int), |c: char| is_whitespace(c)),
{
    let ghost t = s@.subrange(from as int, to as int);
    let mut k: usize = to;
    while k > from && char_is_whitespace(s[k - 1])
        invariant
            from <= k <= to,
            to <= s@.len(),
            t == s@.subrange(from as int, to as int),
            forall|j: int| k - from <= j < to - from ==> is_whitespace(#[trigger] t[j]),
        decreases k - from,
    {
        k = k - 1;
    }
    proof {
        lemma_trailing(t, |c: char| is_whitespace(c), (to - k) as int);
    }
    to - k
}

// ---------------------------------------------------------------------------
// Lines
// ---------------------------------------------------------------------------

/// A line without the `'\r'` of a `"\r\n"` ending.
pub open spec fn strip_cr(l: Seq<char>) -> Seq<char> {
    if l.len() > 0 && l.last() == '\r' {
        l.drop_last()
    } else {
        l
    }
}

/// Splitting `s` at each `'\n'`: the lines ended so far, and the line
/// being read.
pub open spec fn split_state(s: Seq<char>) -> (Seq<Seq<char>>, Seq<char>)
    decreases s.len(),
{
    if s.len() == 0 {
        (Seq::empty(), Seq::empty())
    } else {
        let (done, cur) = split_state(s.drop_last());
        if s.last() == '\n' {
            (done.push(strip_cr(cur)), Seq::empty())
        } else {
            (done, cur.push(s.last()))
        }
    }
}

/// The lines of `s`, as `str::lines` gives them: split at `'\n'`, with a
/// `'\r'` before the `'\n'` dropped, and no empty line after a final
/// `'\n'`.
pub open spec fn lines(s: Seq<char>) -> Seq<Seq<char>> {
    let (done, cur) = split_state(s);
    if cur.len() == 0 {
        done
    } else {
        done.push(cur)
    }
}

/// The character sequences that a list of character vectors holds.
pub open spec fn views(v: Seq<Vec<char>>) -> Seq<Seq<char>> {
    v.map_values(|x: Vec<char>| x@)
}

/// The lines of `text`.
pub fn lines_of(text: &Vec<char>) -> (r: Vec<Vec<char>>)
    ensures
        views(r@) == lines(text@),
{
    let mut done: Vec<Vec<char>> = Vec::new();
    let mut cur: Vec<char> = Vec::new();
    let mut i: usize = 0;
    while i < text.len()
        invariant
            i <= text@.len(),
            (views(done@), cur@) == split_state(text@.take(i as int)),
        decreases text@.len() - i,
    {
        let c = text[i];
        let ghost prev = text@.take(i as int);
        assert(text@.take(i + 1).drop_last() =~= prev);
        assert(text@.take(i + 1).last() == c);
        if c == '\n' {
            if cur.len() > 0 && cur[cur.len() - 1] == '\r' {
                cur.pop();
            }
            let line = cur;
            let ghost old_done = views(done@);
            done.push(line);
            assert(views(done@) =~= old_done.push(line@));
            cur = Vec::new();
        } else {
            cur.push(c);
        }
        i = i + 1;
    }
    assert(text@.take(text@.len() as int) =~= text@);
    if cur.len() > 0 {
        let ghost old_done = views(done@);
        done.push(cur);
        assert(views(done@) =~= old_done.push(done@.last()@));
    }
    done
}

// ---------------------------------------------------------------------------
// Indentation
// ---------------------------------------------------------------------------

/// Whether every character of `l` is whitespace.
pub open spec fn all_whitespace(l: Seq<char>) -> bool {
    forall|i: int| 0 <= i < l.len() ==> is_whitespace(#[trigger] l[i])
}

/// A space or a tab.
pub open spec fn is_blank(c: char) -> bool {
    c == ' ' || c == '\t'
}

/// The indentation of a line: the number of spaces and tabs before its
/// first other character, or `None` for a line that is all whitespace.
pub open spec fn indent(l: Seq<char>) -> Option<nat> {
    if all_whitespace(l) {
        None
    } else {
        Some(leading(l, |c: char| is_blank(c)))
    }
}

/// The indentation of the line `l[from..to]`.
fn indent_in(l: &Vec<char>, from: usize, to: usize) -> (r: Option<usize>)
    requires
        from <= to <= l@.len(),
    ensures
        match r {
            None => indent(l@.subrange(from as int, to as int)) is None,
            Some(k) => indent(l@.subrange(from as int, to as int)) == Some(k as nat),
        },
{
    let ghost t = l@.subrange(from as int, to as int);
    let ws = count_leading_whitespace(l, from, to);
    if ws == to - from {
        proof {
            assert forall|i: int| 0 <= i < t.len() implies is_whitespace(#[trigger] t[i]) by {
                lemma_leading_prefix(t, |c: char| is_whitespace(c), i);
            }
        }
        return None;
    }
    let mut k: usize = from;
    while k < to && (l[k] == ' ' || l[k] == '\t')
        invariant
            from <= k <= to,
            to <= l@.len(),
            t == l@.subrange(from as int, to as int),
            forall|j: int| 0 <= j < k - from ==> is_blank(#[trigger] t[j]),
        decreases to - k,
    {
        k = k + 1;
    }
    proof {
        lemma_leading(t, |c: char| is_blank(c), (k - from) as int);
        lemma_leading_prefix(t, |c: char| is_whitespace(c), ws as int);
        lemma_leading_le(t, |c: char| is_whitespace(c));
        assert(!is_whitespace(t[ws as int]));
    }
    Some(k - from)
}

/// Within the leading run, every character satisfies `p`; and where the
/// run ends before the end, the next character does not.
proof fn lemma_leading_prefix(s: Seq<char>, p: spec_fn(char) -> bool, i: int)
    ensures
        0 <= i < leading(s, p) ==> p(s[i]),
        i == leading(s, p) && i < s.len() ==> !p(s[i]),
    decreases s.len(),
{
    lemma_leading_le(s, p);
    if s.len() > 0 && p(s[0]) {
        if 0 < i < s.len() {
            lemma_leading_prefix(s.drop_first(), p, i - 1);
            assert(s.drop_first()[i - 1] == s[i]);
        }
    }
}

/// The indentation of a line of text, as counted for removing it: `None`
/// where the line is all whitespace, otherwise the number of spaces and
/// tabs that start it.
pub fn indent_size(text: &str) -> (r: Option<usize>)
    ensures
        match r {
            None => indent(text@) is None,
            Some(k) => indent(text@) == Some(k as nat),
        },
{
    let cs = chars_of(text);
    assert(cs@.subrange(0, cs@.len() as int) =~= cs@);
    indent_in(&cs, 0, cs.len())
}

/// The least indentation of the lines that are not all whitespace.
pub open spec fn min_indent(ls: Seq<Seq<char>>) -> Option<nat>
    decreases ls.len(),
{
    if ls.len() == 0 {
        None
    } else {
        let m = min_indent(ls.drop_last());
        match indent(ls.last()) {
            None => m,
            Some(k) => match m {
                None => Some(k),
                Some(j) => Some(if k < j {
                    k
                } else {
                    j
                }),
            },
        }
    }
}

// ---------------------------------------------------------------------------
// Cutting lines at a byte offset
// ---------------------------------------------------------------------------

/// The number of bytes that UTF-8 takes for a character.
pub open spec fn char_width(c: char) -> nat {
    if (c as u32) < 0x80 {
        1
    } else if (c as u32) < 0x800 {
        2
    } else if (c as u32) < 0x10000 {
        3
    } else {
        4
    }
}

/// The number of bytes that UTF-8 takes for `l`.
pub open spec fn byte_len(l: Seq<char>) -> nat
    decreases l.len(),
{
    if l.len() == 0 {
        0
    } else {
        char_width(l[0]) + byte_len(l.drop_first())
    }
}

/// The characters after the first `m` bytes of `l`, or `None` where byte
/// `m` falls inside a character or past the end.
pub open spec fn skip_bytes(l: Seq<char>, m: nat) -> Option<Seq<char>>
    decreases l.len(),
{
    if m == 0 {
        Some(l)
    } else if l.len() == 0 {
        None
    } else if char_width(l[0]) <= m {
        skip_bytes(l.drop_first(), (m - char_width(l[0])) as nat)
    } else {
        None
    }
}

/// A line with its first `m` bytes cut off, or nothing where the line is
/// no longer than `m` bytes.
pub open spec fn cut(l: Seq<char>, m: nat) -> Seq<char> {
    if byte_len(l) > m {
        match skip_bytes(l, m) {
            Some(rest) => rest,
            None => Seq::empty(),
        }
    } else {
        Seq::empty()
    }
}

/// Cutting `l` at byte `m` does not split a character.
pub open spec fn cuts_at_boundary(l: Seq<char>, m: nat) -> bool {
    byte_len(l) > m ==> skip_bytes(l, m) is Some
}

fn width(c: char) -> (r: usize)
    ensures
        r == char_width(c),
{
    let v = c as u32;
    if v < 0x80 {
        1
    } else if v < 0x800 {
        2
    } else if v < 0x10000 {
        3
    } else {
        4
    }
}

proof fn lemma_byte_len_split(l: Seq<char>, i: int)
    requires
        0 <= i <= l.len(),
    ensures
        byte_len(l) == byte_len(l.take(i)) + byte_len(l.skip(i)),
    decreases i,
{
    if i > 0 {
        lemma_byte_len_split(l.drop_first(), i - 1);
        assert(l.take(i).drop_first() =~= l.drop_first().take(i - 1));
        assert(l.skip(i) =~= l.drop_first().skip(i - 1));
    } else {
        assert(l.skip(0) =~= l);
    }
}

proof fn lemma_byte_len_push(l: Seq<char>, c: char)
    ensures
        byte_len(l.push(c)) == byte_len(l) + char_width(c),
    decreases l.len(),
{
    if l.len() > 0 {
        lemma_byte_len_push(l.drop_first(), c);
        assert(l.push(c).drop_first() =~= l.drop_first().push(c));
        assert(l.push(c)[0] == l[0]);
    } else {
        assert(l.push(c).drop_first() =~= Seq::<char>::empty());
        assert(l.push(c)[0] == c);
        assert(byte_len(Seq::<char>::empty()) == 0);
    }
}

proof fn lemma_skip_bytes_prefix(l: Seq<char>, i: int, m: nat)
    requires
        0 <= i <= l.len(),
        byte_len(l.take(i)) <= m,
    ensures
        skip_bytes(l, m) == skip_bytes(l.skip(i), (m - byte_len(l.take(i))) as nat),
    decreases i,
{
    if i == 0 {
        assert(l.skip(0) =~= l);
    } else {
        assert(l.take(i).drop_first() =~= l.drop_first().take(i - 1));
        assert(l.skip(i) =~= l.drop_first().skip(i - 1));
        assert(l.take(i)[0] == l[0]);
        lemma_skip_bytes_prefix(l.drop_first(), i - 1, (m - char_width(l[0])) as nat);
    }
}

proof fn lemma_skip_bytes_inside(l: Seq<char>, m: nat)
    requires
        l.len() > 0,
        0 < m < char_width(l[0]),
    ensures
        skip_bytes(l, m) is None,
{
}

/// The line `l[from..to]` with its first `m` bytes cut off.
fn cut_line(l: &Vec<char>, from: usize, to: usize, m: usize) -> (r: Vec<char>)
    requires
        from <= to <= l@.len(),
        cuts_at_boundary(l@.subrange(from as int, to as int), m as nat),
    ensures
        r@ == cut(l@.subrange(from as int, to as int), m as nat),
{
    let ghost t = l@.subrange(from as int, to as int);
    let mut i: usize = from;
    let mut acc: usize = 0;
    while i < to && acc < m
        invariant
            from <= i <= to,
            to <= l@.len(),
            t == l@.subrange(from as int, to as int),
            acc <= m,
            acc == byte_len(t.take(i - from)),
            cuts_at_boundary(t, m as nat),
        decreases to - i,
    {
        let w = width(l[i]);
        proof {
            assert(t.take(i - from + 1) =~= t.take(i - from).push(t[i - from]));
            lemma_byte_len_push(t.take(i - from), t[i - from]);
        }
        if w > m - acc {
            proof {
                lemma_skip_bytes_prefix(t, i - from, m as nat);
                assert(t.skip(i - from)[0] == t[i - from]);
                lemma_skip_bytes_inside(t.skip(i - from), (m - acc) as nat);
                lemma_byte_len_split(t, i - from + 1);
            }
            return Vec::new();
        }
        acc = acc + w;
        i = i + 1;
    }
    proof {
        lemma_byte_len_split(t, i - from);
    }
    if acc < m {
        // The line ends within its first `m` bytes.
        assert(t.take(i - from) =~= t);
        return Vec::new();
    }
    proof {
        lemma_skip_bytes_prefix(t, i - from, m as nat);
    }
    let mut out: Vec<char> = Vec::new();
    let mut j: usize = i;
    while j < to
        invariant
            i <= j <= to,
            to <= l@.len(),
            out@ == l@.subrange(i as int, j as int),
        decreases to - j,
    {
        out.push(l[j]);
        assert(l@.subrange(i as int, j + 1) =~= l@.subrange(i as int, j as int).push(l@[j as int]));
        j = j + 1;
    }
    assert(out@ =~= t.skip(i - from));
    proof {
        if i - from == t.len() {
            assert(t.skip(i - from).len() == 0);
        }
    }
    out
}

// ---------------------------------------------------------------------------
// Removing indentation
// ---------------------------------------------------------------------------

/// Lines joined with `'\n'` between them.
pub open spec fn join_lines(ps: Seq<Seq<char>>) -> Seq<char>
    decreases ps.len(),
{
    if ps.len() == 0 {
        Seq::empty()
    } else if ps.len() == 1 {
        ps[0]
    } else {
        join_lines(ps.drop_last()) + seq!['\n'] + ps.last()
    }
}

/// `s` without `'\n'` at either end.
pub open spec fn trim_newlines(s: Seq<char>) -> Seq<char> {
    trim_end_by(trim_start_by(s, |c: char| c == '\n'), |c: char| c == '\n')
}

/// The least indentation of the lines of `text`, or 0 where every line is
/// all whitespace.
pub open spec fn text_indent(text: Seq<char>) -> nat {
    match min_indent(lines(text)) {
        Some(k) => k,
        None => 0,
    }
}

/// `text` with its common indentation removed: each line loses as many
/// leading bytes as the least indented line has spaces and tabs (a line no
/// longer than that becomes empty), the lines are joined with `'\n'`, and
/// newlines at either end are dropped.
pub open spec fn removed_indent(text: Seq<char>) -> Seq<char> {
    let m = text_indent(text);
    trim_newlines(join_lines(lines(text).map_values(|l: Seq<char>| cut(l, m))))
}

/// Removing the indentation does not cut a line inside a character.
pub open spec fn can_remove_indent(text: Seq<char>) -> bool {
    forall|i: int|
        0 <= i < lines(text).len() ==> cuts_at_boundary(#[trigger] lines(text)[i], text_indent(text))
}

/// The characters `s[from..to]`, in a string.
fn string_of_range(s: &Vec<char>, from: usize, to: usize) -> (r: String)
    requires
        from <= to <= s@.len(),
    ensures
        r@ == s@.subrange(from as int, to as int),
{
    let mut out = owned("");
    proof {
        reveal_strlit("");
    }
    let mut i: usize = from;
    while i < to
        invariant
            from <= i <= to,
            to <= s@.len(),
            out@ == s@.subrange(from as int, i as int),
        decreases to - i,
    {
        push_char(&mut out, s[i]);
        assert(s@.subrange(from as int, i + 1) =~= s@.subrange(from as int, i as int).push(
            s@[i as int],
        ));
        i = i + 1;
    }
    out
}

/// The least indentation of the lines, or 0 where every line is all
/// whitespace.
fn least_indent(ls: &Vec<Vec<char>>) -> (r: usize)
    ensures
        r == match min_indent(views(ls@)) {
            Some(k) => k,
            None => 0,
        },
{
    let ghost lv = views(ls@);
    let mut m: Option<usize> = None;
    let mut i: usize = 0;
    while i < ls.len()
        invariant
            i <= ls@.len(),
            views(ls@) == lv,
            match m {
                None => min_indent(lv.take(i as int)) is None,
                Some(k) => min_indent(lv.take(i as int)) == Some(k as nat),
            },
        decreases ls@.len() - i,
    {
        let line = &ls[i];
        assert(line@.subrange(0, line@.len() as int) =~= line@);
        let k = indent_in(line, 0, line.len());
        assert(lv.take(i + 1).drop_last() =~= lv.take(i as int));
        assert(lv.take(i + 1).last() == line@);
        m = match k {
            None => m,
            Some(k) => match m {
                None => Some(k),
                Some(j) => Some(if k < j { k } else { j }),
            },
        };
        i = i + 1;
    }
    assert(lv.take(ls@.len() as int) =~= lv);
    match m {
        Some(k) => k,
        None => 0,
    }
}

/// Whether cutting the line `l` at byte `m` does not split a character.
fn line_cuts_at_boundary(l: &Vec<char>, m: usize) -> (r: bool)
    ensures
        r == cuts_at_boundary(l@, m as nat),
{
    let ghost t = l@;
    let mut i: usize = 0;
    let mut acc: usize = 0;
    while i < l.len() && acc < m
        invariant
            i <= l@.len(),
            t == l@,
            acc <= m,
            acc == byte_len(t.take(i as int)),
        decreases l@.len() - i,
    {
        let w = width(l[i]);
        proof {
            assert(t.take(i + 1) =~= t.take(i as int).push(t[i as int]));
            lemma_byte_len_push(t.take(i as int), t[i as int]);
        }
        if w > m - acc {
            proof {
                lemma_skip_bytes_prefix(t, i as int, m as nat);
                assert(t.skip(i as int)[0] == t[i as int]);
                lemma_skip_bytes_inside(t.skip(i as int), (m - acc) as nat);
                lemma_byte_len_split(t, i + 1);
            }
            return false;
        }
        acc = acc + w;
        i = i + 1;
    }
    proof {
        lemma_byte_len_split(t, i as int);
        if acc >= m {
            lemma_skip_bytes_prefix(t, i as int, m as nat);
        } else {
            assert(t.take(i as int) =~= t);
        }
    }
    true
}

/// Whether the indentation of the text `cs` can be removed without
/// cutting a line inside a character.
fn indent_removable_chars(cs: &Vec<char>) -> (r: bool)
    ensures
        r == can_remove_indent(cs@),
{
    let ls = lines_of(cs);
    let ghost lv = lines(cs@);
    let m = least_indent(&ls);
    let mut i: usize = 0;
    while i < ls.len()
        invariant
            i <= ls@.len(),
            views(ls@) == lv,
            lv == lines(cs@),
            m == text_indent(cs@),
            forall|j: int| 0 <= j < i ==> cuts_at_boundary(#[trigger] lv[j], m as nat),
        decreases ls@.len() - i,
    {
        assert(ls@[i as int]@ == lv[i as int]);
        if !line_cuts_at_boundary(&ls[i], m) {
            return false;
        }
        i = i + 1;
    }
    true
}

/// Whether the indentation of `text` can be removed without cutting a line
/// inside a character; where it cannot, `remove_indent` is not defined.
pub fn indent_removable(text: &str) -> (r: bool)
    ensures
        r == can_remove_indent(text@),
{
    let cs = chars_of(text);
    indent_removable_chars(&cs)
}

fn remove_indent_chars(cs: &Vec<char>) -> (r: String)
    requires
        can_remove_indent(cs@),
    ensures
        r@ == removed_indent(cs@),
{
    let ls = lines_of(cs);
    let ghost lv = lines(cs@);
    let m = least_indent(&ls);
    let ghost pieces = lv.map_values(|l: Seq<char>| cut(l, m as nat));
    // Cut and join the lines.
    let mut out: Vec<char> = Vec::new();
    let mut i: usize = 0;
    while i < ls.len()
        invariant
            i <= ls@.len(),
            views(ls@) == lv,
            m == text_indent(cs@),
            lv == lines(cs@),
            can_remove_indent(cs@),
            pieces == lv.map_values(|l: Seq<char>| cut(l, m as nat)),
            out@ == join_lines(pieces.take(i as int)),
        decreases ls@.len() - i,
    {
        let line = &ls[i];
        assert(line@ == lv[i as int]);
        assert(line@.subrange(0, line@.len() as int) =~= line@);
        assert(cuts_at_boundary(lines(cs@)[i as int], text_indent(cs@)));
        let piece = cut_line(line, 0, line.len(), m);
        let ghost before = out@;
        if i > 0 {
            out.push('\n');
        }
        let mut j: usize = 0;
        while j < piece.len()
            invariant
                j <= piece@.len(),
                out@ == (if i > 0 { before + seq!['\n'] } else { before }) + piece@.take(j as int),
            decreases piece@.len() - j,
        {
            out.push(piece[j]);
            assert(piece@.take(j + 1) =~= piece@.take(j as int).push(piece@[j as int]));
            j = j + 1;
        }
        assert(piece@.take(piece@.len() as int) =~= piece@);
        assert(pieces.take(i + 1).drop_last() =~= pieces.take(i as int));
        assert(pieces.take(i + 1).last() == piece@);
        proof {
            if i == 0 {
                assert(pieces.take(1) =~= seq![piece@]);
                assert(before =~= Seq::<char>::empty());
                assert(out@ =~= piece@);
            } else {
                assert(out@ =~= before + seq!['\n'] + piece@);
            }
        }
        i = i + 1;
    }
    assert(pieces.take(ls@.len() as int) =~= pieces);
    // Drop newlines at either end.
    let lo = count_leading_char(&out, 0, out.len(), '\n');
    proof {
        assert(out@.subrange(0, out@.len() as int) =~= out@);
        lemma_leading_le(out@, |c: char| c == '\n');
    }
    let hi_cut = count_trailing_char(&out, lo, out.len(), '\n');
    proof {
        let t = out@.subrange(lo as int, out@.len() as int);
        assert(t =~= out@.skip(lo as int));
        lemma_trailing_le(t, |c: char| c == '\n');
        assert(out@.subrange(lo as int, out@.len() - hi_cut) =~= t.take(t.len() - hi_cut));
    }
    string_of_range(&out, lo, out.len() - hi_cut)
}

/// Remove the common indentation from the lines of `text`, and newlines
/// from both ends.
pub fn remove_indent(text: &str) -> (r: String)
    requires
        can_remove_indent(text@),
    ensures
        r@ == removed_indent(text@),
{
    let cs = chars_of(text);
    remove_indent_chars(&cs)
}

/// The inside of a function body's block: the body without the
/// surrounding whitespace, and without the braces at its start and at its
/// end.
pub open spec fn body_text(body: Seq<char>) -> Seq<char> {
    trim_end_by(trim_start_by(trim(body), |c: char| c == '{'), |c: char| c == '}')
}

/// The characters of `body_text(body)`.
fn body_chars(body: &str) -> (r: Vec<char>)
    ensures
        r@ == body_text(body@),
{
    let cs = chars_of(body);
    let n = cs.len();
    assert(cs@.subrange(0, n as int) =~= cs@);
    let a = count_leading_whitespace(&cs, 0, n);
    proof {
        lemma_leading_le(cs@, |c: char| is_whitespace(c));
    }
    let b = count_trailing_whitespace(&cs, a, n);
    proof {
        let t = cs@.subrange(a as int, n as int);
        assert(t =~= cs@.skip(a as int));
        lemma_trailing_le(t, |c: char| is_whitespace(c));
    }
    let end = n - b;
    assert(cs@.subrange(a as int, end as int) =~= trim(cs@));
    let c = count_leading_char(&cs, a, end, '{');
    proof {
        lemma_leading_le(cs@.subrange(a as int, end as int), |x: char| x == '{');
    }
    let start = a + c;
    let d = count_trailing_char(&cs, start, end, '}');
    proof {
        let t = cs@.subrange(start as int, end as int);
        assert(t =~= trim_start_by(trim(cs@), |x: char| x == '{'));
        lemma_trailing_le(t, |x: char| x == '}');
    }
    let stop = end - d;
    let mut inner: Vec<char> = Vec::new();
    let mut i: usize = start;
    while i < stop
        invariant
            start <= i <= stop,
            stop <= cs@.len(),
            inner@ == cs@.subrange(start as int, i as int),
        decreases stop - i,
    {
        inner.push(cs[i]);
        assert(cs@.subrange(start as int, i + 1) =~= cs@.subrange(start as int, i as int).push(
            cs@[i as int],
        ));
        i = i + 1;
    }
    assert(inner@ =~= body_text(cs@));
    inner
}

/// The text that a function body contributes to an example.
pub fn function_body_text(body: &str) -> (r: String)
    requires
        can_remove_indent(body_text(body@)),
    ensures
        r@ == removed_indent(body_text(body@)) + "\n"@,
{
    let inner = body_chars(body);
    let text = remove_indent_chars(&inner);
    concat(text, "\n")
}

/// Whether the indentation of a function body can be removed without
/// cutting a line inside a character.
pub fn body_indent_removable(body: &str) -> (r: bool)
    ensures
        r == can_remove_indent(body_text(body@)),
{
    let inner = body_chars(body);
    indent_removable_chars(&inner)
}

// ---------------------------------------------------------------------------
// Items of an example
// ---------------------------------------------------------------------------

/// The lines of `s`, one after another without separators.
pub open spec fn concat_lines(ls: Seq<Seq<char>>) -> Seq<char>
    decreases ls.len(),
{
    if ls.len() == 0 {
        Seq::empty()
    } else {
        concat_lines(ls.drop_last()) + ls.last()
    }
}

/// An item hidden in a doc test: its text on one line behind `"# "`, then
/// a line that is `"#"` alone, so that rustdoc keeps the attributes that
/// follow hidden items.
pub fn hide_in_doc(item: &str) -> (r: String)
    ensures
        r@ == "# "@ + concat_lines(lines(item@)) + "\n#"@,
{
    let cs = chars_of(item);
    let ls = lines_of(&cs);
    let mut out = owned("# ");
    let mut i: usize = 0;
    while i < ls.len()
        invariant
            i <= ls@.len(),
            views(ls@) == lines(item@),
            out@ == "# "@ + concat_lines(views(ls@).take(i as int)),
        decreases ls@.len() - i,
    {
        let line = string_of(&ls[i]);
        let ghost lv = views(ls@);
        assert(lv.take(i + 1).drop_last() =~= lv.take(i as int));
        assert(lv.take(i + 1).last() == ls@[i as int]@);
        out = concat(out, line.as_str());
        i = i + 1;
    }
    assert(views(ls@).take(ls@.len() as int) =~= views(ls@));
    concat(out, "\n#")
}

/// An item that is always part of an example: its text and a newline.
pub fn include_always(item: &str) -> (r: Option<String>)
    ensures
        r matches Some(s) && s@ == item@ + "\n"@,
{
    Some(concat(owned(item), "\n"))
}

/// The names that a list of strings holds.
pub open spec fn names(v: Seq<String>) -> Set<Seq<char>> {
    Set::new(|n: Seq<char>| exists|i: int| 0 <= i < v.len() && #[trigger] v[i]@ == n)
}

/// Whether `name` is among the names of `v`.
pub fn has_name(v: &Vec<String>, name: &str) -> (r: bool)
    ensures
        r == names(v@).contains(name@),
{
    let mut i: usize = 0;
    while i < v.len()
        invariant
            i <= v@.len(),
            forall|j: int| 0 <= j < i ==> #[trigger] v@[j]@ != name@,
        decreases v@.len() - i,
    {
        if str_eq(v[i].as_str(), name) {
            assert(v@[i as int]@ == name@);
            return true;
        }
        i = i + 1;
    }
    false
}

/// Whether an item named `name` belongs in an example: every item does
/// where no dependencies are given, otherwise only the dependencies. A
/// dependency that is found is recorded in `dependency_tracker`.
pub fn is_dependency(
    name: &str,
    dependencies: Option<&Vec<String>>,
    dependency_tracker: &mut Vec<String>,
) -> (r: bool)
    ensures
        r == match dependencies {
            None => true,
            Some(deps) => names(deps@).contains(name@),
        },
        names(final(dependency_tracker)@) == if r && dependencies is Some {
            names(old(dependency_tracker)@).insert(name@)
        } else {
            names(old(dependency_tracker)@)
        },
{
    match dependencies {
        None => true,
        Some(deps) => {
            let is_dep = has_name(deps, name);
            if is_dep && !has_name(dependency_tracker, name) {
                let ghost before = dependency_tracker@;
                dependency_tracker.push(owned(name));
                proof {
                    let after = dependency_tracker@;
                    assert forall|n: Seq<char>| #[trigger] names(after).contains(n)
                        == names(before).insert(name@).contains(n) by {
                        if names(before).contains(n) {
                            let j = choose|j: int| 0 <= j < before.len() && #[trigger] before[j]@ == n;
                            assert(after[j]@ == n);
                        }
                        if n == name@ {
                            assert(after[before.len() as int]@ == n);
                        }
                        if names(after).contains(n) {
                            let j = choose|j: int| 0 <= j < after.len() && #[trigger] after[j]@ == n;
                            if j < before.len() {
                                assert(before[j]@ == n);
                            }
                        }
                    }
                    assert(names(after) =~= names(before).insert(name@));
                }
            } else if is_dep {
                assert(names(dependency_tracker@).insert(name@) =~= names(dependency_tracker@));
            }
            is_dep
        },
    }
}

/// Whether `name` counts as a dependency under `dependencies`.
pub open spec fn dependency_match(name: Seq<char>, dependencies: Option<&Vec<String>>) -> bool {
    match dependencies {
        None => true,
        Some(deps) => names(deps@).contains(name),
    }
}

/// The first of the tokens that counts as a dependency.
pub open spec fn first_match(ts: Seq<String>, dependencies: Option<&Vec<String>>) -> Option<
    Seq<char>,
>
    decreases ts.len(),
{
    if ts.len() == 0 {
        None
    } else if dependency_match(ts[0]@, dependencies) {
        Some(ts[0]@)
    } else {
        first_match(ts.drop_first(), dependencies)
    }
}

proof fn lemma_first_match_skip(ts: Seq<String>, dependencies: Option<&Vec<String>>, i: int)
    requires
        0 <= i <= ts.len(),
        forall|j: int| 0 <= j < i ==> !dependency_match(#[trigger] ts[j]@, dependencies),
    ensures
        first_match(ts, dependencies) == first_match(ts.skip(i), dependencies),
    decreases i,
{
    if i == 0 {
        assert(ts.skip(0) =~= ts);
    } else {
        assert(!dependency_match(ts[0]@, dependencies));
        assert(ts.drop_first().skip(i - 1) =~= ts.skip(i));
        assert forall|j: int| 0 <= j < i - 1 implies !dependency_match(
            #[trigger] ts.drop_first()[j]@,
            dependencies,
        ) by {
            assert(ts.drop_first()[j] == ts[j + 1]);
        }
        lemma_first_match_skip(ts.drop_first(), dependencies, i - 1);
    }
}

/// Whether a type, given by the texts of its tokens, mentions a dependency:
/// the tokens are tried in order, and the first that is a dependency is
/// recorded. Without a type, it mentions none.
pub fn is_type_dependency(
    tokens: Option<&Vec<String>>,
    dependencies: Option<&Vec<String>>,
    dependency_tracker: &mut Vec<String>,
) -> (r: bool)
    ensures
        r == match tokens {
            None => false,
            Some(ts) => first_match(ts@, dependencies) is Some,
        },
        names(final(dependency_tracker)@) == match (tokens, dependencies) {
            (Some(ts), Some(_)) => match first_match(ts@, dependencies) {
                Some(n) => names(old(dependency_tracker)@).insert(n),
                None => names(old(dependency_tracker)@),
            },
            _ => names(old(dependency_tracker)@),
        },
{
    let ts = match tokens {
        None => return false,
        Some(ts) => ts,
    };
    let mut i: usize = 0;
    while i < ts.len()
        invariant
            tokens == Some(ts),
            i <= ts@.len(),
            forall|j: int| 0 <= j < i ==> !dependency_match(#[trigger] ts@[j]@, dependencies),
            names(dependency_tracker@) == names(old(dependency_tracker)@),
        decreases ts@.len() - i,
    {
        let name = ts[i].as_str();
        if is_dependency(name, dependencies, dependency_tracker) {
            proof {
                lemma_first_match_skip(ts@, dependencies, i as int);
                assert(ts@.skip(i as int)[0] == ts@[i as int]);
            }
            return true;
        }
        i = i + 1;
    }
    proof {
        lemma_first_match_skip(ts@, dependencies, i as int);
    }
    false
}

/// The dependencies that were asked for but not found, in the order they
/// were asked for; an example is refused while any are missing.
pub fn missing_dependencies(dependencies: &Vec<String>, found: &Vec<String>) -> (r: Vec<String>)
    ensures
        names(r@) == names(dependencies@).difference(names(found@)),
{
    let mut missing: Vec<String> = Vec::new();
    let mut i: usize = 0;
    while i < dependencies.len()
        invariant
            i <= dependencies@.len(),
            names(missing@) == names(dependencies@.take(i as int)).difference(names(found@)),
        decreases dependencies@.len() - i,
    {
        let name = dependencies[i].as_str();
        let ghost before = missing@;
        let ghost taken = dependencies@.take(i as int);
        assert(dependencies@.take(i + 1) =~= taken.push(dependencies@[i as int]));
        if !has_name(found, name) {
            missing.push(owned(name));
        }
        proof {
            let now = dependencies@.take(i + 1);
            assert forall|n: Seq<char>| #[trigger] names(now).contains(n) == (names(taken).contains(n)
                || n == name@) by {
                if names(now).contains(n) {
                    let j = choose|j: int| 0 <= j < now.len() && #[trigger] now[j]@ == n;
                    if j < taken.len() {
                        assert(taken[j]@ == n);
                    }
                }
                if names(taken).contains(n) {
                    let j = choose|j: int| 0 <= j < taken.len() && #[trigger] taken[j]@ == n;
                    assert(now[j]@ == n);
                }
                if n == name@ {
                    assert(now[i as int]@ == n);
                }
            }
            assert forall|n: Seq<char>| #[trigger] names(missing@).contains(n) == (names(before).contains(n)
                || (n == name@ && !names(found@).contains(n))) by {
                if names(missing@).contains(n) {
                    let j = choose|j: int| 0 <= j < missing@.len() && #[trigger] missing@[j]@ == n;
                    if j < before.len() {
                        assert(before[j]@ == n);
                    }
                }
                if names(before).contains(n) {
                    let j = choose|j: int| 0 <= j < before.len() && #[trigger] before[j]@ == n;
                    assert(missing@[j]@ == n);
                }
                if n == name@ && !names(found@).contains(n) {
                    assert(missing@[before.len() as int]@ == n);
                }
            }
            assert(names(missing@) =~= names(now).difference(names(found@)));
        }
        i = i + 1;
    }
    assert(dependencies@.take(dependencies@.len() as int) =~= dependencies@);
    missing
}

/// An item that is part of an example only as a dependency: its text and
/// a newline where its name is a dependency, nothing for an item without a
/// name. A dependency that is found is recorded in `dependency_tracker`.
pub fn include_if_dependency(
    name: Option<&str>,
    item: &str,
    dependencies: Option<&Vec<String>>,
    dependency_tracker: &mut Vec<String>,
) -> (r: Option<String>)
    ensures
        match name {
            None => r is None && *final(dependency_tracker) == *old(dependency_tracker),
            Some(n) => {
                &&& dependency_match(n@, dependencies) ==> (r matches Some(s) && s@ == item@ + "\n"@)
                &&& !dependency_match(n@, dependencies) ==> r is None
                &&& names(final(dependency_tracker)@) == if dependency_match(n@, dependencies)
                    && dependencies is Some {
                    names(old(dependency_tracker)@).insert(n@)
                } else {
                    names(old(dependency_tracker)@)
                }
            },
        },
{
    match name {
        None => None,
        Some(n) => {
            if is_dependency(n, dependencies, dependency_tracker) {
                Some(concat(owned(item), "\n"))
            } else {
                None
            }
        },
    }
}

// ---------------------------------------------------------------------------
// Examples made from the items of a source file
// ---------------------------------------------------------------------------

/// An item of a source file, as much of it as an example needs: its text,
/// and the names and bodies that decide whether it is shown.
pub enum Item {
    /// A `use` item: hidden in the example.
    Use { text: String },
    /// A function, with its body where it has one.
    Fn { name: Option<String>, text: String, body: Option<String> },
    /// An impl block, with the token texts of its self type and of its
    /// trait.
    Impl { text: String, self_ty: Option<Vec<String>>, trait_ty: Option<Vec<String>> },
    /// Any other item, of the kind given, with its name where it has one.
    Other { kind: ItemKind, name: Option<String>, text: String },
}

/// The kinds of item other than `use` items, functions and impls.
#[derive(Debug, Clone, Copy, PartialEq, Eq, Structural)]
pub enum ItemKind {
    Const,
    Enum,
    ExternBlock,
    ExternCrate,
    MacroCall,
    MacroRules,
    MacroDef,
    Module,
    Static,
    Struct,
    Trait,
    TypeAlias,
    Union,
}

/// The kinds of item that every example shows: extern blocks, extern
/// crates and macro calls. An item of another kind is shown where its name
/// is a dependency.
pub open spec fn shown_always(kind: ItemKind) -> bool {
    ||| kind == ItemKind::ExternBlock
    ||| kind == ItemKind::ExternCrate
    ||| kind == ItemKind::MacroCall
}

/// Whether every example shows an item of this kind.
pub fn is_shown_always(kind: ItemKind) -> (r: bool)
    ensures
        r == shown_always(kind),
{
    match kind {
        ItemKind::ExternBlock => true,
        ItemKind::ExternCrate => true,
        ItemKind::MacroCall => true,
        _ => false,
    }
}

/// Only extern blocks, extern crates and macro calls are shown whatever the
/// dependencies: an item of any other kind whose name is not a dependency
/// contributes nothing to the example and records no dependency.
pub proof fn lemma_named_kinds_need_dependency(
    kind: ItemKind,
    name: String,
    text: String,
    body_fn: Seq<char>,
    dependencies: &Vec<String>,
)
    ensures
        kind == ItemKind::ExternBlock || kind == ItemKind::ExternCrate || kind == ItemKind::MacroCall
            ==> item_part(Item::Other { kind, name: Some(name), text }, body_fn, Some(dependencies))
            == Some(text@ + "\n"@),
        !(kind == ItemKind::ExternBlock || kind == ItemKind::ExternCrate || kind
            == ItemKind::MacroCall) && !names(dependencies@).contains(name@) ==> {
            &&& item_part(Item::Other { kind, name: Some(name), text }, body_fn, Some(dependencies))
                is None
            &&& item_use(Item::Other { kind, name: Some(name), text }, body_fn, Some(dependencies))
                is None
        },
{
}

/// Why no example can be made.
#[derive(Debug, Clone, PartialEq, Eq)]
pub enum DocError {
    /// The function whose body is the example is among the dependencies.
    BodyInDependencies,
    /// Some dependencies are not items of the file.
    MissingDependencies(Vec<String>),
    /// The function whose body is the example is not in the file.
    NotFound(String),
}

/// What an item contributes to the example whose body is the function
/// `body_fn`.
pub open spec fn item_part(item: Item, body_fn: Seq<char>, dependencies: Option<&Vec<String>>) -> Option<
    Seq<char>,
> {
    match item {
        Item::Use { text } => Some("# "@ + concat_lines(lines(text@)) + "\n#"@),
        Item::Fn { name: Some(n), text, body } => if n@ == body_fn {
            match body {
                Some(b) => Some(removed_indent(body_text(b@)) + "\n"@),
                None => None,
            }
        } else if dependency_match(n@, dependencies) {
            Some(text@ + "\n"@)
        } else {
            None
        },
        Item::Other { kind, name, text } => if shown_always(kind) {
            Some(text@ + "\n"@)
        } else {
            match name {
                Some(n) => if dependency_match(n@, dependencies) {
                    Some(text@ + "\n"@)
                } else {
                    None
                },
                None => None,
            }
        },
        Item::Impl { text, self_ty, trait_ty } => if tokens_match(self_ty, dependencies)
            || tokens_match(trait_ty, dependencies) {
            Some(text@ + "\n"@)
        } else {
            None
        },
        _ => None,
    }
}

/// Whether one of the tokens is a dependency.
pub open spec fn tokens_match(tokens: Option<Vec<String>>, dependencies: Option<&Vec<String>>) -> bool {
    match tokens {
        None => false,
        Some(ts) => first_match(ts@, dependencies) is Some,
    }
}

/// The parts that the items contribute, in order.
pub open spec fn doc_parts(items: Seq<Item>, body_fn: Seq<char>, dependencies: Option<&Vec<String>>) -> Seq<
    Seq<char>,
>
    decreases items.len(),
{
    if items.len() == 0 {
        Seq::empty()
    } else {
        let init = doc_parts(items.drop_last(), body_fn, dependencies);
        match item_part(items.last(), body_fn, dependencies) {
            Some(p) => init.push(p),
            None => init,
        }
    }
}

/// The body of the function `body_fn`, where `item` is that function.
pub open spec fn body_of(item: Item, body_fn: Seq<char>) -> Option<Option<String>> {
    match item {
        Item::Fn { name: Some(n), body, .. } => if n@ == body_fn {
            Some(body)
        } else {
            None
        },
        _ => None,
    }
}

/// Whether the function `body_fn` is among the items.
pub open spec fn has_body_fn(items: Seq<Item>, body_fn: Seq<char>) -> bool {
    exists|i: int| 0 <= i < items.len() && #[trigger] body_of(items[i], body_fn) is Some
}

/// Removing the indentation of the function `body_fn` does not cut a line
/// inside a character.
pub open spec fn bodies_cut_at_boundaries(items: Seq<Item>, body_fn: Seq<char>) -> bool {
    forall|i: int|
        0 <= i < items.len() ==> match #[trigger] body_of(items[i], body_fn) {
            Some(Some(b)) => can_remove_indent(body_text(b@)),
            _ => true,
        }
}

/// Whether the indentation of every body of the function `body_fn` among
/// the items can be removed; where it cannot, no example is defined.
pub fn bodies_removable(items: &Vec<Item>, body_fn: &str) -> (r: bool)
    ensures
        r == bodies_cut_at_boundaries(items@, body_fn@),
{
    let mut i: usize = 0;
    while i < items.len()
        invariant
            i <= items@.len(),
            forall|j: int|
                0 <= j < i ==> match #[trigger] body_of(items@[j], body_fn@) {
                    Some(Some(b)) => can_remove_indent(body_text(b@)),
                    _ => true,
                },
        decreases items@.len() - i,
    {
        match &items[i] {
            Item::Fn { name: Some(n), body: Some(b), .. } => {
                if str_eq(n.as_str(), body_fn) && !body_indent_removable(b.as_str()) {
                    assert(body_of(items@[i as int], body_fn@) == Some(Some(*b)));
                    return false;
                }
            },
            _ => {},
        }
        i = i + 1;
    }
    true
}

/// The dependency that an item records, if any.
pub open spec fn item_use(item: Item, body_fn: Seq<char>, dependencies: Option<&Vec<String>>) -> Option<
    Seq<char>,
> {
    match dependencies {
        None => None,
        Some(_) => match item {
            Item::Fn { name: Some(n), .. } => if n@ != body_fn && dependency_match(n@, dependencies) {
                Some(n@)
            } else {
                None
            },
            Item::Other { kind, name: Some(n), .. } => if !shown_always(kind) && dependency_match(
                n@,
                dependencies,
            ) {
                Some(n@)
            } else {
                None
            },
            Item::Impl { self_ty, trait_ty, .. } => match self_ty {
                Some(ts) if first_match(ts@, dependencies) is Some => first_match(ts@, dependencies),
                _ => match trait_ty {
                    Some(ts) => first_match(ts@, dependencies),
                    None => None,
                },
            },
            _ => None,
        },
    }
}

/// The dependencies that the items record: functions other than `body_fn`
/// and named items whose names are dependencies, and the first token of an
/// impl's self type, or failing that of its trait, that is a dependency.
pub open spec fn used_dependencies(
    items: Seq<Item>,
    body_fn: Seq<char>,
    dependencies: Option<&Vec<String>>,
) -> Set<Seq<char>>
    decreases items.len(),
{
    if items.len() == 0 {
        Set::empty()
    } else {
        let init = used_dependencies(items.drop_last(), body_fn, dependencies);
        match item_use(items.last(), body_fn, dependencies) {
            Some(n) => init.insert(n),
            None => init,
        }
    }
}

/// The dependencies that no item records. An example is refused while a
/// missing name is not empty.
pub open spec fn missing_names(
    items: Seq<Item>,
    body_fn: Seq<char>,
    dependencies: Option<&Vec<String>>,
) -> Set<Seq<char>> {
    match dependencies {
        None => Set::empty(),
        Some(deps) => names(deps@).difference(used_dependencies(items, body_fn, dependencies)),
    }
}

/// Make the example whose body is the function `body_fn` out of the items
/// of a source file: `use` items hidden, the dependencies (every item where
/// none are given) and the function's body, joined with newlines. It is
/// refused where a dependency is not among the items, or else where the
/// function is not.
pub fn doc_function_body(items: &Vec<Item>, body_fn: &str, dependencies: Option<&Vec<String>>) -> (r:
    Result<String, DocError>)
    requires
        bodies_cut_at_boundaries(items@, body_fn@),
    ensures
        (exists|n: Seq<char>| #[trigger] missing_names(items@, body_fn@, dependencies).contains(n)
            && n.len() > 0) ==> (r matches Err(DocError::MissingDependencies(m)) && names(m@)
            == missing_names(items@, body_fn@, dependencies)),
        !(exists|n: Seq<char>| #[trigger] missing_names(items@, body_fn@, dependencies).contains(n)
            && n.len() > 0) ==> if has_body_fn(items@, body_fn@) {
            r matches Ok(s) && s@ == join_lines(doc_parts(items@, body_fn@, dependencies))
        } else {
            r matches Err(DocError::NotFound(f)) && f@ == body_fn@
        },
{
    let mut tracker: Vec<String> = Vec::new();
    let mut parts: Vec<char> = Vec::new();
    let mut any_part = false;
    let mut found = false;
    let mut i: usize = 0;
    while i < items.len()
        invariant
            i <= items@.len(),
            bodies_cut_at_boundaries(items@, body_fn@),
            names(tracker@) == used_dependencies(items@.take(i as int), body_fn@, dependencies),
            any_part == (doc_parts(items@.take(i as int), body_fn@, dependencies).len() > 0),
            parts@ == join_lines(doc_parts(items@.take(i as int), body_fn@, dependencies)),
            found == has_body_fn(items@.take(i as int), body_fn@),
        decreases items@.len() - i,
    {
        let ghost prefix = items@.take(i as int);
        let ghost next = items@.take(i + 1);
        assert(next.drop_last() =~= prefix);
        assert(next.last() == items@[i as int]);
        let ghost before_tracker = names(tracker@);
        let part: Option<String> = match &items[i] {
            Item::Use { text } => Some(hide_in_doc(text.as_str())),
            Item::Fn { name, text, body } => match name {
                Some(n) => {
                    if str_eq(n.as_str(), body_fn) {
                        found = true;
                        match body {
                            Some(b) => {
                                proof {
                                    assert(body_of(items@[i as int], body_fn@) == Some(Some(*b)));
                                }
                                Some(function_body_text(b.as_str()))
                            },
                            None => None,
                        }
                    } else if is_dependency(n.as_str(), dependencies, &mut tracker) {
                        Some(concat(owned(text.as_str()), "\n"))
                    } else {
                        None
                    }
                },
                None => None,
            },
            Item::Other { kind, name, text } => {
                if is_shown_always(*kind) {
                    include_always(text.as_str())
                } else {
                    include_if_dependency(
                        match name {
                            Some(n) => Some(n.as_str()),
                            None => None,
                        },
                        text.as_str(),
                        dependencies,
                        &mut tracker,
                    )
                }
            },
            Item::Impl { text, self_ty, trait_ty } => {
                if is_type_dependency(
                    match self_ty {
                        Some(t) => Some(t),
                        None => None,
                    },
                    dependencies,
                    &mut tracker,
                ) || is_type_dependency(
                    match trait_ty {
                        Some(t) => Some(t),
                        None => None,
                    },
                    dependencies,
                    &mut tracker,
                ) {
                    include_always(text.as_str())
                } else {
                    None
                }
            },
        };
        proof {
            assert(part matches Some(p) ==> item_part(items@[i as int], body_fn@, dependencies)
                == Some(p@));
            assert(part is None ==> item_part(items@[i as int], body_fn@, dependencies) is None);
            assert(names(tracker@) == match item_use(items@[i as int], body_fn@, dependencies) {
                Some(n) => before_tracker.insert(n),
                None => before_tracker,
            });
            if has_body_fn(next, body_fn@) {
                let j = choose|j: int| 0 <= j < next.len() && #[trigger] body_of(next[j], body_fn@) is Some;
                if j < i {
                    assert(prefix[j] == next[j]);
                }
            }
            if has_body_fn(prefix, body_fn@) {
                let j = choose|j: int| 0 <= j < prefix.len() && #[trigger] body_of(prefix[j], body_fn@) is Some;
                assert(next[j] == prefix[j]);
            }
            if body_of(items@[i as int], body_fn@) is Some {
                assert(body_of(next[i as int], body_fn@) is Some);
            }
        }
        match part {
            Some(p) => {
                let ghost old_parts = parts@;
                if any_part {
                    parts.push('\n');
                }
                let pc = chars_of(p.as_str());
                let mut j: usize = 0;
                while j < pc.len()
                    invariant
                        j <= pc@.len(),
                        parts@ == (if any_part { old_parts + seq!['\n'] } else { old_parts })
                            + pc@.take(j as int),
                    decreases pc@.len() - j,
                {
                    parts.push(pc[j]);
                    assert(pc@.take(j + 1) =~= pc@.take(j as int).push(pc@[j as int]));
                    j = j + 1;
                }
                proof {
                    assert(pc@.take(pc@.len() as int) =~= pc@);
                    let dp = doc_parts(prefix, body_fn@, dependencies);
                    assert(doc_parts(next, body_fn@, dependencies) == dp.push(p@));
                    if !any_part {
                        assert(dp =~= Seq::<Seq<char>>::empty());
                        assert(dp.push(p@) =~= seq![p@]);
                        assert(old_parts =~= Seq::<char>::empty());
                        assert(parts@ =~= p@);
                    } else {
                        assert(dp.push(p@).drop_last() =~= dp);
                        assert(parts@ =~= old_parts + seq!['\n'] + p@);
                    }
                }
                any_part = true;
            },
            None => {},
        }
        i = i + 1;
    }
    proof {
        assert(items@.take(items@.len() as int) =~= items@);
    }
    match dependencies {
        Some(deps) => {
            let missing = missing_dependencies(deps, &tracker);
            if has_nonempty(&missing) {
                proof {
                    assert(missing_names(items@, body_fn@, dependencies) == names(missing@));
                    let n = choose|n: Seq<char>| #[trigger] names(missing@).contains(n) && n.len() > 0;
                    assert(missing_names(items@, body_fn@, dependencies).contains(n));
                }
                return Err(DocError::MissingDependencies(missing));
            }
        },
        None => {},
    }
    if !found {
        return Err(DocError::NotFound(owned(body_fn)));
    }
    Ok(string_of(&parts))
}

/// Whether one of the strings is not empty.
fn has_nonempty(v: &Vec<String>) -> (r: bool)
    ensures
        r == exists|n: Seq<char>| #[trigger] names(v@).contains(n) && n.len() > 0,
{
    let mut i: usize = 0;
    while i < v.len()
        invariant
            i <= v@.len(),
            forall|j: int| 0 <= j < i ==> (#[trigger] v@[j])@.len() == 0,
        decreases v@.len() - i,
    {
        if v[i].unicode_len() > 0 {
            assert(names(v@).contains(v@[i as int]@));
            return true;
        }
        i = i + 1;
    }
    proof {
        assert forall|n: Seq<char>| #[trigger] names(v@).contains(n) implies n.len() == 0 by {
            let j = choose|j: int| 0 <= j < v@.len() && #[trigger] v@[j]@ == n;
        }
    }
    false
}

/// The example made of the body of the function `body_fn` and the
/// dependencies named: refused where the function is itself named as a
/// dependency.
pub fn function_body(items: &Vec<Item>, body_fn: &str, dependencies: &Vec<String>) -> (r: Result<
    String,
    DocError,
>)
    requires
        names(dependencies@).contains(body_fn@) || bodies_cut_at_boundaries(items@, body_fn@),
    ensures
        names(dependencies@).contains(body_fn@) ==> r == Err::<String, DocError>(
            DocError::BodyInDependencies,
        ),
        !names(dependencies@).contains(body_fn@) ==> {
            let deps = Some(dependencies);
            &&& (exists|n: Seq<char>| #[trigger] missing_names(items@, body_fn@, deps).contains(n)
                && n.len() > 0) ==> (r matches Err(DocError::MissingDependencies(m)) && names(m@)
                == missing_names(items@, body_fn@, deps))
            &&& !(exists|n: Seq<char>| #[trigger] missing_names(items@, body_fn@, deps).contains(n)
                && n.len() > 0) ==> if has_body_fn(items@, body_fn@) {
                r matches Ok(s) && s@ == join_lines(doc_parts(items@, body_fn@, deps))
            } else {
                r matches Err(DocError::NotFound(f)) && f@ == body_fn@
            }
        },
{
    if has_name(dependencies, body_fn) {
        return Err(DocError::BodyInDependencies);
    }
    doc_function_body(items, body_fn, Some(dependencies))
}

/// The example made of the whole `main` function of a file, with every
/// other item.
pub fn file(items: &Vec<Item>) -> (r: Result<String, DocError>)
    requires
        bodies_cut_at_boundaries(items@, "main"@),
    ensures
        if has_body_fn(items@, "main"@) {
            r matches Ok(s) && s@ == join_lines(doc_parts(items@, "main"@, None))
        } else {
            r matches Err(DocError::NotFound(f)) && f@ == "main"@
        },
{
    doc_function_body(items, "main", None)
}

} // verus!

verus! {

// ---------------------------------------------------------------------------
// Removing the indentation twice
// ---------------------------------------------------------------------------

/// `s` holds no `'\r'`.
pub open spec fn no_cr(s: Seq<char>) -> bool {
    forall|i: int| 0 <= i < s.len() ==> #[trigger] s[i] != '\r'
}

/// A line holds neither `'\n'` nor `'\r'`.
pub open spec fn plain_line(l: Seq<char>) -> bool {
    forall|i: int| 0 <= i < l.len() ==> #[trigger] l[i] != '\n' && l[i] != '\r'
}

/// Every line is plain.
pub open spec fn plain_lines(ls: Seq<Seq<char>>) -> bool {
    forall|i: int| 0 <= i < ls.len() ==> plain_line(#[trigger] ls[i])
}

/// The lines without the empty ones at the front.
pub open spec fn drop_empty_front(ls: Seq<Seq<char>>) -> Seq<Seq<char>>
    decreases ls.len(),
{
    if ls.len() > 0 && ls[0].len() == 0 {
        drop_empty_front(ls.drop_first())
    } else {
        ls
    }
}

/// The lines without the empty ones at the back.
pub open spec fn drop_empty_back(ls: Seq<Seq<char>>) -> Seq<Seq<char>>
    decreases ls.len(),
{
    if ls.len() > 0 && ls.last().len() == 0 {
        drop_empty_back(ls.drop_last())
    } else {
        ls
    }
}

proof fn lemma_join_push(ps: Seq<Seq<char>>, y: Seq<char>)
    ensures
        join_lines(ps.push(y)) == if ps.len() == 0 {
            y
        } else {
            join_lines(ps) + seq!['\n'] + y
        },
{
    assert(ps.push(y).drop_last() =~= ps);
    assert(ps.push(y).last() == y);
    if ps.len() == 0 {
        assert(ps.push(y)[0] == y);
    }
}

proof fn lemma_join_front(ls: Seq<Seq<char>>)
    requires
        ls.len() >= 2,
    ensures
        join_lines(ls) == ls[0] + seq!['\n'] + join_lines(ls.drop_first()),
    decreases ls.len(),
{
    let e = ls.drop_last();
    let t = ls.drop_first();
    if ls.len() == 2 {
        assert(e.len() == 1);
        assert(t.len() == 1);
        assert(join_lines(e) == e[0]);
        assert(join_lines(t) == t[0]);
    } else {
        lemma_join_front(e);
        assert(e.drop_first() =~= t.drop_last());
        assert(t.last() == ls.last());
        assert(join_lines(t) == join_lines(t.drop_last()) + seq!['\n'] + t.last());
        assert(join_lines(ls) == join_lines(e) + seq!['\n'] + ls.last());
        assert(join_lines(ls) =~= ls[0] + seq!['\n'] + join_lines(t));
    }
}

proof fn lemma_split_append(s: Seq<char>, t: Seq<char>)
    requires
        forall|i: int| 0 <= i < t.len() ==> #[trigger] t[i] != '\n',
    ensures
        split_state(s + t) == (split_state(s).0, split_state(s).1 + t),
    decreases t.len(),
{
    if t.len() == 0 {
        assert(s + t =~= s);
        assert(split_state(s).1 + t =~= split_state(s).1);
    } else {
        let u = t.drop_last();
        assert((s + t).drop_last() =~= s + u);
        assert((s + t).last() == t.last());
        lemma_split_append(s, u);
        assert(split_state(s).1 + u + seq![t.last()] =~= split_state(s).1 + t);
        assert((split_state(s).1 + u).push(t.last()) =~= split_state(s).1 + t);
    }
}

proof fn lemma_split_join(d: Seq<Seq<char>>)
    requires
        d.len() > 0,
        plain_lines(d),
    ensures
        split_state(join_lines(d)) == (d.drop_last(), d.last()),
    decreases d.len(),
{
    if d.len() == 1 {
        assert(join_lines(d) == d[0]);
        assert(plain_line(d[0]));
        lemma_split_append(Seq::empty(), d[0]);
        assert(Seq::<char>::empty() + d[0] =~= d[0]);
        assert(split_state(Seq::<char>::empty()) == (Seq::<Seq<char>>::empty(), Seq::<char>::empty()));
        assert(d.drop_last() =~= Seq::<Seq<char>>::empty());
    } else {
        let e = d.drop_last();
        assert(plain_lines(e)) by {
            assert forall|i: int| 0 <= i < e.len() implies plain_line(#[trigger] e[i]) by {
                assert(e[i] == d[i]);
            }
        }
        lemma_split_join(e);
        let j = join_lines(e);
        let jn = j.push('\n');
        assert(jn.drop_last() =~= j);
        assert(plain_line(e.last()));
        assert(strip_cr(e.last()) == e.last()) by {
            if e.last().len() > 0 {
                assert(e.last()[e.last().len() - 1] != '\r');
            }
        }
        assert(split_state(jn) == (e.drop_last().push(e.last()), Seq::<char>::empty()));
        assert(e.drop_last().push(e.last()) =~= e);
        assert(plain_line(d.last()));
        lemma_split_append(jn, d.last());
        assert(Seq::<char>::empty() + d.last() =~= d.last());
        assert(join_lines(d) =~= jn + d.last());
    }
}

proof fn lemma_lines_join(d: Seq<Seq<char>>)
    requires
        plain_lines(d),
        d.len() == 0 || d.last().len() > 0,
    ensures
        lines(join_lines(d)) == d,
{
    if d.len() == 0 {
        assert(split_state(Seq::<char>::empty()) == (Seq::<Seq<char>>::empty(), Seq::<char>::empty()));
    } else {
        lemma_split_join(d);
        assert(d.drop_last().push(d.last()) =~= d);
    }
}

proof fn lemma_front(ls: Seq<Seq<char>>) -> (k: int)
    ensures
        0 <= k <= ls.len(),
        drop_empty_front(ls) == ls.skip(k),
        forall|j: int| 0 <= j < k ==> (#[trigger] ls[j]).len() == 0,
        k < ls.len() ==> ls[k].len() > 0,
    decreases ls.len(),
{
    if ls.len() > 0 && ls[0].len() == 0 {
        let k1 = lemma_front(ls.drop_first());
        assert(ls.drop_first().skip(k1) =~= ls.skip(k1 + 1));
        assert forall|j: int| 0 <= j < k1 + 1 implies (#[trigger] ls[j]).len() == 0 by {
            if j > 0 {
                assert(ls[j] == ls.drop_first()[j - 1]);
            }
        }
        if k1 + 1 < ls.len() {
            assert(ls[k1 + 1] == ls.drop_first()[k1]);
        }
        k1 + 1
    } else {
        assert(ls.skip(0) =~= ls);
        0
    }
}

proof fn lemma_back(ls: Seq<Seq<char>>) -> (k: int)
    ensures
        0 <= k <= ls.len(),
        drop_empty_back(ls) == ls.take(k),
        forall|j: int| k <= j < ls.len() ==> (#[trigger] ls[j]).len() == 0,
        k > 0 ==> ls[k - 1].len() > 0,
    decreases ls.len(),
{
    if ls.len() > 0 && ls.last().len() == 0 {
        let k1 = lemma_back(ls.drop_last());
        assert(ls.drop_last().take(k1) =~= ls.take(k1));
        assert forall|j: int| k1 <= j < ls.len() implies (#[trigger] ls[j]).len() == 0 by {
            if j < ls.len() - 1 {
                assert(ls[j] == ls.drop_last()[j]);
            }
        }
        if k1 > 0 {
            assert(ls[k1 - 1] == ls.drop_last()[k1 - 1]);
        }
        k1
    } else {
        assert(ls.take(ls.len() as int) =~= ls);
        ls.len() as int
    }
}

proof fn lemma_trim_start_join(c: Seq<Seq<char>>)
    requires
        plain_lines(c),
    ensures
        trim_start_by(join_lines(c), |x: char| x == '\n') == join_lines(drop_empty_front(c)),
    decreases c.len(),
{
    let p = |x: char| x == '\n';
    let j = join_lines(c);
    if c.len() == 0 {
        assert(j.skip(0) =~= j);
        assert(trim_start_by(j, p) == join_lines(drop_empty_front(c)));
    } else if c[0].len() > 0 {
        if c.len() >= 2 {
            lemma_join_front(c);
        }
        assert(j[0] == c[0][0]);
        assert(plain_line(c[0]));
        assert(leading(j, p) == 0);
        assert(j.skip(0) =~= j);
        assert(trim_start_by(j, p) == join_lines(drop_empty_front(c)));
    } else if c.len() == 1 {
        assert(j == c[0]);
        assert(c.drop_first() =~= Seq::<Seq<char>>::empty());
        assert(drop_empty_front(c.drop_first()) == Seq::<Seq<char>>::empty());
        assert(j.len() == 0);
        assert(j.skip(0) =~= j);
        assert(trim_start_by(j, p) == join_lines(drop_empty_front(c)));
    } else {
        lemma_join_front(c);
        let t = c.drop_first();
        assert(plain_lines(t)) by {
            assert forall|i: int| 0 <= i < t.len() implies plain_line(#[trigger] t[i]) by {
                assert(t[i] == c[i + 1]);
            }
        }
        lemma_trim_start_join(t);
        assert(j =~= seq!['\n'] + join_lines(t));
        assert(j.drop_first() =~= join_lines(t));
        assert(leading(j, p) == 1 + leading(join_lines(t), p));
        lemma_leading_le(join_lines(t), p);
        assert(j.skip(leading(j, p) as int) =~= join_lines(t).skip(leading(join_lines(t), p) as int));
        assert(drop_empty_front(c) == drop_empty_front(t));
        assert(trim_start_by(j, p) == trim_start_by(join_lines(t), p));
        assert(trim_start_by(j, p) == join_lines(drop_empty_front(c)));
    }
}

proof fn lemma_trim_end_join(c: Seq<Seq<char>>)
    requires
        plain_lines(c),
    ensures
        trim_end_by(join_lines(c), |x: char| x == '\n') == join_lines(drop_empty_back(c)),
    decreases c.len(),
{
    let p = |x: char| x == '\n';
    let j = join_lines(c);
    if c.len() == 0 {
        assert(j.take(j.len() as int) =~= j);
        assert(trim_end_by(j, p) == join_lines(drop_empty_back(c)));
    } else if c.last().len() > 0 {
        assert(plain_line(c.last()));
        if c.len() >= 2 {
            assert(j == join_lines(c.drop_last()) + seq!['\n'] + c.last());
        }
        assert(j.last() == c.last().last());
        assert(trailing(j, p) == 0);
        assert(j.take(j.len() as int) =~= j);
        assert(drop_empty_back(c) == c);
        assert(trim_end_by(j, p) == join_lines(drop_empty_back(c)));
    } else if c.len() == 1 {
        assert(j == c[0]);
        assert(c.drop_last() =~= Seq::<Seq<char>>::empty());
        assert(drop_empty_back(c.drop_last()) == Seq::<Seq<char>>::empty());
        assert(drop_empty_back(c) == Seq::<Seq<char>>::empty());
        assert(j.len() == 0);
        assert(j.take(0) =~= j);
        assert(trim_end_by(j, p) == join_lines(drop_empty_back(c)));
    } else {
        let e = c.drop_last();
        assert(plain_lines(e)) by {
            assert forall|i: int| 0 <= i < e.len() implies plain_line(#[trigger] e[i]) by {
                assert(e[i] == c[i]);
            }
        }
        lemma_trim_end_join(e);
        assert(j == join_lines(e) + seq!['\n'] + c.last());
        assert(j =~= join_lines(e).push('\n'));
        assert(j.drop_last() =~= join_lines(e));
        assert(trailing(j, p) == 1 + trailing(join_lines(e), p));
        lemma_trailing_le(join_lines(e), p);
        assert(drop_empty_back(c) == drop_empty_back(e));
        assert(j.take(j.len() - trailing(j, p)) =~= join_lines(e).take(
            join_lines(e).len() - trailing(join_lines(e), p),
        ));
    }
}

proof fn lemma_lines_plain(s: Seq<char>)
    requires
        no_cr(s),
    ensures
        plain_lines(split_state(s).0),
        plain_line(split_state(s).1),
        plain_lines(lines(s)),
    decreases s.len(),
{
    if s.len() > 0 {
        let t = s.drop_last();
        assert(no_cr(t)) by {
            assert forall|i: int| 0 <= i < t.len() implies #[trigger] t[i] != '\r' by {
                assert(t[i] == s[i]);
            }
        }
        lemma_lines_plain(t);
        let (done, cur) = split_state(t);
        if s.last() == '\n' {
            assert(plain_line(strip_cr(cur))) by {
                if cur.len() > 0 && cur.last() == '\r' {
                    assert forall|i: int| 0 <= i < cur.drop_last().len() implies #[trigger] cur.drop_last()[i]
                        != '\n' && cur.drop_last()[i] != '\r' by {
                        assert(cur.drop_last()[i] == cur[i]);
                    }
                }
            }
            assert forall|i: int| 0 <= i < done.push(strip_cr(cur)).len() implies plain_line(
                #[trigger] done.push(strip_cr(cur))[i],
            ) by {
                if i < done.len() {
                    assert(done.push(strip_cr(cur))[i] == done[i]);
                }
            }
        } else {
            assert(s.last() != '\r') by {
                assert(s[s.len() - 1] != '\r');
            }
            assert forall|i: int| 0 <= i < cur.push(s.last()).len() implies #[trigger] cur.push(
                s.last(),
            )[i] != '\n' && cur.push(s.last())[i] != '\r' by {
                if i < cur.len() {
                    assert(cur.push(s.last())[i] == cur[i]);
                }
            }
        }
    }
    let (done, cur) = split_state(s);
    if cur.len() > 0 {
        assert forall|i: int| 0 <= i < done.push(cur).len() implies plain_line(
            #[trigger] done.push(cur)[i],
        ) by {
            if i < done.len() {
                assert(done.push(cur)[i] == done[i]);
            }
        }
    }
}

proof fn lemma_byte_len_ge(l: Seq<char>)
    ensures
        byte_len(l) >= l.len(),
    decreases l.len(),
{
    if l.len() > 0 {
        lemma_byte_len_ge(l.drop_first());
    }
}

/// What `skip_bytes` gives is the end of the line.
proof fn lemma_skip_bytes_suffix(l: Seq<char>, m: nat)
    ensures
        skip_bytes(l, m) matches Some(r) ==> r.len() <= l.len() && r == l.skip(l.len() - r.len()),
    decreases l.len(),
{
    if m == 0 {
        assert(l.skip(0) =~= l);
    } else if l.len() > 0 && char_width(l[0]) <= m {
        lemma_skip_bytes_suffix(l.drop_first(), (m - char_width(l[0])) as nat);
        if let Some(r) = skip_bytes(l, m) {
            assert(l.drop_first().skip(l.drop_first().len() - r.len()) =~= l.skip(l.len() - r.len()));
        }
    }
}

/// A cut line is the end of the line, or empty.
proof fn lemma_cut_suffix(l: Seq<char>, m: nat)
    ensures
        cut(l, m).len() <= l.len(),
        cut(l, m) == l.skip(l.len() - cut(l, m).len()),
{
    lemma_skip_bytes_suffix(l, m);
    if cut(l, m).len() == 0 {
        assert(l.skip(l.len() as int) =~= cut(l, m));
    }
}

proof fn lemma_cut_zero(l: Seq<char>)
    ensures
        cut(l, 0) == l,
{
    lemma_byte_len_ge(l);
    if byte_len(l) == 0 {
        assert(l =~= Seq::<char>::empty());
    }
}

proof fn lemma_skip_blanks(l: Seq<char>, n: nat)
    requires
        n <= l.len(),
        forall|i: int| 0 <= i < n ==> is_blank(#[trigger] l[i]),
    ensures
        skip_bytes(l, n) == Some(l.skip(n as int)),
    decreases n,
{
    if n == 0 {
        assert(l.skip(0) =~= l);
    } else {
        assert(is_blank(l[0]));
        assert(char_width(l[0]) == 1);
        let t = l.drop_first();
        assert forall|i: int| 0 <= i < n - 1 implies is_blank(#[trigger] t[i]) by {
            assert(t[i] == l[i + 1]);
        }
        lemma_skip_blanks(t, (n - 1) as nat);
        assert(t.skip(n - 1) =~= l.skip(n as int));
    }
}

/// Cutting no more bytes than a line is indented leaves it indented by the
/// rest.
proof fn lemma_cut_indent(l: Seq<char>, k: nat, m: nat)
    requires
        indent(l) == Some(k),
        m <= k,
    ensures
        indent(cut(l, m)) == Some((k - m) as nat),
        cut(l, m).len() > 0,
{
    let b = |c: char| is_blank(c);
    assert(!all_whitespace(l));
    let w = choose|w: int| 0 <= w < l.len() && !is_whitespace(#[trigger] l[w]);
    lemma_leading_le(l, b);
    assert forall|i: int| 0 <= i < k implies is_blank(#[trigger] l[i]) by {
        lemma_leading_prefix(l, b, i);
    }
    assert(k < l.len()) by {
        if k == l.len() {
            assert(is_blank(l[w]));
        }
    }
    lemma_leading_prefix(l, b, k as int);
    assert(w >= k) by {
        if w < k {
            assert(is_blank(l[w]));
        }
    }
    lemma_skip_blanks(l, m);
    lemma_byte_len_ge(l);
    let r = l.skip(m as int);
    assert(cut(l, m) == r);
    assert(!is_whitespace(r[w - m]));
    assert(!all_whitespace(r));
    assert forall|j: int| 0 <= j < k - m implies b(#[trigger] r[j]) by {
        assert(r[j] == l[j + m]);
    }
    assert(r[k - m] == l[k as int]);
    lemma_leading(r, b, k - m);
}

proof fn lemma_min_indent_witness(ls: Seq<Seq<char>>)
    ensures
        min_indent(ls) matches Some(k) ==> exists|i: int| 0 <= i < ls.len() && indent(#[trigger] ls[i]) == Some(k),
        min_indent(ls) is None ==> forall|i: int| 0 <= i < ls.len() ==> indent(#[trigger] ls[i]) is None,
    decreases ls.len(),
{
    if ls.len() > 0 {
        let e = ls.drop_last();
        lemma_min_indent_witness(e);
        assert(ls.last() == ls[ls.len() - 1]);
        if let Some(k) = min_indent(ls) {
            if min_indent(e) == Some(k) {
                let i = choose|i: int| 0 <= i < e.len() && indent(#[trigger] e[i]) == Some(k);
                assert(ls[i] == e[i]);
            }
        } else {
            assert forall|i: int| 0 <= i < ls.len() implies indent(#[trigger] ls[i]) is None by {
                if i < e.len() {
                    assert(ls[i] == e[i]);
                }
            }
        }
    }
}

proof fn lemma_min_indent_zero(ls: Seq<Seq<char>>, i: int)
    requires
        0 <= i < ls.len(),
        indent(ls[i]) == Some(0nat),
    ensures
        min_indent(ls) == Some(0nat),
    decreases ls.len(),
{
    let e = ls.drop_last();
    if i < ls.len() - 1 {
        assert(e[i] == ls[i]);
        lemma_min_indent_zero(e, i);
    } else {
        assert(ls.last() == ls[i]);
    }
}

proof fn lemma_min_indent_none(ls: Seq<Seq<char>>)
    requires
        forall|i: int| 0 <= i < ls.len() ==> indent(#[trigger] ls[i]) is None,
    ensures
        min_indent(ls) is None,
    decreases ls.len(),
{
    if ls.len() > 0 {
        let e = ls.drop_last();
        assert forall|i: int| 0 <= i < e.len() implies indent(#[trigger] e[i]) is None by {
            assert(e[i] == ls[i]);
        }
        lemma_min_indent_none(e);
        assert(indent(ls[ls.len() - 1]) is None);
    }
}

/// Removing the indentation of a text twice gives what removing it once
/// gives, for a text without `'\r'`: once removed, the least indentation
/// is nothing, and the lines stand as they are.
pub proof fn lemma_removed_indent_idempotent(text: Seq<char>)
    requires
        no_cr(text),
    ensures
        removed_indent(removed_indent(text)) == removed_indent(text),
{
    let nl = |x: char| x == '\n';
    let m = text_indent(text);
    let ls = lines(text);
    let c = ls.map_values(|l: Seq<char>| cut(l, m));
    lemma_lines_plain(text);
    assert(plain_lines(c)) by {
        assert forall|i: int| 0 <= i < c.len() implies plain_line(#[trigger] c[i]) by {
            assert(plain_line(ls[i]));
            lemma_cut_suffix(ls[i], m);
            let ci = c[i];
            assert forall|j: int| 0 <= j < ci.len() implies #[trigger] ci[j] != '\n' && ci[j]
                != '\r' by {
                assert(ci[j] == ls[i][ls[i].len() - ci.len() + j]);
            }
        }
    }
    let a = lemma_front(c);
    let f = drop_empty_front(c);
    assert(plain_lines(f)) by {
        assert forall|i: int| 0 <= i < f.len() implies plain_line(#[trigger] f[i]) by {
            assert(f[i] == c[a + i]);
        }
    }
    let b = lemma_back(f);
    let g = drop_empty_back(f);
    assert(plain_lines(g)) by {
        assert forall|i: int| 0 <= i < g.len() implies plain_line(#[trigger] g[i]) by {
            assert(g[i] == f[i]);
        }
    }
    lemma_trim_start_join(c);
    lemma_trim_end_join(f);
    let r = removed_indent(text);
    assert(r == join_lines(g));
    // The lines of the result are the cut lines, less empty ones at either
    // end, and the first and the last of them are not empty.
    assert(g.len() > 0 ==> g[0].len() > 0 && g.last().len() > 0) by {
        if g.len() > 0 {
            assert(g[0] == f[0]);
            assert(f[0] == c[a]);
            assert(g.last() == f[b - 1]);
        }
    }
    lemma_lines_join(g);
    assert(lines(r) == g);
    // Its least indentation is nothing.
    lemma_min_indent_witness(ls);
    match min_indent(ls) {
        None => {
            assert forall|i: int| 0 <= i < g.len() implies indent(#[trigger] g[i]) is None by {
                assert(g[i] == c[a + i]);
                lemma_cut_zero(ls[a + i]);
            }
            lemma_min_indent_none(g);
        },
        Some(k) => {
            let i = choose|i: int| 0 <= i < ls.len() && indent(#[trigger] ls[i]) == Some(k);
            lemma_cut_indent(ls[i], k, k);
            assert(c[i] == cut(ls[i], k));
            assert(i >= a) by {
                if i < a {
                    assert(c[i].len() == 0);
                }
            }
            assert(f[i - a] == c[i]);
            assert(i - a < b) by {
                if i - a >= b {
                    assert(f[i - a].len() == 0);
                }
            }
            assert(g[i - a] == c[i]);
            lemma_min_indent_zero(g, i - a);
        },
    }
    assert(text_indent(r) == 0);
    // So nothing is cut, and the lines join back into the result.
    let c2 = g.map_values(|l: Seq<char>| cut(l, 0));
    assert(c2 =~= g) by {
        assert forall|i: int| 0 <= i < g.len() implies c2[i] == g[i] by {
            lemma_cut_zero(g[i]);
        }
    }
    lemma_trim_start_join(g);
    lemma_trim_end_join(g);
    assert(drop_empty_front(g) == g);
    assert(drop_empty_back(g) == g);
    assert(removed_indent(r) == trim_newlines(join_lines(c2)));
}

} // verus!
