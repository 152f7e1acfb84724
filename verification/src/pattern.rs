//! Regular-expression matching (through the `regex` crate) and the
//! arithmetic that turns its byte spans into character ranges.
use vstd::prelude::*;

use crate::utf8_len::{byte_len, byte_off, char_width, lemma_byte_off_step, lemma_byte_off_zero, width};

verus! {

/// A boundary lies within the text.
pub proof fn lemma_boundary_le(s: Seq<char>, b: int)
    requires
        is_boundary(s, b),
    ensures
        0 <= b <= byte_len(s),
{
    let i = choose|i: int| 0 <= i <= s.len() && byte_off(s, i) == b;
    crate::utf8_len::lemma_byte_off_mono(s, i, s.len() as int);
    crate::utf8_len::lemma_byte_off_full(s);
}

/// Byte span of one capture group, `None` when the group took no part in the match.
pub type Span = Option<(usize, usize)>;

/// What `Regex::new(pattern)` followed by `captures_iter(haystack)` yields:
/// for each successive non-overlapping match, the byte span of every capture
/// group (group 0 being the whole match); empty when the pattern does not compile.
pub uninterp spec fn regex_captures(pattern: Seq<char>, haystack: Seq<char>) -> Seq<Seq<Span>>;

/// Compiles `pattern` with `regex::Regex::new` and collects the byte spans of
/// the capture groups of every match of `captures_iter` on `haystack`; the
/// result is named by `regex_captures`. An invalid pattern gives no match.
#[verifier::external_body]
pub(crate) fn captures_all(pattern: &str, haystack: &str) -> (r: Vec<Vec<Span>>)
    ensures
        r@.len() == regex_captures(pattern@, haystack@).len(),
        forall|i: int| 0 <= i < r@.len() ==> #[trigger] r@[i]@ == regex_captures(pattern@, haystack@)[i],
{
    match regex::Regex::new(pattern) {
        Ok(re) => re.captures_iter(haystack).map(
            |c| c.iter().map(|m| m.map(|m| (m.start(), m.end()))).collect(),
        ).collect(),
        Err(_) => Vec::new(),
    }
}

/// Index of the first character of `s` at or after `i` whose byte offset is
/// at least `b` (`s.len()` when there is none).
pub open spec fn char_from(s: Seq<char>, b: int, i: int) -> int
    decreases s.len() - i,
{
    if i < 0 || i >= s.len() || byte_off(s, i) >= b {
        i
    } else {
        char_from(s, b, i + 1)
    }
}

/// The character index that byte offset `b` falls on.
pub open spec fn char_at_byte(s: Seq<char>, b: int) -> int {
    char_from(s, b, 0)
}

/// Byte offset `b` is the offset of some character of `s` (or its end).
pub open spec fn is_boundary(s: Seq<char>, b: int) -> bool {
    exists|i: int| 0 <= i <= s.len() && byte_off(s, i) == b
}

/// The characters of `s` that the byte span `(a, b)` covers.
pub open spec fn span_text(s: Seq<char>, span: (usize, usize)) -> Seq<char> {
    let a = char_at_byte(s, span.0 as int);
    let b = char_at_byte(s, span.1 as int);
    if a <= b {
        s.subrange(a, b)
    } else {
        seq![]
    }
}

pub proof fn lemma_char_from_bounds(s: Seq<char>, b: int, i: int)
    requires
        0 <= i <= s.len(),
    ensures
        i <= char_from(s, b, i) <= s.len(),
    decreases s.len() - i,
{
    if i < s.len() && byte_off(s, i) < b {
        lemma_char_from_bounds(s, b, i + 1);
    }
}

pub proof fn lemma_char_from_mono(s: Seq<char>, a: int, b: int, i: int)
    requires
        0 <= i <= s.len(),
        a <= b,
    ensures
        char_from(s, a, i) <= char_from(s, b, i),
    decreases s.len() - i,
{
    if i < s.len() && byte_off(s, i) < a {
        lemma_char_from_mono(s, a, b, i + 1);
    } else {
        lemma_char_from_bounds(s, b, i);
    }
}

/// Character positions grow with byte offsets.
pub proof fn lemma_char_at_byte_mono(s: Seq<char>, a: int, b: int)
    requires
        a <= b,
    ensures
        0 <= char_at_byte(s, a) <= char_at_byte(s, b) <= s.len(),
{
    lemma_char_from_mono(s, a, b, 0);
    lemma_char_from_bounds(s, b, 0);
    lemma_char_from_bounds(s, a, 0);
}

/// The character index that byte offset `b` falls on.
pub fn char_index(s: &Vec<char>, b: usize) -> (r: usize)
    ensures
        r == char_at_byte(s@, b as int),
        r <= s@.len(),
{
    let mut i: usize = 0;
    let mut off: u128 = 0;
    proof {
        lemma_byte_off_zero(s@);
    }
    while i < s.len() && off < b as u128
        invariant
            0 <= i <= s@.len(),
            off == byte_off(s@, i as int),
            off <= b,
            char_from(s@, b as int, i as int) == char_from(s@, b as int, 0),
        decreases s@.len() - i,
    {
        proof {
            lemma_byte_off_step(s@, i as int);
        }
        off = off + char_width(s[i]) as u128;
        i = i + 1;
        if off > b as u128 {
            proof {
                lemma_char_from_bounds(s@, b as int, i as int);
            }
            assert(char_from(s@, b as int, i as int) == i);
            return i;
        }
    }
    i
}

/// The text of a capture span.
pub fn span_chars(s: &Vec<char>, span: (usize, usize)) -> (r: Vec<char>)
    ensures
        r@ == span_text(s@, span),
{
    let a = char_index(s, span.0);
    let b = char_index(s, span.1);
    if a <= b {
        crate::text::slice(s, a, b)
    } else {
        let v: Vec<char> = Vec::new();
        assert(v@ =~= span_text(s@, span));
        v
    }
}


/// Capture group `k` of a match (`None` when absent).
pub open spec fn group(cap: Seq<Span>, k: int) -> Span {
    if 0 <= k < cap.len() {
        cap[k]
    } else {
        None
    }
}

/// The text of capture group `k` of a match in `c`.
pub open spec fn cap_text(c: Seq<char>, cap: Seq<Span>, k: int) -> Option<Seq<char>> {
    match group(cap, k) {
        Some(sp) => Some(span_text(c, sp)),
        None => None,
    }
}

/// Capture group `k` of a match.
pub fn group_at(cap: &Vec<Span>, k: usize) -> (r: Span)
    ensures
        r == group(cap@, k as int),
{
    if k < cap.len() {
        cap[k]
    } else {
        None
    }
}

/// The text of capture group `k` of a match in `text`.
pub fn cap_text_exec(text: &Vec<char>, cap: &Vec<Span>, k: usize) -> (r: Option<Vec<char>>)
    ensures
        match r {
            Some(t) => cap_text(text@, cap@, k as int) == Some(t@),
            None => cap_text(text@, cap@, k as int) is None,
        },
{
    match group_at(cap, k) {
        Some(sp) => Some(span_chars(text, sp)),
        None => None,
    }
}

/// `Regex::is_match`: the pattern matches somewhere in `haystack`.
pub open spec fn has_match(pattern: Seq<char>, haystack: Seq<char>) -> bool {
    regex_captures(pattern, haystack).len() > 0
}

/// The spans of a list of matches.
pub open spec fn caps_view(v: Seq<Vec<Span>>) -> Seq<Seq<Span>> {
    v.map_values(|c: Vec<Span>| c@)
}

/// The spans of the capture groups of every match of `pattern` in
/// `haystack` (see `regex_captures`).
pub fn captures_of(pattern: &str, haystack: &str) -> (r: Vec<Vec<Span>>)
    ensures
        caps_view(r@) == regex_captures(pattern@, haystack@),
{
    let caps = captures_all(pattern, haystack);
    assert(caps_view(caps@) =~= regex_captures(pattern@, haystack@));
    caps
}

/// Whether `pattern` matches somewhere in `haystack`.
pub fn has_match_exec(pattern: &str, haystack: &str) -> (r: bool)
    ensures
        r == has_match(pattern@, haystack@),
{
    let caps = captures_all(pattern, haystack);
    caps.len() > 0
}

/// `Regex::captures`: the groups of the first match, if any.
pub open spec fn first_capture(pattern: Seq<char>, haystack: Seq<char>) -> Option<Seq<Span>> {
    let caps = regex_captures(pattern, haystack);
    if caps.len() > 0 {
        Some(caps[0])
    } else {
        None
    }
}

/// The groups of the first match of `pattern` in `haystack`.
pub fn first_capture_exec(pattern: &str, haystack: &str) -> (r: Option<Vec<Span>>)
    ensures
        match r {
            Some(c) => first_capture(pattern@, haystack@) == Some(c@),
            None => first_capture(pattern@, haystack@) is None,
        },
{
    let mut caps = captures_all(pattern, haystack);
    if caps.len() > 0 {
        Some(caps.swap_remove(0))
    } else {
        None
    }
}

/// Number of `'\n'` in `s`.
pub open spec fn count_newlines(s: Seq<char>) -> nat
    decreases s.len(),
{
    if s.len() == 0 {
        0
    } else {
        count_newlines(s.drop_last()) + if s.last() == '\n' {
            1nat
        } else {
            0nat
        }
    }
}

pub proof fn lemma_count_newlines_le(s: Seq<char>)
    ensures
        count_newlines(s) <= s.len(),
    decreases s.len(),
{
    if s.len() > 0 {
        lemma_count_newlines_le(s.drop_last());
    }
}

/// `str::lines().count()`: one line per `'\n'`, plus a last line when the
/// text does not end with one.
pub open spec fn line_count(s: Seq<char>) -> nat {
    count_newlines(s) + if s.len() > 0 && s.last() != '\n' {
        1nat
    } else {
        0nat
    }
}

/// Number of lines of the text before byte offset `b`.
pub open spec fn lines_before(c: Seq<char>, b: usize) -> nat {
    line_count(c.subrange(0, char_at_byte(c, b as int)))
}

/// Number of lines of the text before byte offset `b`.
pub fn lines_before_exec(text: &Vec<char>, b: usize) -> (r: usize)
    ensures
        r == lines_before(text@, b),
        r <= text@.len(),
{
    let j = char_index(text, b);
    let ghost pre = text@.subrange(0, j as int);
    let mut n: usize = 0;
    let mut i: usize = 0;
    while i < j
        invariant
            0 <= i <= j <= text@.len(),
            pre == text@.subrange(0, j as int),
            n == count_newlines(pre.take(i as int)),
            n <= i,
        decreases j - i,
    {
        assert(pre.take(i + 1).drop_last() =~= pre.take(i as int));
        if text[i] == '\n' {
            n = n + 1;
        }
        i = i + 1;
    }
    assert(pre.take(j as int) =~= pre);
    if j > 0 && text[j - 1] != '\n' {
        proof {
            lemma_count_newlines_le(pre.drop_last());
        }
        n = n + 1;
    }
    n
}

/// The text of the byte window `[b, min(len, b + w))`, which is cut on a
/// character boundary.
pub open spec fn window_after(c: Seq<char>, b: usize, w: nat) -> Seq<char> {
    let e = char_at_byte(c, b as int);
    let j = char_at_byte(c, min_int(byte_len(c) as int, b + w));
    if e <= j {
        c.subrange(e, j)
    } else {
        seq![]
    }
}

/// The smaller of two integers.
pub open spec fn min_int(a: int, b: int) -> int {
    if a <= b {
        a
    } else {
        b
    }
}

/// `&s[b..min(s.len(), b + w)]` does not cut a character: the end of the
/// byte window falls on a character boundary.
pub open spec fn window_ok(c: Seq<char>, b: usize, w: nat) -> bool {
    is_boundary(c, min_int(byte_len(c) as int, b + w))
}


/// The character index that byte offset `b` falls on.
pub fn char_index_wide(s: &Vec<char>, b: u128) -> (r: usize)
    ensures
        r == char_at_byte(s@, b as int),
        r <= s@.len(),
{
    let mut i: usize = 0;
    let mut off: u128 = 0;
    proof {
        lemma_byte_off_zero(s@);
    }
    while i < s.len() && off < b
        invariant
            0 <= i <= s@.len(),
            off == byte_off(s@, i as int),
            off <= b,
            off <= 4 * i,
            char_from(s@, b as int, i as int) == char_from(s@, b as int, 0),
        decreases s@.len() - i,
    {
        proof {
            lemma_byte_off_step(s@, i as int);
        }
        off = off + char_width(s[i]) as u128;
        i = i + 1;
        if off > b {
            proof {
                lemma_char_from_bounds(s@, b as int, i as int);
            }
            assert(char_from(s@, b as int, i as int) == i);
            return i;
        }
    }
    i
}

/// Byte length of a character sequence.
pub fn byte_len_exec(s: &Vec<char>) -> (r: u128)
    ensures
        r == byte_len(s@),
        r <= 4 * s@.len(),
{
    let mut i: usize = 0;
    let mut off: u128 = 0;
    proof {
        lemma_byte_off_zero(s@);
    }
    while i < s.len()
        invariant
            0 <= i <= s@.len(),
            off == byte_off(s@, i as int),
            off <= 4 * i,
        decreases s@.len() - i,
    {
        proof {
            lemma_byte_off_step(s@, i as int);
        }
        off = off + char_width(s[i]) as u128;
        i = i + 1;
    }
    proof {
        crate::utf8_len::lemma_byte_off_full(s@);
    }
    off
}

/// Whether byte offset `b` is the offset of a character of `s` (or its end).
pub fn boundary_exec(s: &Vec<char>, b: u128) -> (r: bool)
    ensures
        r == is_boundary(s@, b as int),
{
    let mut i: usize = 0;
    let mut off: u128 = 0;
    proof {
        lemma_byte_off_zero(s@);
    }
    while i < s.len() && off < b
        invariant
            0 <= i <= s@.len(),
            off == byte_off(s@, i as int),
            off <= 4 * i,
            forall|k: int| 0 <= k < i ==> #[trigger] byte_off(s@, k) < b,
        decreases s@.len() - i,
    {
        proof {
            lemma_byte_off_step(s@, i as int);
        }
        off = off + char_width(s[i]) as u128;
        i = i + 1;
    }
    if off == b {
        return true;
    }
    proof {
        assert forall|k: int| 0 <= k <= s@.len() implies byte_off(s@, k) != b by {
            if k > i {
                crate::utf8_len::lemma_byte_off_mono(s@, i as int, k);
            } else if k == i {
            } else {
            }
        }
    }
    false
}

/// The text of the byte window `[b, min(len, b + w))`.
pub fn window_after_exec(text: &Vec<char>, b: usize, w: usize) -> (r: Vec<char>)
    ensures
        r@ == window_after(text@, b, w as nat),
{
    let e = char_index(text, b);
    let total = byte_len_exec(text);
    let lim: u128 = if total <= b as u128 + w as u128 {
        total
    } else {
        b as u128 + w as u128
    };
    let j = char_index_wide(text, lim);
    if e <= j {
        crate::text::slice(text, e, j)
    } else {
        let v: Vec<char> = Vec::new();
        assert(v@ =~= window_after(text@, b, w as nat));
        v
    }
}

/// Whether the byte window `[b, min(len, b + w))` ends on a character boundary.
pub fn window_ok_exec(text: &Vec<char>, b: usize, w: usize) -> (r: bool)
    ensures
        r == window_ok(text@, b, w as nat),
{
    let total = byte_len_exec(text);
    let lim: u128 = if total <= b as u128 + w as u128 {
        total
    } else {
        b as u128 + w as u128
    };
    boundary_exec(text, lim)
}


/// The first `n` characters of `s` (all of `s` when shorter).
pub open spec fn take_upto(s: Seq<char>, n: nat) -> Seq<char> {
    if n <= s.len() {
        s.subrange(0, n as int)
    } else {
        s
    }
}

/// `s.chars().take(n)`.
pub fn take_upto_exec(s: &Vec<char>, n: usize) -> (r: Vec<char>)
    ensures
        r@ == take_upto(s@, n as nat),
{
    if n <= s.len() {
        crate::text::slice(s, 0, n)
    } else {
        let r = s.clone();
        assert(r@ =~= s@);
        r
    }
}

} // verus!
