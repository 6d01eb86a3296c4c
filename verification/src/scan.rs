//! Scanning over a buffer of characters: the executable counterparts of the
//! counting functions of the grammar, and the conversions between strings and
//! character buffers.
//!
//! A scanner takes the buffer and a position and returns the position where
//! it stopped. Its contract is stated over the unread input, `s@.skip(p)`.

use vstd::prelude::*;
use vstd::std_specs::iter::IteratorSpec;
use crate::grammar::{
    blank_line_len, blank_lines_len, digits_len, is_bullet, is_digit, is_marker, is_rule_char,
    is_space, line_end, newline_len, raw_line_len, run_len, span_until, spaces_len, text_len,
};

verus! {

broadcast use vstd::seq_lib::lemma_seq_skip_of_skip;

/// `String::push` appends one character to the end of the string.
pub assume_specification[ String::push ](s: &mut String, c: char)
    ensures
        final(s)@ == old(s)@.push(c),
;

/// The characters of a string, in order.
pub fn to_chars(text: &str) -> (v: Vec<char>)
    ensures
        v@ == text@,
{
    broadcast use vstd::string::group_string_axioms;

    let mut v: Vec<char> = Vec::new();
    for c in iter: text.chars()
        invariant
            iter.seq() == text@,
            v@ == iter.seq().take(iter.index()),
    {
        v.push(c);
    }
    v
}

/// The characters of `s` from `from` up to, not including, `to`.
pub(crate) fn substring(s: &Vec<char>, from: usize, to: usize) -> (r: String)
    requires
        from <= to <= s.len(),
    ensures
        r@ == s@.subrange(from as int, to as int),
{
    let mut r = String::new();
    let mut i: usize = from;
    while i < to
        invariant
            from <= i <= to <= s.len(),
            r@ == s@.subrange(from as int, i as int),
        decreases to - i,
    {
        r.push(s[i]);
        i += 1;
        assert(r@ =~= s@.subrange(from as int, i as int));
    }
    r
}

pub fn space_char(c: char) -> (b: bool)
    ensures
        b == is_space(c),
{
    c == ' ' || c == '\t'
}

pub fn digit_char(c: char) -> (b: bool)
    ensures
        b == is_digit(c),
{
    '0' <= c && c <= '9'
}

pub fn marker_char(c: char) -> (b: bool)
    ensures
        b == is_marker(c),
{
    c == '[' || c == '*' || c == '_'
}

pub fn bullet_char(c: char) -> (b: bool)
    ensures
        b == is_bullet(c),
{
    c == '-' || c == '*' || c == '+'
}

pub fn rule_char(c: char) -> (b: bool)
    ensures
        b == is_rule_char(c),
{
    c == '-' || c == '*' || c == '_'
}

/// Length of the line break at `p`, 0 where there is none.
pub(crate) fn newline_at(s: &Vec<char>, p: usize) -> (n: usize)
    requires
        p <= s.len(),
    ensures
        n == newline_len(s@.skip(p as int)),
        p + n <= s.len(),
{
    if p < s.len() && s[p] == '\n' {
        1
    } else if s.len() - p >= 2 && s[p] == '\r' && s[p + 1] == '\n' {
        2
    } else {
        0
    }
}

/// The position behind the end of the line at `p`, where the line ends there.
pub(crate) fn line_end_at(s: &Vec<char>, p: usize) -> (r: Option<usize>)
    requires
        p <= s.len(),
    ensures
        match line_end(s@.skip(p as int)) {
            Some(e) => r == Some((p + e) as usize) && p + e <= s.len(),
            None => r is None,
        },
{
    if p == s.len() {
        Some(p)
    } else {
        let n = newline_at(s, p);
        if n > 0 {
            Some(p + n)
        } else {
            None
        }
    }
}

/// Skips the characters equal to `c`.
pub(crate) fn skip_run(s: &Vec<char>, p: usize, c: char) -> (q: usize)
    requires
        p <= s.len(),
    ensures
        p <= q <= s.len(),
        q - p == run_len(s@.skip(p as int), c),
{
    let mut q: usize = p;
    while q < s.len() && s[q] == c
        invariant
            p <= q <= s.len(),
            run_len(s@.skip(p as int), c) == (q - p) + run_len(s@.skip(q as int), c),
        decreases s.len() - q,
    {
        q += 1;
    }
    q
}

/// Skips the characters that differ from `c`.
pub(crate) fn skip_until(s: &Vec<char>, p: usize, c: char) -> (q: usize)
    requires
        p <= s.len(),
    ensures
        p <= q <= s.len(),
        q - p == span_until(s@.skip(p as int), c),
{
    let mut q: usize = p;
    while q < s.len() && s[q] != c
        invariant
            p <= q <= s.len(),
            span_until(s@.skip(p as int), c) == (q - p) + span_until(s@.skip(q as int), c),
        decreases s.len() - q,
    {
        q += 1;
    }
    q
}

/// Skips blanks and tabs.
pub(crate) fn skip_spaces(s: &Vec<char>, p: usize) -> (q: usize)
    requires
        p <= s.len(),
    ensures
        p <= q <= s.len(),
        q - p == spaces_len(s@.skip(p as int)),
{
    let mut q: usize = p;
    while q < s.len() && space_char(s[q])
        invariant
            p <= q <= s.len(),
            spaces_len(s@.skip(p as int)) == (q - p) + spaces_len(s@.skip(q as int)),
        decreases s.len() - q,
    {
        q += 1;
    }
    q
}

/// Skips decimal digits.
pub(crate) fn skip_digits(s: &Vec<char>, p: usize) -> (q: usize)
    requires
        p <= s.len(),
    ensures
        p <= q <= s.len(),
        q - p == digits_len(s@.skip(p as int)),
{
    let mut q: usize = p;
    while q < s.len() && digit_char(s[q])
        invariant
            p <= q <= s.len(),
            digits_len(s@.skip(p as int)) == (q - p) + digits_len(s@.skip(q as int)),
        decreases s.len() - q,
    {
        q += 1;
    }
    q
}

/// Skips to the next line break or to the end of the input.
pub(crate) fn skip_raw_line(s: &Vec<char>, p: usize) -> (q: usize)
    requires
        p <= s.len(),
    ensures
        p <= q <= s.len(),
        q - p == raw_line_len(s@.skip(p as int)),
{
    let mut q: usize = p;
    while q < s.len() && newline_at(s, q) == 0
        invariant
            p <= q <= s.len(),
            raw_line_len(s@.skip(p as int)) == (q - p) + raw_line_len(s@.skip(q as int)),
        decreases s.len() - q,
    {
        q += 1;
    }
    q
}

/// Skips plain text: to the next line break or marker.
pub(crate) fn skip_text(s: &Vec<char>, p: usize) -> (q: usize)
    requires
        p <= s.len(),
    ensures
        p <= q <= s.len(),
        q - p == text_len(s@.skip(p as int)),
{
    let mut q: usize = p;
    while q < s.len() && newline_at(s, q) == 0 && !marker_char(s[q])
        invariant
            p <= q <= s.len(),
            text_len(s@.skip(p as int)) == (q - p) + text_len(s@.skip(q as int)),
        decreases s.len() - q,
    {
        q += 1;
    }
    q
}

/// The position behind the blank line at `p`, or `p` where the line there is
/// not blank.
pub(crate) fn skip_blank_line(s: &Vec<char>, p: usize) -> (q: usize)
    requires
        p <= s.len(),
    ensures
        p <= q <= s.len(),
        q - p == blank_line_len(s@.skip(p as int)),
{
    let k = skip_spaces(s, p);
    let n = newline_at(s, k);
    if n > 0 {
        k + n
    } else {
        p
    }
}

/// Skips every blank line at `p`.
pub(crate) fn skip_blank_lines(s: &Vec<char>, p: usize) -> (q: usize)
    requires
        p <= s.len(),
    ensures
        p <= q <= s.len(),
        q - p == blank_lines_len(s@.skip(p as int)),
        blank_line_len(s@.skip(q as int)) == 0,
{
    let mut q: usize = p;
    loop
        invariant
            p <= q <= s.len(),
            blank_lines_len(s@.skip(p as int)) == (q - p) + blank_lines_len(s@.skip(q as int)),
        ensures
            p <= q <= s.len(),
            q - p == blank_lines_len(s@.skip(p as int)),
            blank_line_len(s@.skip(q as int)) == 0,
        decreases s.len() - q,
    {
        let next = skip_blank_line(s, q);
        if next == q {
            break ;
        }
        q = next;
    }
    q
}

} // verus!
