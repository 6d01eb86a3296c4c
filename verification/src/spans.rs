//! Matching the inline level: links, bold and italic spans, plain text, and
//! whole lines of them.
//!
//! An emphasis that is opened and never closed makes the grammar try the
//! same stretch of text again at every level of nesting, and a bracket that
//! opens no link makes it look for the closing one in vain. To keep both
//! from costing time, the input carries tables that say for every position
//! where the next `]` and the next `)` stand and where the spans that begin
//! there stop. The tables are filled once, from the end of the input to its
//! start; after that a matcher looks up whether it will succeed before it
//! descends.

use vstd::prelude::*;
use vstd::utf8::encode_utf8;
use crate::bounds::{lemma_count_bounds, lemma_inline_span_bounds};
use crate::grammar::{
    bold, inline_span, inline_spans, is_marker, italic, line, link, newline_len, span_until,
    text_len,
};
use crate::scan::{line_end_at, marker_char, newline_at, skip_text, substring, to_chars};
use crate::tree::{inline_view, inline_views, lemma_inline_views_push, Inline, InlineView};

verus! {

broadcast use vstd::seq_lib::lemma_seq_skip_of_skip;

/// Whether `ends` says, for every position from `from` on, where the spans
/// that begin at that position stop.
pub open spec fn ends_known(s: Seq<char>, ends: Seq<usize>, from: int) -> bool {
    &&& ends.len() == s.len() + 1
    &&& forall|q: int|
        from <= q <= s.len() ==> (#[trigger] ends[q]) == q + inline_spans(s.skip(q)).1
}

/// Whether `next` says, for every position from `from` on, where the next
/// `c` stands at or behind that position, or that none does: then it gives
/// the end of the text.
pub open spec fn next_known(s: Seq<char>, next: Seq<usize>, c: char, from: int) -> bool {
    &&& next.len() == s.len() + 1
    &&& forall|q: int|
        from <= q <= s.len() ==> (#[trigger] next[q]) == q + span_until(s.skip(q), c)
}

/// The text to match, with what is known of it beforehand.
pub struct Input {
    /// The characters of the text.
    pub chars: Vec<char>,
    /// For each position, the position of the next `]`.
    pub text_stops: Vec<usize>,
    /// For each position, the position of the next `)`.
    pub href_stops: Vec<usize>,
    /// For each position, the position where the spans that begin there stop.
    pub span_ends: Vec<usize>,
}

impl View for Input {
    type V = Seq<char>;

    open spec fn view(&self) -> Seq<char> {
        self.chars@
    }
}

impl Input {
    /// The tables are complete and right, and the text is no longer in bytes
    /// than a string can be.
    pub open spec fn well_formed(&self) -> bool {
        &&& encode_utf8(self.chars@).len() <= usize::MAX
        &&& next_known(self.chars@, self.text_stops@, ']', 0)
        &&& next_known(self.chars@, self.href_stops@, ')', 0)
        &&& ends_known(self.chars@, self.span_ends@, 0)
    }

    /// Takes a text as input.
    pub fn new(text: &str) -> (input: Input)
        ensures
            input.well_formed(),
            input@ == text@,
    {
        let chars = to_chars(text);
        let byte_len = text.as_bytes().len();
        assert(encode_utf8(chars@).len() == byte_len);
        let text_stops = next_table(&chars, ']');
        let href_stops = next_table(&chars, ')');
        let span_ends = span_ends_of(&chars, &text_stops, &href_stops);
        Input { chars, text_stops, href_stops, span_ends }
    }

    /// The number of characters.
    pub fn len(&self) -> (n: usize)
        ensures
            n == self@.len(),
    {
        self.chars.len()
    }
}

/// What an executable matcher of one span owes to the grammar: it matches
/// where the rule `m` matches, yields the same node, and stops `n`
/// characters behind `p`, inside the text.
pub open spec fn span_agrees(
    r: Option<(Inline, usize)>,
    m: Option<(InlineView, int)>,
    p: usize,
    len: nat,
) -> bool {
    match m {
        Some((v, n)) => r matches Some((node, q)) && inline_view(node) == v && q == p + n && p < q
            <= len,
        None => r is None,
    }
}

/// The same for a matcher of a whole line of spans.
pub open spec fn line_agrees(
    r: Option<(Vec<Inline>, usize)>,
    m: Option<(Seq<InlineView>, int)>,
    p: usize,
    len: nat,
) -> bool {
    match m {
        Some((v, n)) => r matches Some((items, q)) && inline_views(items@) == v && q == p + n && p
            < q <= len,
        None => r is None,
    }
}

/// A vector of `n` zeros.
fn zeros(n: usize) -> (v: Vec<usize>)
    ensures
        v@ == Seq::new(n as nat, |i: int| 0usize),
{
    let mut v: Vec<usize> = Vec::new();
    let mut i: usize = 0;
    while i < n
        invariant
            i <= n,
            v@ == Seq::new(i as nat, |j: int| 0usize),
        decreases n - i,
    {
        v.push(0);
        i += 1;
        assert(v@ =~= Seq::new(i as nat, |j: int| 0usize));
    }
    v
}

/// For every position of a text, where the next `c` stands.
pub fn next_table(s: &Vec<char>, c: char) -> (next: Vec<usize>)
    ensures
        next_known(s@, next@, c, 0),
{
    let mut next = zeros(s.len());
    next.push(s.len());
    let mut p: usize = s.len();
    while p > 0
        invariant
            p <= s.len(),
            next_known(s@, next@, c, p as int),
        decreases p,
    {
        p -= 1;
        let stop = if s[p] != c {
            next[p + 1]
        } else {
            p
        };
        next.set(p, stop);
    }
    next
}

/// Finds the parts of the link at `p`: where its text stops and where its
/// href stops.
pub(crate) fn link_parts(
    s: &Vec<char>,
    text_stops: &Vec<usize>,
    href_stops: &Vec<usize>,
    p: usize,
) -> (r: Option<(usize, usize)>)
    requires
        p <= s.len(),
        next_known(s@, text_stops@, ']', 0),
        next_known(s@, href_stops@, ')', 0),
    ensures
        match link(s@.skip(p as int)) {
            Some((v, n)) => r matches Some((text_end, href_end)) && p < text_end && text_end + 2
                <= href_end < s.len() && href_end + 1 == p + n && v == (InlineView::Link {
                text: s@.subrange(p + 1, text_end as int),
                href: s@.subrange(text_end + 2, href_end as int),
            }),
            None => r is None,
        },
{
    if p < s.len() && s[p] == '[' {
        let text_end = text_stops[p + 1];
        proof {
            lemma_count_bounds(s@.skip(p + 1), ']');
        }
        if s.len() - text_end >= 2 && s[text_end] == ']' && s[text_end + 1] == '(' {
            let href_end = href_stops[text_end + 2];
            proof {
                lemma_count_bounds(s@.skip(text_end + 2), ')');
            }
            if href_end < s.len() && s[href_end] == ')' {
                proof {
                    let rest = s@.skip(p as int);
                    let t = text_end - p - 1;
                    let h = href_end - text_end - 2;
                    assert(rest.subrange(1, 1 + t) =~= s@.subrange(p + 1, text_end as int));
                    assert(rest.subrange(3 + t, 3 + t + h) =~= s@.subrange(
                        text_end + 2,
                        href_end as int,
                    ));
                }
                return Some((text_end, href_end));
            }
        }
    }
    None
}

/// A sequence of spans is empty exactly where it consumed nothing.
proof fn lemma_spans_empty(s: Seq<char>)
    ensures
        inline_spans(s).0.len() == 0 <==> inline_spans(s).1 == 0,
        0 <= inline_spans(s).1 <= s.len(),
{
    lemma_inline_span_bounds(s);
}

/// The spans that begin at a character of plain text stop where those stop
/// that begin at the next character: either both lie in one run of text, or
/// the run ends between them.
proof fn lemma_text_char_step(s: Seq<char>)
    requires
        s.len() > 0,
        newline_len(s) == 0,
        !is_marker(s[0]),
    ensures
        inline_spans(s).1 == 1 + inline_spans(s.skip(1)).1,
{
    let n = text_len(s);
    let next = s.skip(1);
    lemma_count_bounds(next, ' ');
    assert(n == 1 + text_len(next));
    assert(link(s) is None);
    assert(bold(s) is None);
    assert(italic(s) is None);
    assert(inline_span(s) matches Some((_, k)) && k == n);
    assert(s.skip(n) =~= next.skip(n - 1));
    if n > 1 {
        assert(next[0] == s[1]);
        assert(link(next) is None);
        assert(bold(next) is None);
        assert(italic(next) is None);
        assert(inline_span(next) matches Some((_, k)) && k == n - 1);
    } else {
        assert(next.skip(0) =~= next);
    }
}

/// Where the bold span at `p` stops, or `p` where none begins there. The
/// table must be filled behind `p`.
fn bold_end_at(s: &Vec<char>, ends: &Vec<usize>, p: usize) -> (e: usize)
    requires
        p <= s.len(),
        ends_known(s@, ends@, p + 1),
    ensures
        p <= e <= s.len(),
        match bold(s@.skip(p as int)) {
            Some((_, n)) => e == p + n && n > 0,
            None => e == p,
        },
{
    if s.len() - p >= 2 && (s[p] == '*' || s[p] == '_') && s[p + 1] == s[p] {
        let mark = s[p];
        let q = ends[p + 2];
        proof {
            lemma_spans_empty(s@.skip(p + 2));
        }
        if q > p + 2 && s.len() - q >= 2 && s[q] == mark && s[q + 1] == mark {
            return q + 2;
        }
    }
    p
}

/// Where the italic span at `p` stops, or `p` where none begins there. The
/// table must be filled behind `p`.
fn italic_end_at(s: &Vec<char>, ends: &Vec<usize>, p: usize) -> (e: usize)
    requires
        p <= s.len(),
        ends_known(s@, ends@, p + 1),
    ensures
        p <= e <= s.len(),
        match italic(s@.skip(p as int)) {
            Some((_, n)) => e == p + n && n > 0,
            None => e == p,
        },
{
    if p < s.len() && (s[p] == '*' || s[p] == '_') {
        let mark = s[p];
        let q = ends[p + 1];
        proof {
            lemma_spans_empty(s@.skip(p + 1));
        }
        if q > p + 1 && q < s.len() && s[q] == mark {
            return q + 1;
        }
    }
    p
}

/// Where the span at `p` stops, or `p` where no span begins there, for a
/// position at which no plain text begins. The table must be filled behind
/// `p`.
fn marked_span_end_at(
    s: &Vec<char>,
    text_stops: &Vec<usize>,
    href_stops: &Vec<usize>,
    ends: &Vec<usize>,
    p: usize,
) -> (e: usize)
    requires
        p <= s.len(),
        text_len(s@.skip(p as int)) == 0,
        next_known(s@, text_stops@, ']', 0),
        next_known(s@, href_stops@, ')', 0),
        ends_known(s@, ends@, p + 1),
    ensures
        p <= e <= s.len(),
        match inline_span(s@.skip(p as int)) {
            Some((_, n)) => e == p + n && n > 0,
            None => e == p,
        },
{
    match link_parts(s, text_stops, href_stops, p) {
        Some((_, href_end)) => {
            return href_end + 1;
        },
        None => {},
    }
    let e = bold_end_at(s, ends, p);
    if e > p {
        return e;
    }
    italic_end_at(s, ends, p)
}

/// For every position of a text, where the spans that begin there stop.
pub(crate) fn span_ends_of(
    s: &Vec<char>,
    text_stops: &Vec<usize>,
    href_stops: &Vec<usize>,
) -> (ends: Vec<usize>)
    requires
        next_known(s@, text_stops@, ']', 0),
        next_known(s@, href_stops@, ')', 0),
    ensures
        ends_known(s@, ends@, 0),
{
    let mut ends = zeros(s.len());
    ends.push(s.len());
    let mut p: usize = s.len();
    proof {
        lemma_spans_empty(s@.skip(p as int));
    }
    while p > 0
        invariant
            p <= s.len(),
            next_known(s@, text_stops@, ']', 0),
            next_known(s@, href_stops@, ')', 0),
            ends_known(s@, ends@, p as int),
        decreases p,
    {
        p -= 1;
        let stop = if newline_at(s, p) == 0 && !marker_char(s[p]) {
            proof {
                lemma_text_char_step(s@.skip(p as int));
            }
            ends[p + 1]
        } else {
            let e = marked_span_end_at(s, text_stops, href_stops, &ends, p);
            if e > p {
                ends[e]
            } else {
                p
            }
        };
        ends.set(p, stop);
    }
    ends
}

/// Matches a link at `p`.
pub(crate) fn match_link(input: &Input, p: usize) -> (r: Option<(Inline, usize)>)
    requires
        input.well_formed(),
        p <= input@.len(),
    ensures
        span_agrees(r, link(input@.skip(p as int)), p, input@.len()),
{
    match link_parts(&input.chars, &input.text_stops, &input.href_stops, p) {
        Some((text_end, href_end)) => {
            let text = substring(&input.chars, p + 1, text_end);
            let href = substring(&input.chars, text_end + 2, href_end);
            Some((Inline::Link { text, href }, href_end + 1))
        },
        None => None,
    }
}

/// Matches one span at `p`: a link, else bold, else italic, else plain text.
pub(crate) fn match_span(input: &Input, p: usize) -> (r: Option<(Inline, usize)>)
    requires
        input.well_formed(),
        p <= input@.len(),
    ensures
        span_agrees(r, inline_span(input@.skip(p as int)), p, input@.len()),
    decreases input@.len() - p, 2int,
{
    let found = match_link(input, p);
    if found.is_some() {
        return found;
    }
    let found = match_bold(input, p);
    if found.is_some() {
        return found;
    }
    let found = match_italic(input, p);
    if found.is_some() {
        return found;
    }
    let q = skip_text(&input.chars, p);
    if q > p {
        let text = substring(&input.chars, p, q);
        assert(input@.skip(p as int).take(q - p) =~= input@.subrange(p as int, q as int));
        Some((Inline::Text(text), q))
    } else {
        None
    }
}

/// Matches a bold span at `p`.
pub(crate) fn match_bold(input: &Input, p: usize) -> (r: Option<(Inline, usize)>)
    requires
        input.well_formed(),
        p <= input@.len(),
    ensures
        span_agrees(r, bold(input@.skip(p as int)), p, input@.len()),
    decreases input@.len() - p, 1int,
{
    let s = &input.chars;
    if s.len() - p >= 2 && (s[p] == '*' || s[p] == '_') && s[p + 1] == s[p] {
        let mark = s[p];
        let stop = input.span_ends[p + 2];
        proof {
            lemma_spans_empty(s@.skip(p + 2));
        }
        if stop > p + 2 && s.len() - stop >= 2 && s[stop] == mark && s[stop + 1] == mark {
            let (items, q) = match_spans(input, p + 2);
            return Some((Inline::Bold(items), q + 2));
        }
    }
    None
}

/// Matches an italic span at `p`.
pub(crate) fn match_italic(input: &Input, p: usize) -> (r: Option<(Inline, usize)>)
    requires
        input.well_formed(),
        p <= input@.len(),
    ensures
        span_agrees(r, italic(input@.skip(p as int)), p, input@.len()),
    decreases input@.len() - p, 1int,
{
    let s = &input.chars;
    if p < s.len() && (s[p] == '*' || s[p] == '_') {
        let mark = s[p];
        let stop = input.span_ends[p + 1];
        proof {
            lemma_spans_empty(s@.skip(p + 1));
        }
        if stop > p + 1 && stop < s.len() && s[stop] == mark {
            let (items, q) = match_spans(input, p + 1);
            return Some((Inline::Italic(items), q + 1));
        }
    }
    None
}

/// Matches as many spans as follow one another from `p` on.
pub(crate) fn match_spans(input: &Input, p: usize) -> (r: (Vec<Inline>, usize))
    requires
        input.well_formed(),
        p <= input@.len(),
    ensures
        inline_views(r.0@) == inline_spans(input@.skip(p as int)).0,
        r.1 == p + inline_spans(input@.skip(p as int)).1,
        p <= r.1 <= input@.len(),
        r.0.len() == 0 ==> r.1 == p,
    decreases input@.len() - p, 3int,
{
    let mut items: Vec<Inline> = Vec::new();
    let mut q: usize = p;
    loop
        invariant
            input.well_formed(),
            p <= q <= input@.len(),
            items.len() == 0 ==> q == p,
            inline_spans(input@.skip(p as int)).0 == inline_views(items@) + inline_spans(
                input@.skip(q as int),
            ).0,
            inline_spans(input@.skip(p as int)).1 == (q - p) + inline_spans(
                input@.skip(q as int),
            ).1,
        ensures
            p <= q <= input@.len(),
            items.len() == 0 ==> q == p,
            inline_views(items@) == inline_spans(input@.skip(p as int)).0,
            q == p + inline_spans(input@.skip(p as int)).1,
        decreases input@.len() - q,
    {
        match match_span(input, q) {
            Some((node, next)) => {
                proof {
                    let rest = inline_spans(input@.skip(next as int)).0;
                    lemma_inline_views_push(items@, node);
                    assert(inline_views(items@) + (seq![inline_view(node)] + rest)
                        =~= inline_views(items@).push(inline_view(node)) + rest);
                }
                items.push(node);
                q = next;
            },
            None => {
                assert(inline_views(items@) + Seq::<InlineView>::empty() =~= inline_views(
                    items@,
                ));
                break ;
            },
        }
    }
    (items, q)
}

/// Matches one line of content at `p`: spans, then the end of the line.
pub(crate) fn match_line(input: &Input, p: usize) -> (r: Option<(Vec<Inline>, usize)>)
    requires
        input.well_formed(),
        p <= input@.len(),
    ensures
        line_agrees(r, line(input@.skip(p as int)), p, input@.len()),
{
    let (items, q) = match_spans(input, p);
    if items.len() > 0 {
        match line_end_at(&input.chars, q) {
            Some(end) => Some((items, end)),
            None => None,
        }
    } else {
        None
    }
}

} // verus!
