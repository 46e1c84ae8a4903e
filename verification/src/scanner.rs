//! The scanner: one left-to-right pass over the decoded characters of a
//! document, producing a finite token sequence. It never fails: malformed
//! inline constructs degrade to literal characters or are cut off at end of
//! input, so every input string scans.
//!
//! The meaning of a scan is fixed by the spec functions [`scan_spec`],
//! [`scan_from`] and [`scan_step`]: `scan_step` says which tokens one
//! dispatch step at a cursor position emits and where the cursor moves, and
//! `scan_from` chains steps to the end of the input.

use vstd::prelude::*;

use crate::text::chars_of;
use crate::text::escape_angles;
use crate::text::escaped;
use crate::text::no_angles;
use crate::tokens::Token;
use crate::tokens::TokenType;
use crate::tokens::TokenView;
use crate::tokens::char_tok;
use crate::tokens::token_views;

verus! {

/// The index of the first occurrence of `c` at or after `i`, or the length
/// of `s` if there is none.
pub open spec fn find_from(s: Seq<char>, i: int, c: char) -> int
    recommends
        0 <= i,
    decreases s.len() - i,
{
    if i >= s.len() {
        s.len() as int
    } else if s[i] == c {
        i
    } else {
        find_from(s, i + 1, c)
    }
}

/// The index just past the run of `c` starting at `i`: the first index at or
/// after `i` holding a different character, or the length of `s`.
pub open spec fn run_end(s: Seq<char>, i: int, c: char) -> int
    recommends
        0 <= i,
    decreases s.len() - i,
{
    if i >= s.len() || s[i] != c {
        i
    } else {
        run_end(s, i + 1, c)
    }
}

/// Whether position `i` is at column 0: the start of the input, or just
/// after a newline.
pub open spec fn at_line_start(s: Seq<char>, i: int) -> bool {
    i == 0 || s[i - 1] == '\n'
}

/// One `Char` token per character of `t`.
pub open spec fn char_toks(t: Seq<char>) -> Seq<TokenView> {
    t.map_values(|c: char| char_tok(c))
}

/// The dispatch step for a heading: `s[i]` is a `#` at column 0. The whole
/// run of `#` is consumed and capped at level three; one space after the
/// marker, if present, separates it from the title; the rest of the line is
/// the title. The heading token is followed by a `Br`, and the line
/// terminator, if present, is consumed with the line.
pub open spec fn heading_step(s: Seq<char>, i: int) -> (Seq<TokenView>, int)
    recommends
        0 <= i < s.len(),
        s[i] == '#',
{
    let he = run_end(s, i, '#');
    let level = if he - i >= 3 { 3int } else { he - i };
    let ts = if he < s.len() && s[he] == ' ' { he + 1 } else { he };
    let nl = find_from(s, ts, '\n');
    let title = s.subrange(ts, nl);
    let next = if nl < s.len() { nl + 1 } else { s.len() as int };
    let h = if level == 1 {
        TokenView::H1(title)
    } else if level == 2 {
        TokenView::H2(title)
    } else {
        TokenView::H3(title)
    };
    (seq![h, TokenView::Br], next)
}

/// The dispatch step for a link or an image, with the cursor on the opening
/// `[` (or on the `!` of `![`). The alt text runs to the next `]`, the url
/// to the next `)`. When the construct is complete a single `Link` or `Img`
/// token is emitted; when any closing delimiter is missing the consumed
/// characters degrade to literal `Char` tokens, so no input is lost and the
/// scan stays bounded.
pub open spec fn bracket_step(s: Seq<char>, i: int, img: bool) -> (Seq<TokenView>, int)
    recommends
        0 <= i < s.len(),
{
    let astart = if img { i + 2 } else { i + 1 };
    let rb = find_from(s, astart, ']');
    let alt = s.subrange(astart, rb);
    let intro = if img {
        seq![char_tok('!'), char_tok('[')]
    } else {
        seq![char_tok('[')]
    };
    if rb >= s.len() {
        (intro + char_toks(alt), s.len() as int)
    } else if rb + 1 < s.len() && s[rb + 1] == '(' {
        let rp = find_from(s, rb + 2, ')');
        let url = s.subrange(rb + 2, rp);
        if rp >= s.len() {
            (
                intro + char_toks(alt) + seq![char_tok(']'), char_tok('(')]
                    + char_toks(url),
                s.len() as int,
            )
        } else if img {
            (seq![TokenView::Img(alt, url)], rp + 1)
        } else {
            (seq![TokenView::Link(alt, url)], rp + 1)
        }
    } else {
        (intro + char_toks(alt) + seq![char_tok(']')], rb + 1)
    }
}

/// The dispatch step for emphasis, with the cursor on a `*`. A doubled `**`
/// scans to the next `*`: followed by a second `*` it is a `Bold` token,
/// otherwise the construct degrades to literal characters. A single `*`
/// scans to the next `*` and emits `Em`; an unterminated emphasis consumes
/// to end of input.
pub open spec fn star_step(s: Seq<char>, i: int) -> (Seq<TokenView>, int)
    recommends
        0 <= i < s.len(),
        s[i] == '*',
{
    if i + 1 < s.len() && s[i + 1] == '*' {
        let e = find_from(s, i + 2, '*');
        let content = s.subrange(i + 2, e);
        if e >= s.len() {
            (seq![char_tok('*'), char_tok('*')] + char_toks(content), s.len() as int)
        } else if e + 1 < s.len() && s[e + 1] == '*' {
            (seq![TokenView::Bold(content)], e + 2)
        } else {
            (
                seq![char_tok('*'), char_tok('*')] + char_toks(content)
                    + seq![char_tok('*')],
                e + 1,
            )
        }
    } else {
        let e = find_from(s, i + 1, '*');
        let content = s.subrange(i + 1, e);
        let next = if e < s.len() { e + 1 } else { s.len() as int };
        (seq![TokenView::Em(content)], next)
    }
}

/// The dispatch step for a code or pre span, with the cursor on the opening
/// delimiter. The content runs to the next matching delimiter, or to end of
/// input when there is none, and has `<` and `>` escaped.
pub open spec fn span_step(s: Seq<char>, i: int, delim: char) -> (Seq<TokenView>, int)
    recommends
        0 <= i < s.len(),
        s[i] == delim,
        delim == '`' || delim == '^',
{
    let e = find_from(s, i + 1, delim);
    let content = escaped(s.subrange(i + 1, e));
    let next = if e < s.len() { e + 1 } else { s.len() as int };
    let t = if delim == '`' {
        TokenView::Code(content)
    } else {
        TokenView::Pre(content)
    };
    (seq![t], next)
}

/// One dispatch step of the scanner at cursor position `i`: the tokens it
/// emits and the position the cursor moves to. Longest applicable match
/// wins; a `#` counts as a heading marker only at column 0.
pub open spec fn scan_step(s: Seq<char>, i: int) -> (Seq<TokenView>, int)
    recommends
        0 <= i < s.len(),
{
    let c = s[i];
    if c == '\n' {
        (seq![TokenView::Br], i + 1)
    } else if c == '#' && at_line_start(s, i) {
        heading_step(s, i)
    } else if c == '#' {
        (seq![char_tok('#')], i + 1)
    } else if c == '!' {
        if i + 1 < s.len() && s[i + 1] == '[' {
            bracket_step(s, i, true)
        } else {
            (seq![char_tok('!')], i + 1)
        }
    } else if c == '[' {
        bracket_step(s, i, false)
    } else if c == '-' {
        if i + 2 < s.len() && s[i + 1] == '-' && s[i + 2] == '-' {
            (seq![TokenView::Hr], i + 3)
        } else if i + 1 < s.len() && s[i + 1] == '-' {
            (seq![char_tok('-'), char_tok('-')], i + 2)
        } else {
            (seq![char_tok('-')], i + 1)
        }
    } else if c == '*' {
        star_step(s, i)
    } else if c == '`' {
        span_step(s, i, '`')
    } else if c == '^' {
        span_step(s, i, '^')
    } else {
        (seq![char_tok(c)], i + 1)
    }
}

/// The tokens emitted by scanning from position `i` to the end of the input.
/// The recursion steps by `scan_step`; the cursor position is clamped
/// forward so that the sequence is well defined for every argument, and
/// [`lemma_scan_step_bounds`] shows the clamp never takes effect.
pub open spec fn scan_from(s: Seq<char>, i: int) -> Seq<TokenView>
    decreases s.len() - i,
{
    if i < 0 || i >= s.len() {
        Seq::empty()
    } else {
        let step = scan_step(s, i);
        let next = if step.1 > i { step.1 } else { i + 1 };
        step.0 + scan_from(s, next)
    }
}

/// The token sequence of a whole document.
pub open spec fn scan_spec(s: Seq<char>) -> Seq<TokenView> {
    scan_from(s, 0)
}

/// `find_from` stays between its start and the length of the input.
pub proof fn lemma_find_from_bounds(s: Seq<char>, i: int, c: char)
    requires
        0 <= i <= s.len(),
    ensures
        i <= find_from(s, i, c) <= s.len(),
    decreases s.len() - i,
{
    if i < s.len() && s[i] != c {
        lemma_find_from_bounds(s, i + 1, c);
    }
}

/// `find_from` returns exactly the position `j` whose prefix from `i` is
/// free of `c` and which holds `c` or is the end of the input.
pub proof fn lemma_find_from_is(s: Seq<char>, i: int, j: int, c: char)
    requires
        0 <= i <= j <= s.len(),
        forall|m: int| i <= m < j ==> s[m] != c,
        j == s.len() || s[j] == c,
    ensures
        find_from(s, i, c) == j,
    decreases j - i,
{
    if i < j {
        lemma_find_from_is(s, i + 1, j, c);
    }
}

/// `run_end` stays between its start and the length of the input.
pub proof fn lemma_run_end_bounds(s: Seq<char>, i: int, c: char)
    requires
        0 <= i <= s.len(),
    ensures
        i <= run_end(s, i, c) <= s.len(),
    decreases s.len() - i,
{
    if i < s.len() && s[i] == c {
        lemma_run_end_bounds(s, i + 1, c);
    }
}

/// `run_end` returns exactly the position `j` up to which the input holds
/// `c` and which holds a different character or is the end of the input.
pub proof fn lemma_run_end_is(s: Seq<char>, i: int, j: int, c: char)
    requires
        0 <= i <= j <= s.len(),
        forall|m: int| i <= m < j ==> s[m] == c,
        j == s.len() || s[j] != c,
    ensures
        run_end(s, i, c) == j,
    decreases j - i,
{
    if i < j {
        lemma_run_end_is(s, i + 1, j, c);
    }
}

/// Every dispatch step moves the cursor strictly forward and at most to the
/// end of the input: the scan is bounded however malformed the input is.
pub proof fn lemma_scan_step_bounds(s: Seq<char>, i: int)
    requires
        0 <= i < s.len(),
    ensures
        i < scan_step(s, i).1 <= s.len(),
{
    let c = s[i];
    if c == '#' && at_line_start(s, i) {
        lemma_run_end_bounds(s, i, '#');
        let he = run_end(s, i, '#');
        assert(i < he) by {
            assert(run_end(s, i, '#') == run_end(s, i + 1, '#'));
            lemma_run_end_bounds(s, i + 1, '#');
        }
        let ts = if he < s.len() && s[he] == ' ' { he + 1 } else { he };
        lemma_find_from_bounds(s, ts, '\n');
    } else if c == '!' && i + 1 < s.len() && s[i + 1] == '[' {
        lemma_bracket_step_bounds(s, i, true);
    } else if c == '[' {
        lemma_bracket_step_bounds(s, i, false);
    } else if c == '*' {
        if i + 1 < s.len() && s[i + 1] == '*' {
            lemma_find_from_bounds(s, i + 2, '*');
        } else {
            lemma_find_from_bounds(s, i + 1, '*');
        }
    } else if c == '`' {
        lemma_find_from_bounds(s, i + 1, '`');
    } else if c == '^' {
        lemma_find_from_bounds(s, i + 1, '^');
    }
}

/// The bracket step moves the cursor strictly forward and at most to the end
/// of the input.
proof fn lemma_bracket_step_bounds(s: Seq<char>, i: int, img: bool)
    requires
        0 <= i < s.len(),
        img ==> i + 2 <= s.len(),
    ensures
        i < bracket_step(s, i, img).1 <= s.len(),
{
    let astart = if img { i + 2 } else { i + 1 };
    lemma_find_from_bounds(s, astart, ']');
    let rb = find_from(s, astart, ']');
    if rb < s.len() && rb + 1 < s.len() && s[rb + 1] == '(' {
        lemma_find_from_bounds(s, rb + 2, ')');
    }
}

/// Unfolding `scan_from` one step at a position inside the input.
pub proof fn lemma_scan_from_unfold(s: Seq<char>, i: int)
    requires
        0 <= i < s.len(),
    ensures
        scan_from(s, i) == scan_step(s, i).0 + scan_from(s, scan_step(s, i).1),
{
    lemma_scan_step_bounds(s, i);
}

/// Whether a character is none of the scanner's markup characters, so that
/// scanning it can only yield a literal `Char` token.
pub open spec fn plain_char(c: char) -> bool {
    c != '\n' && c != '#' && c != '!' && c != '[' && c != '-' && c != '*' && c != '`' && c != '^'
}

/// A text of plain characters scans to one literal `Char` token per
/// character.
pub proof fn lemma_scan_plain_text(s: Seq<char>, i: int)
    requires
        0 <= i <= s.len(),
        forall|j: int| 0 <= j < s.len() ==> plain_char(s[j]),
    ensures
        scan_from(s, i) == char_toks(s.skip(i)),
    decreases s.len() - i,
{
    if i >= s.len() {
        assert(scan_from(s, i) =~= char_toks(s.skip(i)));
    } else {
        assert(scan_step(s, i) == (seq![char_tok(s[i])], i + 1));
        lemma_scan_plain_text(s, i + 1);
        assert(scan_from(s, i) =~= char_toks(s.skip(i)));
    }
}

/// Whether a token that carries code or pre content carries it free of raw
/// angle brackets. Every other token satisfies this trivially.
pub open spec fn span_escaped(t: TokenView) -> bool {
    match t {
        TokenView::Code(code) => no_angles(code),
        TokenView::Pre(code) => no_angles(code),
        _ => true,
    }
}

/// Whether every token of a sequence satisfies [`span_escaped`].
pub open spec fn all_spans_escaped(ts: Seq<TokenView>) -> bool {
    forall|k: int| 0 <= k < ts.len() ==> span_escaped(ts[k])
}

/// `all_spans_escaped` distributes over concatenation.
proof fn lemma_all_spans_escaped_concat(a: Seq<TokenView>, b: Seq<TokenView>)
    requires
        all_spans_escaped(a),
        all_spans_escaped(b),
    ensures
        all_spans_escaped(a + b),
{
    assert forall|k: int| 0 <= k < (a + b).len() implies span_escaped((a + b)[k]) by {
        if k < a.len() {
            assert((a + b)[k] == a[k]);
        } else {
            assert((a + b)[k] == b[k - a.len()]);
        }
    }
}

/// Literal `Char` tokens carry no code or pre content.
proof fn lemma_all_spans_escaped_chars(t: Seq<char>)
    ensures
        all_spans_escaped(char_toks(t)),
{
    assert forall|k: int| 0 <= k < char_toks(t).len() implies span_escaped(char_toks(t)[k]) by {
        assert(char_toks(t)[k] == char_tok(t[k]));
    }
}

/// One dispatch step only emits code and pre tokens with escaped content.
proof fn lemma_scan_step_spans_escaped(s: Seq<char>, i: int)
    requires
        0 <= i < s.len(),
    ensures
        all_spans_escaped(scan_step(s, i).0),
{
    let c = s[i];
    let toks = scan_step(s, i).0;
    if c == '#' && at_line_start(s, i) {
        assert(all_spans_escaped(toks));
    } else if c == '!' && i + 1 < s.len() && s[i + 1] == '[' {
        lemma_bracket_step_spans_escaped(s, i, true);
    } else if c == '[' {
        lemma_bracket_step_spans_escaped(s, i, false);
    } else if c == '*' {
        lemma_star_step_spans_escaped(s, i);
    } else if c == '`' {
        crate::text::lemma_escaped_no_angles(s.subrange(i + 1, find_from(s, i + 1, '`')));
        assert(all_spans_escaped(toks));
    } else if c == '^' {
        crate::text::lemma_escaped_no_angles(s.subrange(i + 1, find_from(s, i + 1, '^')));
        assert(all_spans_escaped(toks));
    } else {
        assert(all_spans_escaped(toks));
    }
}

/// The bracket step only emits tokens without code or pre content.
proof fn lemma_bracket_step_spans_escaped(s: Seq<char>, i: int, img: bool)
    requires
        0 <= i < s.len(),
    ensures
        all_spans_escaped(bracket_step(s, i, img).0),
{
    let astart = if img { i + 2 } else { i + 1 };
    let rb = find_from(s, astart, ']');
    let alt = s.subrange(astart, rb);
    let intro = if img {
        seq![char_tok('!'), char_tok('[')]
    } else {
        seq![char_tok('[')]
    };
    lemma_all_spans_escaped_chars(alt);
    assert(all_spans_escaped(intro));
    if rb >= s.len() {
        lemma_all_spans_escaped_concat(intro, char_toks(alt));
    } else if rb + 1 < s.len() && s[rb + 1] == '(' {
        let rp = find_from(s, rb + 2, ')');
        let url = s.subrange(rb + 2, rp);
        lemma_all_spans_escaped_chars(url);
        if rp >= s.len() {
            lemma_all_spans_escaped_concat(intro, char_toks(alt));
            lemma_all_spans_escaped_concat(
                intro + char_toks(alt),
                seq![char_tok(']'), char_tok('(')],
            );
            lemma_all_spans_escaped_concat(
                intro + char_toks(alt) + seq![char_tok(']'), char_tok('(')],
                char_toks(url),
            );
        }
    } else {
        lemma_all_spans_escaped_concat(intro, char_toks(alt));
        lemma_all_spans_escaped_concat(intro + char_toks(alt), seq![char_tok(']')]);
    }
}

/// The emphasis step only emits tokens without code or pre content.
proof fn lemma_star_step_spans_escaped(s: Seq<char>, i: int)
    requires
        0 <= i < s.len(),
        s[i] == '*',
    ensures
        all_spans_escaped(star_step(s, i).0),
{
    if i + 1 < s.len() && s[i + 1] == '*' {
        let e = find_from(s, i + 2, '*');
        let content = s.subrange(i + 2, e);
        lemma_all_spans_escaped_chars(content);
        let stars = seq![char_tok('*'), char_tok('*')];
        assert(all_spans_escaped(stars));
        if e >= s.len() {
            lemma_all_spans_escaped_concat(stars, char_toks(content));
        } else if e + 1 < s.len() && s[e + 1] == '*' {
        } else {
            lemma_all_spans_escaped_concat(stars, char_toks(content));
            lemma_all_spans_escaped_concat(stars + char_toks(content), seq![char_tok('*')]);
        }
    }
}

/// Scanning from any position only emits code and pre tokens with escaped
/// content.
proof fn lemma_scan_from_spans_escaped(s: Seq<char>, i: int)
    ensures
        all_spans_escaped(scan_from(s, i)),
    decreases s.len() - i,
{
    if 0 <= i < s.len() {
        lemma_scan_from_unfold(s, i);
        lemma_scan_step_bounds(s, i);
        lemma_scan_step_spans_escaped(s, i);
        lemma_scan_from_spans_escaped(s, scan_step(s, i).1);
        lemma_all_spans_escaped_concat(scan_step(s, i).0, scan_from(s, scan_step(s, i).1));
    }
}

/// Every code and pre token of a scan carries escaped content: a raw `<` or
/// `>` never passes through a code or pre span, whatever the input.
pub proof fn lemma_scan_spans_escaped(s: Seq<char>)
    ensures
        all_spans_escaped(scan_spec(s)),
{
    lemma_scan_from_spans_escaped(s, 0);
}

/// The scanner state: the document, its decoded characters, the span of the
/// token being scanned (`start..current`), the current source line, and the
/// tokens emitted so far. The cursor is an index into decoded characters,
/// never a byte offset, so multi-byte characters are never split.
pub struct Scanner {
    pub source: String,
    pub chars: Vec<char>,
    pub start: usize,
    pub current: usize,
    pub line: usize,
    pub tokens: Vec<Token>,
}

impl Scanner {
    /// The scanner's internal invariant: the decoded characters mirror the
    /// source, and the token span lies inside them.
    pub open spec fn wf(&self) -> bool {
        &&& self.chars@ == self.source@
        &&& self.current <= self.chars@.len()
        &&& self.start <= self.current
        &&& 1 <= self.line
    }

    pub fn new(source: String) -> (s: Scanner)
        ensures
            s.wf(),
            s.source@ == source@,
            s.chars@ == source@,
            s.start == 0,
            s.current == 0,
            s.line == 1,
            s.tokens@ == Seq::<Token>::empty(),
    {
        let chars = chars_of(source.as_str());
        let s = Scanner { source, chars, start: 0, current: 0, line: 1, tokens: Vec::new() };
        proof {
            assert(s.tokens@ =~= Seq::<Token>::empty());
        }
        s
    }

    /// Whether the cursor has consumed the whole input.
    fn is_at_end(&self) -> (b: bool)
        ensures
            b == (self.current >= self.chars@.len()),
    {
        self.current >= self.chars.len()
    }

    /// Consumes and returns the character at the cursor.
    fn advance(&mut self) -> (c: char)
        requires
            old(self).wf(),
            old(self).current < old(self).chars@.len(),
        ensures
            final(self).wf(),
            c == old(self).chars@[old(self).current as int],
            final(self).current == old(self).current + 1,
            final(self).source == old(self).source,
            final(self).chars == old(self).chars,
            final(self).start == old(self).start,
            final(self).line == old(self).line,
            final(self).tokens == old(self).tokens,
    {
        let c = self.chars[self.current];
        if self.current < self.chars.len() {
            self.current = self.current + 1;
        }
        c
    }

    /// Whether the character at the cursor exists and equals `expected`.
    fn next_is(&self, expected: char) -> (b: bool)
        ensures
            b == (self.current < self.chars@.len() && self.chars@[self.current as int]
                == expected),
    {
        if self.current >= self.chars.len() {
            return false;
        }
        if self.chars[self.current] != expected {
            return false;
        }
        true
    }

    /// The character at the cursor, or `'\0'` at end of input.
    fn peek(&self) -> (c: char)
        ensures
            c == if self.current < self.chars@.len() {
                self.chars@[self.current as int]
            } else {
                '\0'
            },
    {
        if self.current >= self.chars.len() {
            return '\0';
        }
        self.chars[self.current]
    }

    /// The character one past the cursor, or `'\0'` if there is none.
    fn peek_next(&self) -> (c: char)
        ensures
            c == if self.current + 1 < self.chars@.len() {
                self.chars@[self.current as int + 1]
            } else {
                '\0'
            },
    {
        if self.current >= self.chars.len() {
            return '\0';
        }
        if self.current + 1 >= self.chars.len() {
            return '\0';
        }
        self.chars[self.current + 1]
    }

    /// The index of the first occurrence of `c` at or after `from`, or the
    /// length of the input if there is none.
    fn find(&self, from: usize, c: char) -> (r: usize)
        requires
            self.wf(),
            from <= self.chars@.len(),
        ensures
            r == find_from(self.chars@, from as int, c),
            from <= r <= self.chars@.len(),
            r < self.chars@.len() ==> self.chars@[r as int] == c,
            forall|m: int| from <= m < r ==> self.chars@[m] != c,
    {
        let n = self.chars.len();
        let mut k = from;
        while k < n
            invariant
                from <= k <= n,
                n == self.chars@.len(),
                forall|m: int| from <= m < k ==> self.chars@[m] != c,
            decreases n - k,
        {
            if self.chars[k] == c {
                proof {
                    lemma_find_from_is(self.chars@, from as int, k as int, c);
                }
                return k;
            }
            k = k + 1;
        }
        proof {
            lemma_find_from_is(self.chars@, from as int, k as int, c);
        }
        k
    }

    /// The text of the characters in `from..to`, as a string.
    fn text_range(&self, from: usize, to: usize) -> (r: String)
        requires
            self.wf(),
            from <= to <= self.chars@.len(),
        ensures
            r@ == self.chars@.subrange(from as int, to as int),
    {
        self.source.as_str().substring_char(from, to).to_owned()
    }

    /// The text of the characters in `from..to`, with `<` and `>` escaped.
    fn escaped_range(&self, from: usize, to: usize) -> (r: String)
        requires
            self.wf(),
            from <= to <= self.chars@.len(),
        ensures
            r@ == escaped(self.chars@.subrange(from as int, to as int)),
    {
        escape_angles(self.source.as_str().substring_char(from, to))
    }

    /// Emits one token of the given variant, carrying the text of the span
    /// being scanned and the current line for diagnostics.
    fn add_token(&mut self, toktype: TokenType)
        requires
            old(self).wf(),
        ensures
            final(self).wf(),
            final(self).source == old(self).source,
            final(self).chars == old(self).chars,
            final(self).start == old(self).start,
            final(self).current == old(self).current,
            final(self).line == old(self).line,
            final(self).tokens@.len() == old(self).tokens@.len() + 1,
            final(self).tokens@ == old(self).tokens@.push(final(self).tokens@.last()),
            final(self).tokens@.last().toktype == toktype,
            final(self).tokens@.last().lexeme@ == old(self).chars@.subrange(
                old(self).start as int,
                old(self).current as int,
            ),
            final(self).tokens@.last().line == old(self).line,
            token_views(final(self).tokens@) == token_views(old(self).tokens@).push(toktype@),
    {
        let text = self.source.as_str().substring_char(self.start, self.current).to_owned();
        let line = self.line;
        let t = Token::new(toktype, text, line);
        self.tokens.push(t);
        proof {
            assert(self.tokens@ =~= old(self).tokens@.push(self.tokens@.last()));
            assert(token_views(self.tokens@) =~= token_views(old(self).tokens@).push(
                self.tokens@.last().toktype@,
            ));
        }
    }

    /// Emits one literal `Char` token per character of `text`, in order.
    fn add_char_tokens(&mut self, text: &String)
        requires
            old(self).wf(),
        ensures
            final(self).wf(),
            final(self).source == old(self).source,
            final(self).chars == old(self).chars,
            final(self).start == old(self).start,
            final(self).current == old(self).current,
            final(self).line == old(self).line,
            token_views(final(self).tokens@) == token_views(old(self).tokens@) + char_toks(
                text@,
            ),
    {
        let ghost toks0 = self.tokens@;
        let n = text.as_str().unicode_len();
        let mut k: usize = 0;
        proof {
            assert(token_views(self.tokens@) =~= token_views(toks0) + char_toks(text@.take(0)));
        }
        while k < n
            invariant
                old(self).wf(),
                self.wf(),
                k <= n,
                n == text@.len(),
                self.source == old(self).source,
                self.chars == old(self).chars,
                self.start == old(self).start,
                self.current == old(self).current,
                self.line == old(self).line,
                toks0 == old(self).tokens@,
                token_views(self.tokens@) == token_views(toks0) + char_toks(
                    text@.take(k as int),
                ),
            decreases n - k,
        {
            let c = text.as_str().get_char(k);
            self.add_token(TokenType::Char(c));
            proof {
                assert(token_views(self.tokens@) =~= token_views(toks0) + char_toks(
                    text@.take(k + 1 as int),
                ));
            }
            k = k + 1;
        }
        proof {
            assert(text@.take(n as int) =~= text@);
        }
    }

    /// Scans a heading. The opening `#` at column 0 has just been consumed:
    /// the cursor stands one past the span start, which holds that `#`.
    fn scan_heading(&mut self)
        requires
            old(self).wf(),
            old(self).current == old(self).start + 1,
            old(self).start < old(self).chars@.len(),
            old(self).chars@[old(self).start as int] == '#',
        ensures
            final(self).wf(),
            final(self).source == old(self).source,
            final(self).chars == old(self).chars,
            token_views(final(self).tokens@) == token_views(old(self).tokens@) + heading_step(
                old(self).chars@,
                old(self).start as int,
            ).0,
            final(self).current == heading_step(old(self).chars@, old(self).start as int).1,
    {
        let ghost s = self.chars@;
        let ghost i = self.start as int;
        let ghost toks0 = self.tokens@;
        let ghost line0 = self.line;
        let mut level: usize = 1;
        while self.next_is('#')
            invariant
                self.wf(),
                self.source == old(self).source,
                self.chars == old(self).chars,
                self.chars@ == s,
                self.tokens == old(self).tokens,
                self.start == old(self).start,
                self.start == i,
                self.line == line0,
                i < self.current <= self.chars@.len(),
                forall|j: int| i <= j < self.current ==> s[j] == '#',
                1 <= level <= 3,
                level == if self.current - i >= 3 {
                    3int
                } else {
                    self.current - i
                },
            decreases self.chars@.len() - self.current,
        {
            self.advance();
            if level < 3 {
                level = level + 1;
            }
        }
        proof {
            lemma_run_end_is(s, i, self.current as int, '#');
        }
        let ghost he = self.current as int;
        if self.peek() == ' ' {
            self.advance();
        }
        let ghost ts = self.current as int;
        let nl = self.find(self.current, '\n');
        let title = self.text_range(self.current, nl);
        self.current = nl;
        let had_newline = self.next_is('\n');
        if had_newline {
            self.advance();
        }
        let h = if level == 1 {
            TokenType::H1(title)
        } else if level == 2 {
            TokenType::H2(title)
        } else {
            TokenType::H3(title)
        };
        proof {
            let step = heading_step(s, i);
            assert(run_end(s, i, '#') == he);
            assert(ts == if he < s.len() && s[he] == ' ' {
                he + 1
            } else {
                he
            });
            assert(step.1 == self.current);
            assert(h@ == step.0[0]);
        }
        self.add_token(h);
        self.add_token(TokenType::Br);
        if had_newline && self.line < usize::MAX {
            self.line = self.line + 1;
        }
        proof {
            let step = heading_step(s, i);
            assert(token_views(self.tokens@) =~= token_views(toks0) + step.0);
        }
    }

    /// Scans a link or an image. The opening `[` (after a `!` when `img` is
    /// set) has just been consumed: the cursor stands at the alt text.
    fn scan_bracket(&mut self, img: bool)
        requires
            old(self).wf(),
            old(self).start < old(self).chars@.len(),
            old(self).current == old(self).start + if img {
                2int
            } else {
                1int
            },
            old(self).current <= old(self).chars@.len(),
        ensures
            final(self).wf(),
            final(self).source == old(self).source,
            final(self).chars == old(self).chars,
            token_views(final(self).tokens@) == token_views(old(self).tokens@) + bracket_step(
                old(self).chars@,
                old(self).start as int,
                img,
            ).0,
            final(self).current == bracket_step(old(self).chars@, old(self).start as int, img).1,
    {
        let ghost s = self.chars@;
        let ghost i = self.start as int;
        let ghost toks0 = self.tokens@;
        let rb = self.find(self.current, ']');
        let alt = self.text_range(self.current, rb);
        self.current = rb;
        if self.next_is(']') {
            self.advance();
            if self.next_is('(') {
                self.advance();
                let rp = self.find(self.current, ')');
                let url = self.text_range(self.current, rp);
                self.current = rp;
                if self.next_is(')') {
                    self.advance();
                    if img {
                        self.add_token(TokenType::Img(alt, url));
                    } else {
                        self.add_token(TokenType::Link(alt, url));
                    }
                    proof {
                        assert(token_views(self.tokens@) =~= token_views(toks0) + bracket_step(
                            s,
                            i,
                            img,
                        ).0);
                    }
                } else {
                    if img {
                        self.add_token(TokenType::Char('!'));
                    }
                    self.add_token(TokenType::Char('['));
                    self.add_char_tokens(&alt);
                    self.add_token(TokenType::Char(']'));
                    self.add_token(TokenType::Char('('));
                    self.add_char_tokens(&url);
                    proof {
                        assert(token_views(self.tokens@) =~= token_views(toks0) + bracket_step(
                            s,
                            i,
                            img,
                        ).0);
                    }
                }
            } else {
                if img {
                    self.add_token(TokenType::Char('!'));
                }
                self.add_token(TokenType::Char('['));
                self.add_char_tokens(&alt);
                self.add_token(TokenType::Char(']'));
                proof {
                    assert(token_views(self.tokens@) =~= token_views(toks0) + bracket_step(
                        s,
                        i,
                        img,
                    ).0);
                }
            }
        } else {
            if img {
                self.add_token(TokenType::Char('!'));
            }
            self.add_token(TokenType::Char('['));
            self.add_char_tokens(&alt);
            proof {
                assert(token_views(self.tokens@) =~= token_views(toks0) + bracket_step(
                    s,
                    i,
                    img,
                ).0);
            }
        }
    }

    /// Scans bold or emphasis. The opening `*` has just been consumed: the
    /// cursor stands one past the span start, which holds that `*`.
    fn scan_star(&mut self)
        requires
            old(self).wf(),
            old(self).current == old(self).start + 1,
            old(self).start < old(self).chars@.len(),
            old(self).chars@[old(self).start as int] == '*',
        ensures
            final(self).wf(),
            final(self).source == old(self).source,
            final(self).chars == old(self).chars,
            token_views(final(self).tokens@) == token_views(old(self).tokens@) + star_step(
                old(self).chars@,
                old(self).start as int,
            ).0,
            final(self).current == star_step(old(self).chars@, old(self).start as int).1,
    {
        let ghost s = self.chars@;
        let ghost i = self.start as int;
        let ghost toks0 = self.tokens@;
        if self.next_is('*') {
            self.advance();
            let e = self.find(self.current, '*');
            let content = self.text_range(self.current, e);
            self.current = e;
            if self.next_is('*') {
                self.advance();
                if self.next_is('*') {
                    self.advance();
                    self.add_token(TokenType::Bold(content));
                    proof {
                        assert(token_views(self.tokens@) =~= token_views(toks0) + star_step(
                            s,
                            i,
                        ).0);
                    }
                } else {
                    self.add_token(TokenType::Char('*'));
                    self.add_token(TokenType::Char('*'));
                    self.add_char_tokens(&content);
                    self.add_token(TokenType::Char('*'));
                    proof {
                        assert(token_views(self.tokens@) =~= token_views(toks0) + star_step(
                            s,
                            i,
                        ).0);
                    }
                }
            } else {
                self.add_token(TokenType::Char('*'));
                self.add_token(TokenType::Char('*'));
                self.add_char_tokens(&content);
                proof {
                    assert(token_views(self.tokens@) =~= token_views(toks0) + star_step(s, i).0);
                }
            }
        } else {
            let e = self.find(self.current, '*');
            let content = self.text_range(self.current, e);
            self.current = e;
            if self.next_is('*') {
                self.advance();
            }
            self.add_token(TokenType::Em(content));
            proof {
                assert(token_views(self.tokens@) =~= token_views(toks0) + star_step(s, i).0);
            }
        }
    }

    /// Scans a code or pre span. The opening delimiter has just been
    /// consumed: the cursor stands one past the span start, which holds it.
    fn scan_span(&mut self, delim: char)
        requires
            old(self).wf(),
            old(self).current == old(self).start + 1,
            old(self).start < old(self).chars@.len(),
            old(self).chars@[old(self).start as int] == delim,
            delim == '`' || delim == '^',
        ensures
            final(self).wf(),
            final(self).source == old(self).source,
            final(self).chars == old(self).chars,
            token_views(final(self).tokens@) == token_views(old(self).tokens@) + span_step(
                old(self).chars@,
                old(self).start as int,
                delim,
            ).0,
            final(self).current == span_step(old(self).chars@, old(self).start as int, delim).1,
    {
        let ghost s = self.chars@;
        let ghost i = self.start as int;
        let ghost toks0 = self.tokens@;
        let e = self.find(self.current, delim);
        let content = self.escaped_range(self.current, e);
        self.current = e;
        if self.next_is(delim) {
            self.advance();
        }
        if delim == '`' {
            self.add_token(TokenType::Code(content));
        } else {
            self.add_token(TokenType::Pre(content));
        }
        proof {
            assert(token_views(self.tokens@) =~= token_views(toks0) + span_step(s, i, delim).0);
        }
    }

    /// Scans one token at the cursor: emits the tokens of one dispatch step
    /// and moves the cursor strictly forward, exactly as [`scan_step`] says.
    pub fn scan_token(&mut self)
        requires
            old(self).wf(),
            old(self).current < old(self).chars@.len(),
        ensures
            final(self).wf(),
            final(self).source == old(self).source,
            final(self).chars == old(self).chars,
            token_views(final(self).tokens@) == token_views(old(self).tokens@) + scan_step(
                old(self).chars@,
                old(self).current as int,
            ).0,
            final(self).current == scan_step(old(self).chars@, old(self).current as int).1,
    {
        let ghost s = self.chars@;
        let ghost i = self.current as int;
        let ghost toks0 = self.tokens@;
        self.start = self.current;
        let c = self.advance();
        match c {
            '\n' => {
                self.add_token(TokenType::Br);
                if self.line < usize::MAX {
                    self.line = self.line + 1;
                }
                proof {
                    assert(token_views(self.tokens@) =~= token_views(toks0) + scan_step(s, i).0);
                }
            },
            '#' => {
                if self.start == 0 || self.chars[self.start - 1] == '\n' {
                    self.scan_heading();
                } else {
                    self.add_token(TokenType::Char('#'));
                    proof {
                        assert(!at_line_start(s, i));
                        assert(token_views(self.tokens@) =~= token_views(toks0) + scan_step(
                            s,
                            i,
                        ).0);
                    }
                }
            },
            '!' => {
                if self.next_is('[') {
                    self.advance();
                    self.scan_bracket(true);
                } else {
                    self.add_token(TokenType::Char('!'));
                    proof {
                        assert(token_views(self.tokens@) =~= token_views(toks0) + scan_step(
                            s,
                            i,
                        ).0);
                    }
                }
            },
            '[' => {
                self.scan_bracket(false);
            },
            '-' => {
                if self.peek() == '-' && self.peek_next() == '-' {
                    self.advance();
                    self.advance();
                    self.add_token(TokenType::Hr);
                    proof {
                        assert(token_views(self.tokens@) =~= token_views(toks0) + scan_step(
                            s,
                            i,
                        ).0);
                    }
                } else if self.peek() == '-' {
                    self.advance();
                    self.add_token(TokenType::Char('-'));
                    self.add_token(TokenType::Char('-'));
                    proof {
                        assert(token_views(self.tokens@) =~= token_views(toks0) + scan_step(
                            s,
                            i,
                        ).0);
                    }
                } else {
                    self.add_token(TokenType::Char('-'));
                    proof {
                        assert(token_views(self.tokens@) =~= token_views(toks0) + scan_step(
                            s,
                            i,
                        ).0);
                    }
                }
            },
            '*' => {
                self.scan_star();
            },
            '`' => {
                self.scan_span('`');
            },
            '^' => {
                self.scan_span('^');
            },
            x => {
                self.add_token(TokenType::Char(x));
                proof {
                    assert(token_views(self.tokens@) =~= token_views(toks0) + scan_step(s, i).0);
                }
            },
        }
    }

    /// Scans the whole remaining input, appending the token sequence that
    /// [`scan_from`] assigns to it; afterwards the cursor stands at the end.
    pub fn scan_tokens(&mut self)
        requires
            old(self).wf(),
        ensures
            final(self).wf(),
            final(self).source == old(self).source,
            final(self).chars == old(self).chars,
            token_views(final(self).tokens@) == token_views(old(self).tokens@) + scan_from(
                old(self).chars@,
                old(self).current as int,
            ),
            final(self).current == final(self).chars@.len(),
    {
        let ghost s = self.chars@;
        let ghost i0 = self.current as int;
        let ghost toks0 = self.tokens@;
        while !self.is_at_end()
            invariant
                self.wf(),
                self.source == old(self).source,
                self.chars == old(self).chars,
                self.chars@ == s,
                toks0 == old(self).tokens@,
                token_views(toks0) + scan_from(s, i0) == token_views(self.tokens@) + scan_from(
                    s,
                    self.current as int,
                ),
            decreases self.chars@.len() - self.current,
        {
            proof {
                lemma_scan_from_unfold(s, self.current as int);
                lemma_scan_step_bounds(s, self.current as int);
            }
            let ghost before = self.tokens@;
            let ghost cur = self.current as int;
            self.scan_token();
            proof {
                assert(token_views(before) + scan_from(s, cur) =~= token_views(self.tokens@)
                    + scan_from(s, self.current as int));
            }
        }
        proof {
            assert(scan_from(s, self.current as int) =~= Seq::<TokenView>::empty());
            assert(token_views(self.tokens@) =~= token_views(self.tokens@) + scan_from(
                s,
                self.current as int,
            ));
            assert(token_views(self.tokens@) =~= token_views(toks0) + scan_from(s, i0));
        }
    }
}

} // verus!
