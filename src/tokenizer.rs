//! Quote-aware splitting of one line into lexical tokens, and the
//! classification of a token as a data name or a keyword.

use crate::text::{chars_of, string_of};
use vstd::prelude::*;

verus! {

/// Space and tab separate tokens.
pub open spec fn is_blank(c: char) -> bool {
    c == ' ' || c == '\t'
}

pub open spec fn is_quote_char(c: char) -> bool {
    c == '\'' || c == '"'
}

/// A quote opens a quoted token only at the start of the line or after a blank.
pub open spec fn opens_quote(c: Seq<char>, i: int, in_quote: bool) -> bool {
    is_quote_char(c[i]) && !in_quote && (i == 0 || is_blank(c[i - 1]))
}

/// The open quote character closes only at the end of the line or before a blank.
pub open spec fn closes_quote(c: Seq<char>, i: int, in_quote: bool, quote: char) -> bool {
    in_quote && c[i] == quote && (i == c.len() - 1 || is_blank(c[i + 1]))
}

/// Ends the token that started at `start`, if it holds any character.
pub open spec fn close_span(spans: Seq<(int, int, bool)>, start: int, end: int, quoted: bool) -> Seq<
    (int, int, bool),
> {
    if start < end {
        spans.push((start, end, quoted))
    } else {
        spans
    }
}

/// The spans `(start, end, quoted)` of the tokens of `c`, scanning from `i` with
/// `spans` found so far, the pending token starting at `start`, and the quote state.
pub open spec fn scan(
    c: Seq<char>,
    i: int,
    spans: Seq<(int, int, bool)>,
    start: int,
    quoted: bool,
    in_quote: bool,
    quote: char,
) -> Seq<(int, int, bool)>
    decreases c.len() - i,
{
    if i >= c.len() {
        close_span(spans, start, c.len() as int, quoted)
    } else if opens_quote(c, i, in_quote) {
        scan(c, i + 1, spans, start, true, true, c[i])
    } else if closes_quote(c, i, in_quote, quote) {
        scan(c, i + 1, spans, start, quoted, false, quote)
    } else if !in_quote && is_blank(c[i]) {
        scan(c, i + 1, close_span(spans, start, i, quoted), i + 1, false, false, quote)
    } else if !in_quote && c[i] == '#' {
        close_span(spans, start, i, quoted)
    } else {
        scan(c, i + 1, spans, start, quoted, in_quote, quote)
    }
}

/// The token spans of a line.
pub open spec fn split_spans(c: Seq<char>) -> Seq<(int, int, bool)> {
    scan(c, 0, seq![], 0, false, false, ' ')
}

/// The tokens of a line: their text and whether each opened with a quote.
pub open spec fn split_spec(c: Seq<char>) -> Seq<(Seq<char>, bool)> {
    split_spans(c).map_values(|s: (int, int, bool)| (c.subrange(s.0, s.1), s.2))
}

/// Every span is a non-empty range of the line.
pub open spec fn spans_in(spans: Seq<(int, int, bool)>, n: int) -> bool {
    forall|k: int| 0 <= k < spans.len() ==> 0 <= #[trigger] spans[k].0 < spans[k].1 <= n
}

proof fn lemma_scan_in(
    c: Seq<char>,
    i: int,
    spans: Seq<(int, int, bool)>,
    start: int,
    quoted: bool,
    in_quote: bool,
    quote: char,
)
    requires
        0 <= start <= i <= c.len(),
        spans.len() <= start,
        spans_in(spans, c.len() as int),
    ensures
        spans_in(scan(c, i, spans, start, quoted, in_quote, quote), c.len() as int),
        scan(c, i, spans, start, quoted, in_quote, quote).len() <= c.len(),
    decreases c.len() - i,
{
    if i >= c.len() {
    } else if opens_quote(c, i, in_quote) {
        lemma_scan_in(c, i + 1, spans, start, true, true, c[i]);
    } else if closes_quote(c, i, in_quote, quote) {
        lemma_scan_in(c, i + 1, spans, start, quoted, false, quote);
    } else if !in_quote && is_blank(c[i]) {
        let next = close_span(spans, start, i, quoted);
        assert forall|k: int| 0 <= k < next.len() implies 0 <= #[trigger] next[k].0 < next[k].1
            <= c.len() by {
            if k < spans.len() {
                assert(next[k] == spans[k]);
            }
        }
        lemma_scan_in(c, i + 1, close_span(spans, start, i, quoted), i + 1, false, false, quote);
    } else if !in_quote && c[i] == '#' {
    } else {
        lemma_scan_in(c, i + 1, spans, start, quoted, in_quote, quote);
    }
}

/// The token spans of a line are non-empty ranges within it, at most one per character.
pub proof fn lemma_split_spans_in(c: Seq<char>)
    ensures
        spans_in(split_spans(c), c.len() as int),
        split_spans(c).len() <= c.len(),
{
    lemma_scan_in(c, 0, seq![], 0, false, false, ' ');
}

/// A token located in a line: the characters `[start, end)`.
#[derive(Clone, Copy, Debug)]
pub struct Span {
    pub start: usize,
    pub end: usize,
    pub quoted: bool,
}

pub open spec fn span_view(s: Span) -> (int, int, bool) {
    (s.start as int, s.end as int, s.quoted)
}

pub open spec fn spans_view(v: Seq<Span>) -> Seq<(int, int, bool)> {
    v.map_values(|s: Span| span_view(s))
}

/// The token spans of the characters `c`.
pub fn split_spans_of(c: &Vec<char>) -> (r: Vec<Span>)
    ensures
        spans_view(r@) == split_spans(c@),
        spans_in(split_spans(c@), c@.len() as int),
        r@.len() <= c@.len(),
{
    proof {
        lemma_split_spans_in(c@);
    }
    let n = c.len();
    let mut spans: Vec<Span> = Vec::new();
    let mut start: usize = 0;
    let mut quoted = false;
    let mut in_quote = false;
    let mut quote = ' ';
    let mut i: usize = 0;
    let mut done = false;
    assert(spans_view(spans@) =~= seq![]);
    while !done && i < n
        invariant
            n == c@.len(),
            start <= i <= n,
            done ==> !in_quote && i < n && c@[i as int] == '#',
            (if done {
                close_span(spans_view(spans@), start as int, i as int, quoted)
            } else {
                scan(c@, i as int, spans_view(spans@), start as int, quoted, in_quote, quote)
            }) == split_spans(c@),
        decreases n - i + (if done { 0int } else { 1int }),
    {
        let ch = c[i];
        if (ch == '\'' || ch == '"') && !in_quote && (i == 0 || c[i - 1] == ' ' || c[i - 1]
            == '\t') {
            in_quote = true;
            quote = ch;
            quoted = true;
            i += 1;
        } else if in_quote && ch == quote && (i + 1 == n || c[i + 1] == ' ' || c[i + 1] == '\t') {
            in_quote = false;
            i += 1;
        } else if !in_quote && (ch == ' ' || ch == '\t') {
            if start < i {
                let ghost before = spans@;
                spans.push(Span { start, end: i, quoted });
                assert(spans_view(spans@) =~= spans_view(before).push((start as int, i as int, quoted)));
            }
            start = i + 1;
            quoted = false;
            i += 1;
        } else if !in_quote && ch == '#' {
            done = true;
        } else {
            i += 1;
        }
    }
    if start < i {
        let ghost before = spans@;
        spans.push(Span { start, end: i, quoted });
        assert(spans_view(spans@) =~= spans_view(before).push((start as int, i as int, quoted)));
    }
    spans
}

pub open spec fn pairs_view(v: Seq<(String, bool)>) -> Seq<(Seq<char>, bool)> {
    v.map_values(|p: (String, bool)| (p.0@, p.1))
}

/// Splits a line into its tokens, each with whether it is quoted. Blanks
/// outside quotes separate tokens; a `#` outside quotes ends the line.
pub fn special_split(content: &str) -> (r: Vec<(String, bool)>)
    ensures
        pairs_view(r@) == split_spec(content@),
{
    let c = chars_of(content);
    let spans = split_spans_of(&c);
    let mut out: Vec<(String, bool)> = Vec::new();
    let mut k: usize = 0;
    while k < spans.len()
        invariant
            k <= spans@.len(),
            c@ == content@,
            spans_view(spans@) == split_spans(c@),
            spans_in(split_spans(c@), c@.len() as int),
            pairs_view(out@) =~= split_spec(c@).subrange(0, k as int),
        decreases spans@.len() - k,
    {
        let sp = spans[k];
        assert(spans_view(spans@)[k as int] == span_view(sp));
        assert(split_spec(c@)[k as int] == (c@.subrange(sp.start as int, sp.end as int), sp.quoted));
        let s = string_of(&c, sp.start, sp.end);
        let ghost before = out@;
        out.push((s, sp.quoted));
        assert(pairs_view(out@) =~= pairs_view(before).push((s@, sp.quoted)));
        k += 1;
    }
    out
}

/// A data name is an unquoted token starting with `_`.
pub open spec fn data_name_spec(token: Seq<char>, is_quoted: bool) -> bool {
    !is_quoted && token.len() > 0 && token[0] == '_'
}

pub fn is_data_name(token: &str, is_quoted: bool) -> (r: bool)
    ensures
        r == data_name_spec(token@, is_quoted),
{
    !is_quoted && !token.is_empty() && token.get_char(0) == '_'
}

pub open spec fn loop_word() -> Seq<char> {
    seq!['l', 'o', 'o', 'p', '_']
}

pub open spec fn global_word() -> Seq<char> {
    seq!['g', 'l', 'o', 'b', 'a', 'l', '_']
}

pub open spec fn data_word() -> Seq<char> {
    seq!['d', 'a', 't', 'a', '_']
}

pub open spec fn save_word() -> Seq<char> {
    seq!['s', 'a', 'v', 'e', '_']
}

pub open spec fn has_prefix(s: Seq<char>, p: Seq<char>) -> bool {
    p.len() <= s.len() && s.subrange(0, p.len() as int) == p
}

/// The loop keyword is the unquoted token `loop_`.
pub open spec fn loop_keyword_spec(token: Seq<char>, is_quoted: bool) -> bool {
    !is_quoted && token == loop_word()
}

/// A block keyword is the unquoted `global_`, or an unquoted token starting
/// with `data_` or `save_`.
pub open spec fn block_keyword_spec(token: Seq<char>, is_quoted: bool) -> bool {
    !is_quoted && (token == global_word() || has_prefix(token, data_word()) || has_prefix(
        token,
        save_word(),
    ))
}

/// Whether `s` starts with `p`.
pub fn starts_with_chars(s: &Vec<char>, p: &Vec<char>) -> (r: bool)
    ensures
        r == has_prefix(s@, p@),
{
    if p.len() > s.len() {
        return false;
    }
    let mut i: usize = 0;
    while i < p.len()
        invariant
            p@.len() <= s@.len(),
            i <= p@.len(),
            forall|j: int| 0 <= j < i ==> s@[j] == p@[j],
        decreases p@.len() - i,
    {
        if s[i] != p[i] {
            assert(s@.subrange(0, p@.len() as int)[i as int] != p@[i as int]);
            return false;
        }
        i += 1;
    }
    assert(s@.subrange(0, p@.len() as int) =~= p@);
    true
}

/// Whether `s` holds exactly the characters of `p`.
pub fn equals_chars(s: &Vec<char>, p: &Vec<char>) -> (r: bool)
    ensures
        r == (s@ == p@),
{
    if s.len() != p.len() {
        return false;
    }
    let r = starts_with_chars(s, p);
    assert(s@.subrange(0, s@.len() as int) =~= s@);
    r
}

pub fn is_loop_keyword(token: &str, is_quoted: bool) -> (r: bool)
    ensures
        r == loop_keyword_spec(token@, is_quoted),
{
    loop_keyword_chars(&chars_of(token), is_quoted)
}

pub fn is_block_keyword(token: &str, is_quoted: bool) -> (r: bool)
    ensures
        r == block_keyword_spec(token@, is_quoted),
{
    block_keyword_chars(&chars_of(token), is_quoted)
}

pub fn data_name_chars(c: &Vec<char>, is_quoted: bool) -> (r: bool)
    ensures
        r == data_name_spec(c@, is_quoted),
{
    !is_quoted && c.len() > 0 && c[0] == '_'
}

pub fn loop_keyword_chars(c: &Vec<char>, is_quoted: bool) -> (r: bool)
    ensures
        r == loop_keyword_spec(c@, is_quoted),
{
    if is_quoted {
        return false;
    }
    let word = vec!['l', 'o', 'o', 'p', '_'];
    assert(word@ =~= loop_word());
    equals_chars(c, &word)
}

pub fn block_keyword_chars(c: &Vec<char>, is_quoted: bool) -> (r: bool)
    ensures
        r == block_keyword_spec(c@, is_quoted),
{
    if is_quoted {
        return false;
    }
    let global = vec!['g', 'l', 'o', 'b', 'a', 'l', '_'];
    let data = vec!['d', 'a', 't', 'a', '_'];
    let save = vec!['s', 'a', 'v', 'e', '_'];
    assert(global@ =~= global_word());
    assert(data@ =~= data_word());
    assert(save@ =~= save_word());
    equals_chars(c, &global) || starts_with_chars(c, &data) || starts_with_chars(c, &save)
}

} // verus!
