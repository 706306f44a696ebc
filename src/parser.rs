//! The line-by-line state machine that turns a text into loop blocks and
//! highlight tokens.

use crate::lines::{
    line_spans, solid_from, spans_ordered, split_lines, text_lines, trim_bounds, trimmed,
};
use crate::names::{data_name_dot, is_ident_char, name_shape, qualified_name};
use crate::text::{chars_of, slice_chars, string_of};
use crate::tokenizer::{
    block_keyword_chars, data_name_chars, loop_keyword_chars, span_view, spans_in, spans_view,
    split_spans, split_spans_of, split_spec, Span, block_keyword_spec, data_name_spec, loop_keyword_spec,
};
use crate::{DataLine, Item, LoopBlock, ParseResult, Token, ValueRange};
use vstd::prelude::*;

verus! {

/// Token class of a category name.
pub const CATEGORY: u8 = 1;

/// First of the rotating classes that color fields and values.
pub const ROTATE_BASE: u8 = 2;

/// Number of rotating classes.
pub const ROTATE_SPAN: usize = 7;

/// Token class of the `loop_` keyword.
pub const LOOP_KEYWORD: u8 = 6;

/// Token class of a `data_`, `save_` or `global_` heading.
pub const HEADING: u8 = 8;

/// Token class of a comment line.
pub const COMMENT: u8 = 10;

/// The classes a token can have.
pub open spec fn valid_token_type(t: u8) -> bool {
    1 <= t <= 8 || t == 10
}

/// The number of columns values of a block rotate through.
pub open spec fn field_count(b: LoopBlock) -> int {
    if b.items@.len() > 0 {
        b.items@.len() as int
    } else {
        1
    }
}

/// Every value of the line lies in one of `n` columns.
pub open spec fn line_in_columns(d: DataLine, n: int) -> bool {
    forall|j: int| 0 <= j < d.value_ranges@.len() ==> #[trigger] d.value_ranges@[j].column_index < n
}

/// Every value of the block lies in one of its columns.
pub open spec fn columns_bounded(b: LoopBlock) -> bool {
    forall|i: int| 0 <= i < b.data_lines@.len() ==> line_in_columns(#[trigger] b.data_lines@[i], field_count(b))
}

/// Each span is non-empty and, shifted by `a`, ends within `n`.
pub open spec fn spans_fit(spans: Seq<Span>, a: int, n: int) -> bool {
    forall|k: int| 0 <= k < spans.len() ==> #[trigger] spans[k].start < spans[k].end && a + spans[k].end <= n
}

proof fn lemma_spans_fit(spans: Seq<Span>, tr: Seq<char>, a: int, n: int)
    requires
        spans_view(spans) == split_spans(tr),
        spans_in(split_spans(tr), tr.len() as int),
        0 <= a,
        a + tr.len() <= n,
    ensures
        spans_fit(spans, a, n),
        forall|k: int| 0 <= k < spans.len() ==> #[trigger] spans[k].start < spans[k].end <= tr.len(),
{
    assert(spans_view(spans).len() == spans.len());
    assert forall|k: int| 0 <= k < spans.len() implies #[trigger] spans[k].start < spans[k].end
        && a + spans[k].end <= n && spans[k].end <= tr.len() by {
        assert(spans_view(spans)[k] == span_view(spans[k]));
        assert(0 <= split_spans(tr)[k].0 < split_spans(tr)[k].1 <= tr.len());
    }
}

/// What a line is, by the order in which the parser tells lines apart.
pub enum LineKind {
    Comment,
    Delimiter,
    InString,
    Blank,
    NoTokens,
    Heading,
    LoopStart,
    FieldName,
    OtherName,
    Values,
}

/// The first token of a line that holds one: its text and whether it is quoted.
pub open spec fn first_token(l: Seq<char>) -> (Seq<char>, bool) {
    split_spec(trimmed(l))[0]
}

/// Where the first token of a line starts.
pub open spec fn first_start(l: Seq<char>) -> int {
    solid_from(l, 0) + split_spans(trimmed(l))[0].0
}

/// The dot of a `_category.field` name.
pub open spec fn name_dot(t: Seq<char>) -> int {
    choose|d: int| name_shape(t, d)
}

/// The kind of line `l`, inside a multi-line string or not.
pub open spec fn line_kind(l: Seq<char>, in_string: bool) -> LineKind {
    if l.len() > 0 && l[0] == '#' {
        LineKind::Comment
    } else if l.len() > 0 && l[0] == ';' {
        LineKind::Delimiter
    } else if in_string {
        LineKind::InString
    } else if trimmed(l).len() == 0 {
        LineKind::Blank
    } else if split_spec(trimmed(l)).len() == 0 {
        LineKind::NoTokens
    } else {
        let (t, q) = first_token(l);
        if block_keyword_spec(t, q) {
            LineKind::Heading
        } else if loop_keyword_spec(t, q) {
            LineKind::LoopStart
        } else if data_name_spec(t, q) {
            if exists|d: int| name_shape(t, d) {
                LineKind::FieldName
            } else {
                LineKind::OtherName
            }
        } else {
            LineKind::Values
        }
    }
}

proof fn lemma_name_dot(t: Seq<char>, d: int)
    requires
        name_shape(t, d),
    ensures
        name_dot(t) == d,
{
    let e = name_dot(t);
    assert(name_shape(t, e));
    if e < d {
        assert(is_ident_char(t[e]));
    } else if e > d {
        assert(is_ident_char(t[d]));
    }
}

/// How reading line `ln`, whose characters are `l`, takes state `s0` to `s1`.
pub open spec fn line_step(s0: ParserState, s1: ParserState, ln: usize, l: Seq<char>) -> bool {
    &&& s0.step_ok(&s1, ln as int, l.len() as int)
    &&& match line_kind(l, s0.multi_line) {
        LineKind::Comment => {
            &&& s1.tokens@ == s0.tokens@.push(
                Token {
                    line: ln,
                    start: 0,
                    length: l.len() as usize,
                    token_type: COMMENT,
                    item_name: None,
                },
            )
            &&& s1.multi_line == s0.multi_line
            &&& s0.keeps_run(&s1)
            &&& s0.comment_ends_block() ==> s1.current is None && s1.loops@ == s0.flushed()
            &&& !s0.comment_ends_block() ==> s1.current == s0.current && s1.loops == s0.loops
        },
        LineKind::Delimiter => s0.delimiter_effect(&s1, ln, l.len() as usize),
        LineKind::InString => s0.string_effect(&s1, ln, l.len() as usize),
        LineKind::Blank => s0.blank_effect(&s1),
        LineKind::NoTokens => s0.unchanged(&s1),
        LineKind::Heading => s0.heading_effect(
            &s1,
            ln,
            first_start(l) as usize,
            first_token(l).0.len() as usize,
        ),
        LineKind::LoopStart => s0.loop_effect(
            &s1,
            ln,
            first_start(l) as usize,
            first_token(l).0.len() as usize,
        ),
        LineKind::FieldName => s0.field_effect(
            &s1,
            ln,
            first_start(l),
            first_token(l).0,
            name_dot(first_token(l).0),
            if split_spans(trimmed(l)).len() > 1 {
                Some(
                    (
                        solid_from(l, 0) + split_spans(trimmed(l))[1].0,
                        split_spans(trimmed(l))[1].1 - split_spans(trimmed(l))[1].0,
                    ),
                )
            } else {
                None
            },
        ),
        LineKind::OtherName => s0.loose_name_effect(
            &s1,
            ln,
            first_start(l) as usize,
            first_token(l).0.len() as usize,
        ),
        LineKind::Values => s0.value_effect(
            &s1,
            ln,
            solid_from(l, 0),
            split_spans(trimmed(l)),
        ),
    }
}

/// A trace of the states of a parse of `c`: the start state, then one state
/// after each line.
pub open spec fn parse_trace(trace: Seq<ParserState>, c: Seq<char>) -> bool {
    &&& trace.len() == text_lines(c).len() + 1
    &&& trace[0].loops@.len() == 0
    &&& trace[0].tokens@.len() == 0
    &&& trace[0].current is None
    &&& !trace[0].multi_line
    &&& trace[0].last_category@.len() == 0
    &&& trace[0].category_item_count == 0
    &&& forall|k: int|
        0 <= k < text_lines(c).len() ==> line_step(
            #[trigger] trace[k],
            trace[k + 1],
            k as usize,
            text_lines(c)[k],
        )
}

/// The ranges of the values at `spans`, shifted by `a`, that follow the values
/// block `b` read before, each in the column after the one before it.
pub open spec fn value_ranges_of(b: LoopBlock, a: int, spans: Seq<(int, int, bool)>) -> Seq<ValueRange> {
    Seq::new(
        spans.len(),
        |j: int|
            ValueRange {
                start: (a + spans[j].0) as usize,
                length: (spans[j].1 - spans[j].0) as usize,
                column_index: ((b.processed_value_count + j) % field_count(b)) as usize,
            },
    )
}

/// The token of a value at `start` of `length` characters in column `col` of block `b`:
/// the column's class and the qualified name of its field.
pub open spec fn value_token(t: Token, b: LoopBlock, ln: usize, start: int, length: int, col: int) -> bool {
    &&& t.line == ln
    &&& t.start == start
    &&& t.length == length
    &&& t.token_type == rotating_class(col)
    &&& t.item_name is Some
    &&& t.item_name->0@ == b.category_name@ + seq!['.'] + b.items@[col].name@
}

/// Tokens are only appended, and those appended belong to line `ln`.
pub open spec fn tokens_on_line(a: Seq<Token>, b: Seq<Token>, ln: int) -> bool {
    &&& a.len() <= b.len()
    &&& b.subrange(0, a.len() as int) == a
    &&& forall|i: int| a.len() <= i < b.len() ==> #[trigger] b[i].line == ln
}

/// A block that line `ln` has just opened: it starts on that line and holds at
/// most the one field and the one value that a line can add.
pub open spec fn fresh(b: LoopBlock, ln: int) -> bool {
    &&& b.start_line == ln
    &&& b.items@.len() <= 1
    &&& b.data_lines@.len() <= 1
    &&& b.processed_value_count <= 1
}

/// What a block may become while it stays the current block: its kind and
/// start are kept, items and data lines are only appended, the value count
/// does not decrease and the end of the name declarations is not undone.
pub open spec fn extends(a: LoopBlock, b: LoopBlock) -> bool {
    &&& b.start_line == a.start_line
    &&& b.is_in_loop_block == a.is_in_loop_block
    &&& a.items@.len() <= b.items@.len()
    &&& b.items@.subrange(0, a.items@.len() as int) == a.items@
    &&& a.data_lines@.len() <= b.data_lines@.len()
    &&& b.data_lines@.subrange(0, a.data_lines@.len() as int) == a.data_lines@
    &&& a.processed_value_count <= b.processed_value_count
    &&& a.names_defined ==> b.names_defined
}

/// The column of the next value of a block: the running value count modulo the
/// number of fields inside a loop, the first column otherwise.
pub open spec fn next_column(b: LoopBlock) -> int {
    if b.is_in_loop_block {
        b.processed_value_count as int % field_count(b)
    } else {
        0
    }
}

/// The rotating class of a column.
pub open spec fn rotating_class(col: int) -> u8 {
    (2 + col % 7) as u8
}

/// The columns of `k` values that follow `p` earlier values in a block of `n` fields.
pub open spec fn row_columns(p: int, k: int, n: int) -> Seq<int> {
    Seq::new(k as nat, |j: int| (p + j) % n)
}

/// The columns of the value ranges of a data line.
pub open spec fn line_columns(d: DataLine) -> Seq<int> {
    d.value_ranges@.map_values(|v: ValueRange| v.column_index as int)
}

/// Wrapping a row: the columns of `k + m` values read in one line are those of `k`
/// values followed by those of the next `m`, so a row split across two lines is
/// colored as if it stood on one.
pub proof fn lemma_row_wrap(p: int, k: int, m: int, n: int)
    requires
        0 <= p,
        0 <= k,
        0 <= m,
        0 < n,
    ensures
        row_columns(p, k, n) + row_columns(p + k, m, n) == row_columns(p, k + m, n),
{
    assert(row_columns(p, k, n) + row_columns(p + k, m, n) =~= row_columns(p, k + m, n));
}

/// The rotating class of a column.
fn rotating(col: usize) -> (r: u8)
    ensures
        r == rotating_class(col as int),
        valid_token_type(r),
{
    ROTATE_BASE + (col % ROTATE_SPAN) as u8
}

fn column_of(b: &LoopBlock) -> (r: usize)
    ensures
        r == next_column(*b),
        r < field_count(*b),
{
    if b.is_in_loop_block {
        let n = if b.items.len() > 0 {
            b.items.len()
        } else {
            1
        };
        b.processed_value_count % n
    } else {
        0
    }
}

/// The qualified name of the field at `col` of a block, if it has one.
fn item_name_at(b: &LoopBlock, col: usize) -> (r: Option<String>)
    ensures
        col < b.items@.len() <==> r is Some,
        r matches Some(s) ==> s@ == b.category_name@ + seq!['.'] + b.items@[col as int].name@,
{
    if col < b.items.len() {
        Some(qualified_name(&b.category_name, &b.items[col].name))
    } else {
        None
    }
}

/// The qualified name of the field the next value of the current block goes to.
pub fn get_current_item_name(current: &Option<LoopBlock>) -> (r: Option<String>)
    ensures
        r is Some <==> (current matches Some(b) && b.items@.len() > 0),
        r matches Some(s) ==> s@ == current->0.category_name@ + seq!['.']
            + current->0.items@[next_column(current->0)].name@,
{
    match current {
        Some(b) => {
            if b.items.len() > 0 {
                let col = column_of(b);
                item_name_at(b, col)
            } else {
                None
            }
        },
        None => None,
    }
}

fn new_block(line: usize, category_name: String, is_in_loop_block: bool) -> (r: LoopBlock)
    ensures
        r.start_line == line,
        r.category_name == category_name,
        r.items@.len() == 0,
        r.data_lines@.len() == 0,
        r.names_defined == !is_in_loop_block,
        r.is_in_loop_block == is_in_loop_block,
        r.processed_value_count == 0,
        columns_bounded(r),
{
    LoopBlock {
        start_line: line,
        category_name,
        items: Vec::new(),
        names_defined: !is_in_loop_block,
        is_in_loop_block,
        processed_value_count: 0,
        data_lines: Vec::new(),
    }
}

fn single_range(start: usize, length: usize, column_index: usize) -> (r: Vec<ValueRange>)
    ensures
        r@ == seq![ValueRange { start, length, column_index }],
{
    let mut v: Vec<ValueRange> = Vec::new();
    v.push(ValueRange { start, length, column_index });
    assert(v@ =~= seq![ValueRange { start, length, column_index }]);
    v
}

fn push_data_line(b: &mut LoopBlock, d: DataLine)
    requires
        columns_bounded(*old(b)),
        line_in_columns(d, field_count(*old(b))),
    ensures
        columns_bounded(*final(b)),
        final(b).data_lines@ == old(b).data_lines@.push(d),
        final(b).items == old(b).items,
        final(b).start_line == old(b).start_line,
        final(b).category_name == old(b).category_name,
        final(b).names_defined == old(b).names_defined,
        final(b).is_in_loop_block == old(b).is_in_loop_block,
        final(b).processed_value_count == old(b).processed_value_count,
{
    b.data_lines.push(d);
    assert forall|i: int| 0 <= i < b.data_lines@.len() implies line_in_columns(
        #[trigger] b.data_lines@[i],
        field_count(*b),
    ) by {
        if i < old(b).data_lines@.len() {
            assert(b.data_lines@[i] == old(b).data_lines@[i]);
        }
    }
}

fn push_item(b: &mut LoopBlock, item: Item)
    requires
        columns_bounded(*old(b)),
    ensures
        columns_bounded(*final(b)),
        final(b).items@ == old(b).items@.push(item),
        final(b).data_lines == old(b).data_lines,
        final(b).start_line == old(b).start_line,
        final(b).category_name == old(b).category_name,
        final(b).names_defined == old(b).names_defined,
        final(b).is_in_loop_block == old(b).is_in_loop_block,
        final(b).processed_value_count == old(b).processed_value_count,
{
    b.items.push(item);
    assert forall|i: int| 0 <= i < b.data_lines@.len() implies line_in_columns(
        #[trigger] b.data_lines@[i],
        field_count(*b),
    ) by {
        assert(line_in_columns(old(b).data_lines@[i], field_count(*old(b))));
    }
}

/// The state carried from one line to the next.
pub struct ParserState {
    pub loops: Vec<LoopBlock>,
    pub tokens: Vec<Token>,
    pub current: Option<LoopBlock>,
    pub multi_line: bool,
    pub last_category: String,
    pub category_item_count: usize,
}

impl ParserState {
    /// Emitted blocks hold items, all values lie in their block's columns, and
    /// every token has one of the token classes.
    pub open spec fn wf(&self) -> bool {
        &&& forall|i: int|
            0 <= i < self.loops@.len() ==> #[trigger] self.loops@[i].items@.len() >= 1
                && columns_bounded(self.loops@[i])
        &&& self.current matches Some(b) ==> columns_bounded(b)
        &&& forall|i: int|
            0 <= i < self.tokens@.len() ==> valid_token_type(#[trigger] self.tokens@[i].token_type)
    }

    /// The emitted blocks once the current block is flushed.
    pub open spec fn flushed(&self) -> Seq<LoopBlock> {
        match self.current {
            Some(b) => if b.items@.len() > 0 {
                self.loops@.push(b)
            } else {
                self.loops@
            },
            None => self.loops@,
        }
    }

    /// How one line changes the blocks: either the current block lives on and
    /// grows, or its life ends (emitted when it holds items) and the current
    /// block is then none or one that this line opened.
    pub open spec fn block_step(&self, next: &ParserState, ln: int) -> bool {
        ||| next.loops@ == self.loops@ && self.current is Some && next.current is Some && extends(
            self.current->0,
            next.current->0,
        )
        ||| next.loops@ == self.flushed() && (next.current matches Some(b) ==> fresh(b, ln))
    }

    /// What every line preserves and how far it may move the state.
    pub open spec fn step_ok(&self, next: &ParserState, ln: int, n: int) -> bool {
        &&& next.wf()
        &&& next.max_counter() <= self.max_counter() + n + 1
        &&& tokens_on_line(self.tokens@, next.tokens@, ln)
        &&& self.block_step(next, ln)
    }

    /// The current block, if any, with one more data line on line `ln` whose
    /// single value spans `n` characters in the block's next column, its count
    /// raised by `inc`, and its names declared where `declares` holds and it has fields.
    pub open spec fn one_value_line(
        a: Option<LoopBlock>,
        c: Option<LoopBlock>,
        ln: usize,
        n: usize,
        inc: int,
        declares: bool,
    ) -> bool {
        match a {
            Some(b) => c is Some && {
                let c = c->0;
                &&& c.items == b.items
                &&& c.category_name == b.category_name
                &&& c.start_line == b.start_line
                &&& c.is_in_loop_block == b.is_in_loop_block
                &&& c.data_lines@.len() == b.data_lines@.len() + 1
                &&& c.data_lines@.subrange(0, b.data_lines@.len() as int) == b.data_lines@
                &&& c.data_lines@.last().line == ln
                &&& c.data_lines@.last().value_ranges@ == seq![
                    ValueRange { start: 0, length: n, column_index: next_column(b) as usize },
                ]
                &&& c.processed_value_count == b.processed_value_count + inc
                &&& c.names_defined == (b.names_defined || (declares && b.items@.len() > 0))
            },
            None => c is None,
        }
    }

    /// The class of a whole-line value token: the block's next column, else the first class.
    pub open spec fn line_value_class(&self) -> u8 {
        match self.current {
            Some(b) => rotating_class(next_column(b)),
            None => ROTATE_BASE,
        }
    }

    /// The token names the field the next value of the block goes to, if it has fields.
    pub open spec fn names_next_field(t: Token, cur: Option<LoopBlock>) -> bool {
        &&& t.item_name is Some <==> (cur is Some && cur->0.items@.len() > 0)
        &&& t.item_name is Some ==> t.item_name->0@ == cur->0.category_name@ + seq!['.']
            + cur->0.items@[next_column(cur->0)].name@
    }

    /// A `;` line: the string mode flips, the line is one value of the current
    /// block, counted when it closes the string, and one token.
    pub open spec fn delimiter_effect(&self, next: &ParserState, ln: usize, n: usize) -> bool {
        &&& next.multi_line == !self.multi_line
        &&& self.keeps_run(next)
        &&& next.loops == self.loops
        &&& Self::one_value_line(
            self.current,
            next.current,
            ln,
            n,
            if self.multi_line {
                1
            } else {
                0
            },
            self.multi_line,
        )
        &&& next.tokens@.len() == self.tokens@.len() + 1
        &&& next.tokens@.last().line == ln
        &&& next.tokens@.last().start == 0
        &&& next.tokens@.last().length == n
        &&& next.tokens@.last().token_type == self.line_value_class()
        &&& Self::names_next_field(next.tokens@.last(), next.current)
    }

    /// A line inside a string: one value of the current block, and one token
    /// unless the line is empty.
    pub open spec fn string_effect(&self, next: &ParserState, ln: usize, n: usize) -> bool {
        &&& next.multi_line == self.multi_line
        &&& self.keeps_run(next)
        &&& next.loops == self.loops
        &&& Self::one_value_line(self.current, next.current, ln, n, 0, false)
        &&& n == 0 ==> next.tokens == self.tokens
        &&& n > 0 ==> {
            &&& next.tokens@.len() == self.tokens@.len() + 1
            &&& next.tokens@.last().line == ln
            &&& next.tokens@.last().start == 0
            &&& next.tokens@.last().length == n
            &&& next.tokens@.last().token_type == self.line_value_class()
            &&& Self::names_next_field(next.tokens@.last(), next.current)
        }
    }

    /// A line of whitespace: the name declarations of the current block end.
    pub open spec fn blank_effect(&self, next: &ParserState) -> bool {
        &&& next.multi_line == self.multi_line
        &&& self.keeps_run(next)
        &&& next.loops == self.loops
        &&& next.tokens == self.tokens
        &&& next.current == match self.current {
            Some(b) => Some(LoopBlock { names_defined: b.names_defined || b.items@.len() > 0, ..b }),
            None => None,
        }
    }

    /// Nothing the result holds changes.
    pub open spec fn unchanged(&self, next: &ParserState) -> bool {
        &&& next.multi_line == self.multi_line
        &&& self.keeps_run(next)
        &&& next.loops == self.loops
        &&& next.tokens == self.tokens
        &&& next.current == self.current
    }

    /// A `data_`, `save_` or `global_` line: the current block ends, and the
    /// keyword is one heading token.
    pub open spec fn heading_effect(&self, next: &ParserState, ln: usize, start: usize, length: usize) -> bool {
        &&& next.multi_line == self.multi_line
        &&& self.keeps_run(next)
        &&& next.loops@ == self.flushed()
        &&& next.current is None
        &&& next.tokens@ == self.tokens@.push(
            Token { line: ln, start, length, token_type: HEADING, item_name: None },
        )
    }

    /// A `loop_` line: the current block ends and an empty loop block opens.
    pub open spec fn loop_effect(&self, next: &ParserState, ln: usize, start: usize, length: usize) -> bool {
        &&& next.multi_line == self.multi_line
        &&& next.last_category@.len() == 0
        &&& next.category_item_count == 0
        &&& next.loops@ == self.flushed()
        &&& next.current is Some
        &&& next.current->0.start_line == ln
        &&& next.current->0.is_in_loop_block
        &&& !next.current->0.names_defined
        &&& next.current->0.items@.len() == 0
        &&& next.current->0.data_lines@.len() == 0
        &&& next.current->0.processed_value_count == 0
        &&& next.current->0.category_name@.len() == 0
        &&& next.tokens@ == self.tokens@.push(
            Token { line: ln, start, length, token_type: LOOP_KEYWORD, item_name: None },
        )
    }

    /// A data name of another shape: one category token, nothing else.
    pub open spec fn loose_name_effect(&self, next: &ParserState, ln: usize, start: usize, length: usize) -> bool {
        &&& next.multi_line == self.multi_line
        &&& self.keeps_run(next)
        &&& next.loops == self.loops
        &&& next.current == self.current
        &&& next.tokens@ == self.tokens@.push(
            Token { line: ln, start, length, token_type: CATEGORY, item_name: None },
        )
    }

    /// The run of bare names of one category, which colors them, is kept.
    pub open spec fn keeps_run(&self, next: &ParserState) -> bool {
        &&& next.last_category == self.last_category
        &&& next.category_item_count == self.category_item_count
    }

    /// A comment ends the current block once it holds fields whose names are declared.
    pub open spec fn comment_ends_block(&self) -> bool {
        self.current is Some && self.current->0.items@.len() > 0 && self.current->0.names_defined
    }

    /// A name of category `cat` ends the current group: its names are declared
    /// and it holds fields, of another category or a single one.
    pub open spec fn ends_group(&self, cat: Seq<char>) -> bool {
        self.current is Some && {
            let b = self.current->0;
            !b.is_in_loop_block && b.names_defined && b.items@.len() > 0 && (b.category_name@ != cat
                || b.items@.len() == 1)
        }
    }

    /// The class of a field named in the category `cat` of block `c`: its place
    /// among the fields in a loop, else its place in the run of names of the category.
    pub open spec fn field_class(&self, c: LoopBlock, cat: Seq<char>) -> u8 {
        if c.is_in_loop_block {
            rotating_class(c.items@.len() - 1)
        } else {
            rotating_class(self.run_index(cat))
        }
    }

    /// The place of the next name of category `cat` in the run of bare names.
    pub open spec fn run_index(&self, cat: Seq<char>) -> int {
        if cat == self.last_category@ {
            self.category_item_count as int
        } else {
            0
        }
    }

    /// A `_category.field` name `t` with its dot at `d`, standing at `lead`, and
    /// the span of the value that follows it on the line, if any: the block it
    /// goes to holds the category and ends with the field; the name is a
    /// category token then a field token, and the value one data line and one
    /// token named by `t`.
    pub open spec fn field_effect(
        &self,
        next: &ParserState,
        ln: usize,
        lead: int,
        t: Seq<char>,
        d: int,
        value: Option<(int, int)>,
    ) -> bool {
        let c = next.current->0;
        let b = self.current->0;
        let cat = t.subrange(0, d);
        let base = self.tokens@.len() as int;
        let v: int = if value is Some { 1 } else { 0 };
        &&& next.multi_line == self.multi_line
        &&& if c.is_in_loop_block {
            self.keeps_run(next)
        } else {
            next.last_category@ == cat && next.category_item_count == self.run_index(cat) + 1
        }
        &&& if self.ends_group(cat) || self.current is None {
            &&& next.loops@ == self.flushed()
            &&& c.start_line == ln
            &&& !c.is_in_loop_block
            &&& c.names_defined
            &&& c.items@.len() == 1
            &&& c.processed_value_count == v
            &&& c.data_lines@.len() == v
        } else if b.category_name@.len() == 0 || b.category_name@ == cat {
            &&& next.loops == self.loops
            &&& c.start_line == b.start_line
            &&& c.is_in_loop_block == b.is_in_loop_block
            &&& c.names_defined == b.names_defined
            &&& c.items@.len() == b.items@.len() + 1
            &&& c.items@.subrange(0, b.items@.len() as int) == b.items@
            &&& c.processed_value_count == b.processed_value_count + v
            &&& c.data_lines@.len() == b.data_lines@.len() + v
            &&& c.data_lines@.subrange(0, b.data_lines@.len() as int) == b.data_lines@
        } else {
            &&& next.loops@ == self.flushed()
            &&& c.start_line == ln
            &&& c.is_in_loop_block == b.is_in_loop_block
            &&& c.names_defined == !b.is_in_loop_block
            &&& c.items@.len() == 1
            &&& c.processed_value_count == v
            &&& c.data_lines@.len() == v
        }
        &&& next.tokens@[base + 1].token_type == self.field_class(c, t.subrange(0, d))
        &&& next.tokens@[base + 1].line == ln
        &&& next.tokens@[base + 1].item_name is None
        &&& match value {
            Some((i, k)) => {
                &&& next.tokens@.len() == base + 3
                &&& next.tokens@[base + 2].line == ln
                &&& next.tokens@[base + 2].start == i
                &&& next.tokens@[base + 2].length == k
                &&& next.tokens@[base + 2].token_type == (if c.is_in_loop_block {
                    rotating_class(0)
                } else {
                    rotating_class(self.run_index(t.subrange(0, d)))
                })
                &&& next.tokens@[base + 2].item_name is Some
                &&& next.tokens@[base + 2].item_name->0@ == t
                &&& c.processed_value_count >= 1
                &&& c.data_lines@.len() >= 1
                &&& c.data_lines@.last().line == ln
                &&& c.data_lines@.last().value_ranges@ == seq![
                    ValueRange {
                        start: i as usize,
                        length: k as usize,
                        column_index: (if c.is_in_loop_block {
                            0
                        } else {
                            c.items@.len() - 1
                        }) as usize,
                    },
                ]
            },
            None => next.tokens@.len() == base + 2,
        }
        &&& next.current is Some
        &&& next.current->0.category_name@ == t.subrange(0, d)
        &&& next.current->0.items@.len() >= 1
        &&& next.current->0.items@.last().line == ln
        &&& next.current->0.items@.last().start == lead + d + 1
        &&& next.current->0.items@.last().length == t.len() - d - 1
        &&& next.current->0.items@.last().name@ == t.subrange(d + 1, t.len() as int)
        &&& next.tokens@.len() >= self.tokens@.len() + 2
        &&& next.tokens@[self.tokens@.len() as int] == Token {
            line: ln,
            start: lead as usize,
            length: d as usize,
            token_type: CATEGORY,
            item_name: None,
        }
        &&& next.tokens@[self.tokens@.len() + 1int].start == lead + d
        &&& next.tokens@[self.tokens@.len() + 1int].length == t.len() - d
    }

    /// A line of `k` values: where the current block has fields, its names are
    /// declared, one data line holds the values in the columns that follow the
    /// values read before, and each value is one token; otherwise nothing changes.
    pub open spec fn value_effect(
        &self,
        next: &ParserState,
        ln: usize,
        a: int,
        spans: Seq<(int, int, bool)>,
    ) -> bool {
        let k = spans.len() as int;
        if self.current is Some && self.current->0.items@.len() > 0 {
            let b = self.current->0;
            let c = next.current->0;
            &&& forall|j: int|
                0 <= j < k ==> value_token(
                    #[trigger] next.tokens@[self.tokens@.len() + j],
                    b,
                    ln,
                    a + spans[j].0,
                    spans[j].1 - spans[j].0,
                    (b.processed_value_count + j) % field_count(b),
                )
            &&& next.multi_line == self.multi_line
            &&& next.loops == self.loops
            &&& next.current is Some
            &&& c.names_defined
            &&& c.items == b.items
            &&& c.category_name == b.category_name
            &&& c.data_lines@.len() == b.data_lines@.len() + 1
            &&& c.data_lines@.subrange(0, b.data_lines@.len() as int) == b.data_lines@
            &&& c.data_lines@.last().line == ln
            &&& c.data_lines@.last().value_ranges@ == value_ranges_of(b, a, spans)
            &&& line_columns(c.data_lines@.last()) == row_columns(
                b.processed_value_count as int,
                k,
                field_count(b),
            )
            &&& c.processed_value_count == b.processed_value_count + k
            &&& c.start_line == b.start_line
            &&& c.is_in_loop_block == b.is_in_loop_block
            &&& next.tokens@.len() == self.tokens@.len() + k
            &&& self.keeps_run(next)
        } else {
            self.unchanged(next)
        }
    }

    proof fn lemma_same_step(&self, ln: int, n: int)
        requires
            self.wf(),
            n >= 0,
        ensures
            self.step_ok(self, ln, n),
    {
        assert(self.tokens@.subrange(0, self.tokens@.len() as int) =~= self.tokens@);
        if self.current is Some {
            let a = self.current->0;
            assert(a.items@.subrange(0, a.items@.len() as int) =~= a.items@);
            assert(a.data_lines@.subrange(0, a.data_lines@.len() as int) =~= a.data_lines@);
        }
    }

    /// The largest of the counters, which grow by at most one line's length per line.
    pub open spec fn max_counter(&self) -> int {
        let p = match self.current {
            Some(b) => b.processed_value_count as int,
            None => 0,
        };
        if p < self.category_item_count {
            self.category_item_count as int
        } else {
            p
        }
    }

    pub fn new() -> (r: ParserState)
        ensures
            r.wf(),
            r.max_counter() == 0,
            r.loops@.len() == 0,
            r.tokens@.len() == 0,
            r.current is None,
            !r.multi_line,
            r.last_category@.len() == 0,
            r.category_item_count == 0,
    {
        ParserState {
            loops: Vec::new(),
            tokens: Vec::new(),
            current: None,
            multi_line: false,
            last_category: String::new(),
            category_item_count: 0,
        }
    }

    fn push_token(&mut self, line: usize, start: usize, length: usize, token_type: u8, item_name: Option<String>)
        requires
            old(self).wf(),
            valid_token_type(token_type),
        ensures
            final(self).wf(),
            final(self).tokens@ == old(self).tokens@.push(
                Token { line, start, length, token_type, item_name },
            ),
            final(self).loops == old(self).loops,
            final(self).current == old(self).current,
            final(self).multi_line == old(self).multi_line,
            final(self).last_category == old(self).last_category,
            final(self).category_item_count == old(self).category_item_count,
    {
        self.tokens.push(Token { line, start, length, token_type, item_name });
    }

    /// Moves the current block, if it holds items, to the emitted blocks; the
    /// current block is then none.
    fn flush(&mut self)
        requires
            old(self).wf(),
        ensures
            final(self).wf(),
            final(self).current is None,
            final(self).tokens == old(self).tokens,
            final(self).multi_line == old(self).multi_line,
            final(self).last_category == old(self).last_category,
            final(self).category_item_count == old(self).category_item_count,
            final(self).loops@ == old(self).flushed(),
    {
        match self.current.take() {
            Some(b) => {
                if b.items.len() > 0 {
                    self.loops.push(b);
                }
            },
            None => {},
        }
    }

    /// A line that starts with `#`: it ends a block whose names are declared, and
    /// is one comment token.
    fn comment_line(&mut self, ln: usize, n: usize)
        requires
            old(self).wf(),
        ensures
            old(self).step_ok(final(self), ln as int, n as int),
            final(self).tokens@ == old(self).tokens@.push(
                Token { line: ln, start: 0, length: n, token_type: COMMENT, item_name: None },
            ),
            final(self).multi_line == old(self).multi_line,
            old(self).keeps_run(final(self)),
            old(self).comment_ends_block() ==> final(self).current is None && final(self).loops@
                == old(self).flushed(),
            !old(self).comment_ends_block() ==> final(self).current == old(self).current
                && final(self).loops == old(self).loops,
    {
        let flush_now = match &self.current {
            Some(b) => b.items.len() > 0 && b.names_defined,
            None => false,
        };
        if flush_now {
            self.flush();
        }
        self.push_token(ln, 0, n, COMMENT, None);
        assert(self.tokens@.subrange(0, old(self).tokens@.len() as int) =~= old(self).tokens@);
        proof {
            if !flush_now {
                let b = old(self).current;
                if b is Some {
                    assert(extends(b->0, b->0)) by {
                        assert(b->0.items@.subrange(0, b->0.items@.len() as int) =~= b->0.items@);
                        assert(b->0.data_lines@.subrange(0, b->0.data_lines@.len() as int)
                            =~= b->0.data_lines@);
                    }
                }
            }
        }
    }

    /// Moves the current block out, leaving none.
    fn take_current(&mut self) -> (r: Option<LoopBlock>)
        requires
            old(self).wf(),
        ensures
            r == old(self).current,
            final(self).current is None,
            final(self).wf(),
            r matches Some(b) ==> columns_bounded(b),
            final(self).loops == old(self).loops,
            final(self).tokens == old(self).tokens,
            final(self).multi_line == old(self).multi_line,
            final(self).last_category == old(self).last_category,
            final(self).category_item_count == old(self).category_item_count,
    {
        self.current.take()
    }

    /// A line that starts with `;`: it opens or closes a multi-line string and is
    /// one value of the current block.
    fn delimiter_line(&mut self, ln: usize, n: usize)
        requires
            old(self).wf(),
            old(self).max_counter() + n + 1 <= usize::MAX,
        ensures
            old(self).step_ok(final(self), ln as int, n as int),
            final(self).multi_line == !old(self).multi_line,
            old(self).delimiter_effect(final(self), ln, n),
    {
        let entering = !self.multi_line;
        self.multi_line = entering;
        let mut tt = ROTATE_BASE;
        match self.take_current() {
            Some(mut b) => {
                let col = column_of(&b);
                tt = rotating(col);
                push_data_line(&mut b, DataLine { line: ln, value_ranges: single_range(0, n, col) });
                if !entering {
                    b.processed_value_count = b.processed_value_count + 1;
                }
                self.current = Some(b);
            },
            None => {},
        }
        let name = get_current_item_name(&self.current);
        self.push_token(ln, 0, n, tt, name);
        if !entering {
            match self.take_current() {
                Some(mut b) => {
                    if b.items.len() > 0 {
                        b.names_defined = true;
                    }
                    self.current = Some(b);
                },
                None => {},
            }
        }
        assert(self.tokens@.subrange(0, old(self).tokens@.len() as int) =~= old(self).tokens@);
        proof {
            if old(self).current is Some {
                let a = old(self).current->0;
                let b = self.current->0;
                assert(b.items@.subrange(0, a.items@.len() as int) =~= a.items@);
                assert(b.data_lines@.subrange(0, a.data_lines@.len() as int) =~= a.data_lines@);
            }
        }
    }

    /// A line inside a multi-line string: one value of the current block.
    fn string_line(&mut self, ln: usize, n: usize)
        requires
            old(self).wf(),
        ensures
            old(self).step_ok(final(self), ln as int, n as int),
            old(self).string_effect(final(self), ln, n),
            final(self).multi_line == old(self).multi_line,
    {
        match self.take_current() {
            Some(mut b) => {
                let col = column_of(&b);
                push_data_line(&mut b, DataLine { line: ln, value_ranges: single_range(0, n, col) });
                if n > 0 {
                    let name = item_name_at(&b, col);
                    self.push_token(ln, 0, n, rotating(col), name);
                }
                self.current = Some(b);
            },
            None => {
                if n > 0 {
                    self.push_token(ln, 0, n, ROTATE_BASE, None);
                }
            },
        }
        assert(self.tokens@.subrange(0, old(self).tokens@.len() as int) =~= old(self).tokens@);
        proof {
            if old(self).current is Some {
                let a = old(self).current->0;
                let b = self.current->0;
                assert(b.items@.subrange(0, a.items@.len() as int) =~= a.items@);
                assert(b.data_lines@.subrange(0, a.data_lines@.len() as int) =~= a.data_lines@);
            }
        }
    }

    /// A line of whitespace: it ends the declaration of names of the current block.
    fn blank_line(&mut self, ln: usize, n: usize)
        requires
            old(self).wf(),
        ensures
            old(self).step_ok(final(self), ln as int, n as int),
            final(self).multi_line == old(self).multi_line,
            final(self).tokens == old(self).tokens,
            old(self).blank_effect(final(self)),
    {
        match self.take_current() {
            Some(mut b) => {
                if b.items.len() > 0 && !b.names_defined {
                    b.names_defined = true;
                }
                self.current = Some(b);
            },
            None => {},
        }
        assert(self.tokens@.subrange(0, old(self).tokens@.len() as int) =~= old(self).tokens@);
        proof {
            if old(self).current is Some {
                let a = old(self).current->0;
                let b = self.current->0;
                assert(b.items@.subrange(0, a.items@.len() as int) =~= a.items@);
                assert(b.data_lines@.subrange(0, a.data_lines@.len() as int) =~= a.data_lines@);
            }
        }
    }

    /// A `data_`, `save_` or `global_` line: it ends the current block.
    fn heading_line(&mut self, ln: usize, n: usize, start: usize, length: usize)
        requires
            old(self).wf(),
        ensures
            old(self).heading_effect(final(self), ln, start, length),
            old(self).step_ok(final(self), ln as int, n as int),
            final(self).multi_line == old(self).multi_line,
    {
        self.flush();
        self.push_token(ln, start, length, HEADING, None);
        assert(self.tokens@.subrange(0, old(self).tokens@.len() as int) =~= old(self).tokens@);
    }

    /// A `loop_` line: it ends the current block and opens an empty loop block.
    fn loop_line(&mut self, ln: usize, n: usize, start: usize, length: usize)
        requires
            old(self).wf(),
        ensures
            old(self).loop_effect(final(self), ln, start, length),
            old(self).step_ok(final(self), ln as int, n as int),
            final(self).multi_line == old(self).multi_line,
    {
        self.flush();
        self.current = Some(new_block(ln, String::new(), true));
        self.last_category = String::new();
        self.category_item_count = 0;
        self.push_token(ln, start, length, LOOP_KEYWORD, None);
        assert(self.tokens@.subrange(0, old(self).tokens@.len() as int) =~= old(self).tokens@);
    }

    /// A line whose first token is a data name not of the `_category.field` shape.
    fn loose_name_line(&mut self, ln: usize, n: usize, start: usize, length: usize)
        requires
            old(self).wf(),
        ensures
            old(self).loose_name_effect(final(self), ln, start, length),
            old(self).step_ok(final(self), ln as int, n as int),
            final(self).multi_line == old(self).multi_line,
    {
        self.push_token(ln, start, length, CATEGORY, None);
        assert(self.tokens@.subrange(0, old(self).tokens@.len() as int) =~= old(self).tokens@);
        proof {
            if old(self).current is Some {
                let a = old(self).current->0;
                assert(a.items@.subrange(0, a.items@.len() as int) =~= a.items@);
                assert(a.data_lines@.subrange(0, a.data_lines@.len() as int) =~= a.data_lines@);
            }
        }
    }

    /// A line of values for the current block: the `j`-th token of the line goes
    /// to the column that follows the values read before it, so a row may wrap.
    fn value_line(&mut self, ln: usize, n: usize, a: usize, spans: &Vec<Span>)
        requires
            old(self).wf(),
            old(self).max_counter() + n + 1 <= usize::MAX,
            spans@.len() <= n,
            spans_fit(spans@, a as int, n as int),
        ensures
            old(self).value_effect(final(self), ln, a as int, spans_view(spans@)),
            old(self).step_ok(final(self), ln as int, n as int),
            final(self).multi_line == old(self).multi_line,
            old(self).current is Some && old(self).current->0.items@.len() > 0 ==> {
                let b = old(self).current->0;
                let c = final(self).current->0;
                &&& final(self).current is Some
                &&& c.data_lines@.len() == b.data_lines@.len() + 1
                &&& line_columns(c.data_lines@.last()) == row_columns(
                    b.processed_value_count as int,
                    spans@.len() as int,
                    field_count(b),
                )
                &&& c.processed_value_count == b.processed_value_count + spans@.len()
            },
    {
        match self.take_current() {
            Some(mut b) => {
                if b.items.len() > 0 {
                    let ghost b0 = b;
                    b.names_defined = true;
                    let fc = b.items.len();
                    let mut ranges: Vec<ValueRange> = Vec::new();
                    assert(ranges@ =~= value_ranges_of(b0, a as int, spans_view(spans@)).subrange(0, 0));
                    assert(ranges@.map_values(|v: ValueRange| v.column_index as int) =~= row_columns(
                        b.processed_value_count as int,
                        0,
                        fc as int,
                    ));
                    assert(self.tokens@.subrange(0, old(self).tokens@.len() as int) =~= old(
                        self,
                    ).tokens@);
                    let mut j: usize = 0;
                    while j < spans.len()
                        invariant
                            self.wf(),
                            self.current is None,
                            self.loops == old(self).loops,
                            self.multi_line == old(self).multi_line,
                            self.category_item_count == old(self).category_item_count,
                            self.last_category == old(self).last_category,
                            tokens_on_line(old(self).tokens@, self.tokens@, ln as int),
                            old(self).current == Some(b0),
                            columns_bounded(b),
                            b.items == b0.items,
                            b.category_name == b0.category_name,
                            self.tokens@.len() == old(self).tokens@.len() + j,
                            forall|i: int|
                                0 <= i < j ==> value_token(
                                    #[trigger] self.tokens@[old(self).tokens@.len() + i],
                                    b0,
                                    ln,
                                    a + spans_view(spans@)[i].0,
                                    spans_view(spans@)[i].1 - spans_view(spans@)[i].0,
                                    (b0.processed_value_count + i) % field_count(b0),
                                ),
                            b.data_lines == b0.data_lines,
                            b.processed_value_count == b0.processed_value_count,
                            b.start_line == b0.start_line,
                            b.is_in_loop_block == b0.is_in_loop_block,
                            b.names_defined,
                            fc == b.items@.len() > 0,
                            j <= spans@.len() <= n,
                            b.processed_value_count + n + 1 <= usize::MAX,
                            forall|k: int|
                                0 <= k < spans@.len() ==> #[trigger] spans@[k].start < spans@[k].end
                                    && a + spans@[k].end <= n,
                            ranges@.len() == j,
                            ranges@ == value_ranges_of(b0, a as int, spans_view(spans@)).subrange(
                                0,
                                j as int,
                            ),
                            ranges@.map_values(|v: ValueRange| v.column_index as int) == row_columns(
                                b.processed_value_count as int,
                                j as int,
                                fc as int,
                            ),
                        decreases spans@.len() - j,
                    {
                        let sp = spans[j];
                        let idx = a + sp.start;
                        let len = sp.end - sp.start;
                        let col = (b.processed_value_count + j) % fc;
                        let ghost before = ranges@;
                        ranges.push(ValueRange { start: idx, length: len, column_index: col });
                        let name = item_name_at(&b, col);
                        let ghost tokens_before = self.tokens@;
                        self.push_token(ln, idx, len, rotating(col), name);
                        proof {
                            assert(spans_view(spans@)[j as int] == span_view(sp));
                            assert forall|i: int| 0 <= i < j + 1 implies value_token(
                                #[trigger] self.tokens@[old(self).tokens@.len() + i],
                                b0,
                                ln,
                                a + spans_view(spans@)[i].0,
                                spans_view(spans@)[i].1 - spans_view(spans@)[i].0,
                                (b0.processed_value_count + i) % field_count(b0),
                            ) by {
                                if i < j {
                                    assert(self.tokens@[old(self).tokens@.len() + i] == tokens_before[old(self).tokens@.len() + i]);
                                }
                            }
                        }
                        assert(self.tokens@.subrange(0, old(self).tokens@.len() as int) =~= old(
                            self,
                        ).tokens@) by {
                            assert(tokens_before.subrange(0, old(self).tokens@.len() as int)
                                == old(self).tokens@);
                        }
                        proof {
                            let p = b.processed_value_count as int;
                            assert(ranges@.map_values(|v: ValueRange| v.column_index as int)
                                =~= before.map_values(|v: ValueRange| v.column_index as int).push(
                                col as int,
                            ));
                            assert(spans_view(spans@).len() == spans@.len());
                            assert(ranges@ =~= value_ranges_of(b0, a as int, spans_view(spans@)).subrange(
                                0,
                                j + 1,
                            ));
                            assert(row_columns(p, j + 1, fc as int) =~= row_columns(
                                p,
                                j as int,
                                fc as int,
                            ).push(col as int));
                        }
                        j += 1;
                    }
                    assert(spans_view(spans@).len() == spans@.len());
                    assert(ranges@ =~= value_ranges_of(b0, a as int, spans_view(spans@)));
                    let d = DataLine { line: ln, value_ranges: ranges };
                    assert(line_columns(d) == row_columns(
                        b.processed_value_count as int,
                        j as int,
                        fc as int,
                    ));
                    assert forall|k: int| 0 <= k < d.value_ranges@.len() implies #[trigger] d.value_ranges@[k].column_index
                        < field_count(b) by {
                        assert(line_columns(d)[k] == row_columns(b.processed_value_count as int, j as int, fc as int)[k]);
                    }
                    push_data_line(&mut b, d);
                    b.processed_value_count = b.processed_value_count + spans.len();
                }
                self.current = Some(b);
            },
            None => {},
        }
        proof {
            if old(self).current is Some {
                let a = old(self).current->0;
                let b = self.current->0;
                assert(b.items@.subrange(0, a.items@.len() as int) =~= a.items@);
                assert(b.data_lines@.subrange(0, a.data_lines@.len() as int) =~= a.data_lines@);
            } else {
                assert(self.tokens@.subrange(0, old(self).tokens@.len() as int) =~= old(self).tokens@);
            }
        }
    }

    /// A line whose first token is `_category.field`, with the dot of the name
    /// at `d`, the name at `lead` in the line and the span of the value that
    /// follows it on the line, if any.
    fn data_name_line(
        &mut self,
        ln: usize,
        n: usize,
        lead: usize,
        t: &Vec<char>,
        d: usize,
        value: Option<(usize, usize)>,
    )
        requires
            old(self).wf(),
            old(self).max_counter() + n + 1 <= usize::MAX,
            name_shape(t@, d as int),
            lead + t@.len() <= n,
        ensures
            old(self).field_effect(
                final(self),
                ln,
                lead as int,
                t@,
                d as int,
                match value {
                    Some((i, k)) => Some((i as int, k as int)),
                    None => None,
                },
            ),
            old(self).step_ok(final(self), ln as int, n as int),
            final(self).multi_line == old(self).multi_line,
    {
        let category = string_of(t, 0, d);
        let field = string_of(t, d + 1, t.len());
        let field_start = lead + d + 1;
        let field_length = t.len() - d - 1;
        let mut b = self.block_for_name(ln, &category);
        let ghost opened = b;
        push_item(&mut b, Item { line: ln, start: field_start, length: field_length, name: field });
        let color_base: usize = if !b.is_in_loop_block {
            if !(category == self.last_category) {
                self.category_item_count = 0;
                self.last_category = category.clone();
            }
            let idx = self.category_item_count;
            self.category_item_count = self.category_item_count + 1;
            idx
        } else {
            0
        };
        let field_index = b.items.len() - 1;
        let tt = if b.is_in_loop_block {
            rotating(field_index)
        } else {
            rotating(color_base)
        };
        self.push_token(ln, lead, d, CATEGORY, None);
        self.push_token(ln, lead + d, 1 + field_length, tt, None);
        match value {
            Some((idx, len)) => {
                let col = if b.is_in_loop_block {
                    0
                } else {
                    field_index
                };
                push_data_line(&mut b, DataLine { line: ln, value_ranges: single_range(idx, len, col) });
                b.processed_value_count = b.processed_value_count + 1;
                let name = string_of(t, 0, t.len());
                assert(name@ =~= t@);
                self.push_token(ln, idx, len, rotating(color_base), Some(name));
            },
            None => {},
        }
        self.current = Some(b);
        assert(self.tokens@.subrange(0, old(self).tokens@.len() as int) =~= old(self).tokens@);
        proof {
            if old(self).current is Some && opened.items == old(self).current->0.items
                && opened.data_lines == old(self).current->0.data_lines
                && self.loops@ == old(self).loops@ {
                let a = old(self).current->0;
                assert(b.items@.subrange(0, a.items@.len() as int) =~= a.items@);
                assert(b.data_lines@.subrange(0, a.data_lines@.len() as int) =~= a.data_lines@);
            }
        }
    }

    /// The block that a `_category.field` line adds its field to, moved out of
    /// the state: the current block where it goes on, else a new one, the
    /// current block ending first where the name starts a new group.
    fn block_for_name(&mut self, ln: usize, category: &String) -> (r: LoopBlock)
        requires
            old(self).wf(),
        ensures
            final(self).wf(),
            final(self).current is None,
            final(self).tokens == old(self).tokens,
            final(self).multi_line == old(self).multi_line,
            final(self).last_category == old(self).last_category,
            final(self).category_item_count == old(self).category_item_count,
            columns_bounded(r),
            r.category_name@ == category@,
            old(self).ends_group(category@) || old(self).current is None ==> {
                &&& final(self).loops@ == old(self).flushed()
                &&& r.start_line == ln
                &&& !r.is_in_loop_block
                &&& r.names_defined
                &&& r.items@.len() == 0
                &&& r.data_lines@.len() == 0
                &&& r.processed_value_count == 0
            },
            !old(self).ends_group(category@) && old(self).current is Some ==> {
                let a = old(self).current->0;
                if a.category_name@.len() == 0 || a.category_name@ == category@ {
                    &&& final(self).loops == old(self).loops
                    &&& r.items == a.items
                    &&& r.data_lines == a.data_lines
                    &&& r.start_line == a.start_line
                    &&& r.is_in_loop_block == a.is_in_loop_block
                    &&& r.names_defined == a.names_defined
                    &&& r.processed_value_count == a.processed_value_count
                } else {
                    &&& final(self).loops@ == old(self).flushed()
                    &&& r.start_line == ln
                    &&& r.is_in_loop_block == a.is_in_loop_block
                    &&& r.names_defined == !a.is_in_loop_block
                    &&& r.items@.len() == 0
                    &&& r.data_lines@.len() == 0
                    &&& r.processed_value_count == 0
                }
            },
    {
        let flush_first = match &self.current {
            Some(b) => !b.is_in_loop_block && b.names_defined && b.items.len() > 0 && (!(
            b.category_name == *category) || b.items.len() == 1),
            None => false,
        };
        if flush_first {
            self.flush();
        }
        let mut b = match self.take_current() {
            Some(b) => b,
            None => new_block(ln, category.clone(), false),
        };
        if b.category_name.as_str().is_empty() {
            b.category_name = category.clone();
        }
        if !(b.category_name == *category) {
            let in_loop = b.is_in_loop_block;
            if b.items.len() > 0 {
                self.loops.push(b);
            }
            b = new_block(ln, category.clone(), in_loop);
        }
        b
    }

    /// Reads line `ln`, whose characters are `l`.
    #[verifier::rlimit(40)]
    pub fn process_line(&mut self, ln: usize, l: &Vec<char>)
        requires
            old(self).wf(),
            old(self).max_counter() + l@.len() + 1 <= usize::MAX,
        ensures
            old(self).step_ok(final(self), ln as int, l@.len() as int),
            line_step(*old(self), *final(self), ln, l@),
    {
        let n = l.len();
        if n > 0 && l[0] == '#' {
            self.comment_line(ln, n);
            return;
        }
        if n > 0 && l[0] == ';' {
            self.delimiter_line(ln, n);
            return;
        }
        if self.multi_line {
            self.string_line(ln, n);
            return;
        }
        let (a, e) = trim_bounds(l);
        if a == e {
            self.blank_line(ln, n);
            return;
        }
        let tr = slice_chars(l, a, e);
        let spans = split_spans_of(&tr);
        assert(split_spec(tr@).len() == spans@.len()) by {
            assert(spans_view(spans@).len() == spans@.len());
        }
        if spans.len() == 0 {
            proof {
                self.lemma_same_step(ln as int, n as int);
            }
            return;
        }
        proof {
            lemma_spans_fit(spans@, tr@, a as int, n as int);
        }
        let first = spans[0];
        assert(spans@[0].start < spans@[0].end && a + spans@[0].end <= n);
        assert(spans@[0].end <= tr@.len());
        let t = slice_chars(&tr, first.start, first.end);
        assert(spans_view(spans@)[0] == span_view(first));
        assert(first_token(l@) == (t@, first.quoted));
        assert(first_start(l@) == a + first.start);
        let start = a + first.start;
        let length = first.end - first.start;
        if block_keyword_chars(&t, first.quoted) {
            self.heading_line(ln, n, start, length);
        } else if loop_keyword_chars(&t, first.quoted) {
            self.loop_line(ln, n, start, length);
        } else if data_name_chars(&t, first.quoted) {
            match data_name_dot(&t) {
                Some(d) => {
                    proof {
                        lemma_name_dot(t@, d as int);
                    }
                    let value = if spans.len() > 1 {
                        Some((a + spans[1].start, spans[1].end - spans[1].start))
                    } else {
                        None
                    };
                    self.data_name_line(ln, n, start, &t, d, value);
                },
                None => {
                    self.loose_name_line(ln, n, start, length);
                },
            }
        } else {
            self.value_line(ln, n, a, &spans);
        }
    }

    /// Tells the parser its last line was read: the current block is flushed.
    pub fn finish(self) -> (r: ParseResult)
        requires
            self.wf(),
        ensures
            forall|i: int| 0 <= i < r.loops@.len() ==> #[trigger] r.loops@[i].items@.len() >= 1
                && columns_bounded(r.loops@[i]),
            forall|i: int| 0 <= i < r.tokens@.len() ==> valid_token_type(#[trigger] r.tokens@[i].token_type),
            r.tokens == self.tokens,
            r.loops@ == self.flushed(),
    {
        let mut s = self;
        s.flush();
        ParseResult { loops: s.loops, tokens: s.tokens }
    }
}

} // verus!

verus! {

/// Every emitted block holds at least one item and every value lies in one of
/// its block's columns; every token has one of the token classes.
pub open spec fn result_wf(r: ParseResult) -> bool {
    &&& forall|i: int| 0 <= i < r.loops@.len() ==> #[trigger] r.loops@[i].items@.len() >= 1
    &&& forall|i: int| 0 <= i < r.loops@.len() ==> columns_bounded(#[trigger] r.loops@[i])
    &&& forall|i: int| 0 <= i < r.tokens@.len() ==> valid_token_type(#[trigger] r.tokens@[i].token_type)
}

/// Parses a whole text, line by line.
pub fn parse_cif_internal(text: &str) -> (r: ParseResult)
    requires
        text@.len() < usize::MAX,
    ensures
        result_wf(r),
        forall|i: int| 0 <= i < r.tokens@.len() ==> #[trigger] r.tokens@[i].line < text_lines(text@).len(),
        exists|trace: Seq<ParserState>|
            parse_trace(trace, text@) && r.tokens == trace.last().tokens && r.loops@
                == trace.last().flushed(),
{
    let c = chars_of(text);
    let lines = split_lines(&c);
    let mut st = ParserState::new();
    let mut k: usize = 0;
    let ghost mut trace: Seq<ParserState> = seq![st];
    assert(lines@.map_values(|p: (usize, usize)| (p.0 as int, p.1 as int)).len() == lines@.len());
    while k < lines.len()
        invariant
            st.wf(),
            c@ == text@,
            c@.len() < usize::MAX,
            k <= lines@.len() == line_spans(c@).len(),
            lines@.map_values(|p: (usize, usize)| (p.0 as int, p.1 as int)) == line_spans(c@),
            spans_ordered(line_spans(c@), c@.len() as int),
            k < lines@.len() ==> st.max_counter() <= lines@[k as int].0,
            forall|i: int| 0 <= i < st.tokens@.len() ==> #[trigger] st.tokens@[i].line < k,
            trace.len() == k + 1,
            trace.last() == st,
            trace[0].loops@.len() == 0,
            trace[0].tokens@.len() == 0,
            trace[0].current is None,
            !trace[0].multi_line,
            trace[0].last_category@.len() == 0,
            trace[0].category_item_count == 0,
            forall|j: int|
                0 <= j < k ==> line_step(
                    #[trigger] trace[j],
                    trace[j + 1],
                    j as usize,
                    text_lines(c@)[j],
                ),
        decreases lines@.len() - k,
    {
        let (s, e) = lines[k];
        assert(line_spans(c@)[k as int] == (s as int, e as int));
        let l = slice_chars(&c, s, e);
        assert(l@ == text_lines(c@)[k as int]);
        let ghost before = st;
        st.process_line(k, &l);
        proof {
            let old_trace = trace;
            trace = trace.push(st);
            assert forall|j: int| 0 <= j < k + 1 implies line_step(
                #[trigger] trace[j],
                trace[j + 1],
                j as usize,
                text_lines(c@)[j],
            ) by {
                if j < k {
                    assert(trace[j] == old_trace[j] && trace[j + 1] == old_trace[j + 1]);
                }
            }
            if k + 1 < lines@.len() {
                assert(line_spans(c@)[k + 1] == (lines@[k + 1].0 as int, lines@[k + 1].1 as int));
            }
            assert forall|i: int| 0 <= i < st.tokens@.len() implies #[trigger] st.tokens@[i].line < k + 1 by {
                if i < before.tokens@.len() {
                    assert(st.tokens@[i] == st.tokens@.subrange(0, before.tokens@.len() as int)[i]);
                }
            }
        }
        k += 1;
    }
    assert(text_lines(text@).len() == line_spans(c@).len());
    assert(parse_trace(trace, text@));
    st.finish()
}

} // verus!
