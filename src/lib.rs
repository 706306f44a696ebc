//! Tokenizing and structural parsing of CIF (Crystallographic Information File)
//! text into highlight tokens and loop blocks.

pub mod lines;
pub mod names;
pub mod parser;
pub mod text;
pub mod tokenizer;

use vstd::prelude::*;

pub use parser::{get_current_item_name, parse_cif_internal, ParserState};
pub use tokenizer::{is_block_keyword, is_data_name, is_loop_keyword, special_split};

verus! {

/// One highlighted span of a line.
#[derive(Clone, Debug)]
pub struct Token {
    pub line: usize,
    pub start: usize,
    pub length: usize,
    pub token_type: u8,
    pub item_name: Option<String>,
}

/// One declared field within a category.
#[derive(Clone, Debug)]
pub struct Item {
    pub line: usize,
    pub start: usize,
    pub length: usize,
    pub name: String,
}

/// The span of one scalar value within a physical line, with its logical column.
#[derive(Clone, Debug)]
pub struct ValueRange {
    pub start: usize,
    pub length: usize,
    pub column_index: usize,
}

/// The values of a block that stand on one physical line.
#[derive(Clone, Debug)]
pub struct DataLine {
    pub line: usize,
    pub value_ranges: Vec<ValueRange>,
}

/// A category with its declared fields and the data lines that belong to it.
#[derive(Clone, Debug)]
pub struct LoopBlock {
    pub start_line: usize,
    pub category_name: String,
    pub items: Vec<Item>,
    pub names_defined: bool,
    pub is_in_loop_block: bool,
    pub processed_value_count: usize,
    pub data_lines: Vec<DataLine>,
}

/// The blocks and the highlight tokens of a whole text.
#[derive(Debug)]
pub struct ParseResult {
    pub loops: Vec<LoopBlock>,
    pub tokens: Vec<Token>,
}

/// Parses CIF text into its loop blocks and highlight tokens.
pub fn parse(text: &str) -> (r: ParseResult)
    requires
        text@.len() < usize::MAX,
    ensures
        parser::result_wf(r),
        forall|i: int|
            0 <= i < r.tokens@.len() ==> #[trigger] r.tokens@[i].line < lines::text_lines(
                text@,
            ).len(),
        exists|trace: Seq<ParserState>|
            parser::parse_trace(trace, text@) && r.tokens == trace.last().tokens && r.loops@
                == trace.last().flushed(),
{
    parser::parse_cif_internal(text)
}

} // verus!
