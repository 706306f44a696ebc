use cif_parser::{get_current_item_name, parse, parse_cif_internal, LoopBlock, ParserState, Token};

fn tok(t: &Token) -> (usize, usize, usize, u8, Option<String>) {
    (t.line, t.start, t.length, t.token_type, t.item_name.clone())
}

fn columns(b: &LoopBlock) -> Vec<usize> {
    let mut out = Vec::new();
    for d in &b.data_lines {
        for v in &d.value_ranges {
            out.push(v.column_index);
        }
    }
    out
}

fn name(s: &str) -> Option<String> {
    Some(s.to_string())
}

#[test]
fn test_simple_parse() {
    let cif = r#"
data_test
_entry.id TEST
loop_
_atom_site.id
_atom_site.type_symbol
1 C
2 N
"#;
    let result = parse_cif_internal(cif);
    assert!(!result.loops.is_empty());
    assert!(!result.tokens.is_empty());
}

#[test]
fn bare_field_with_inline_value() {
    let result = parse("_entry.id TEST");
    assert_eq!(result.loops.len(), 1);
    let b = &result.loops[0];
    assert_eq!(b.category_name, "_entry");
    assert!(!b.is_in_loop_block);
    assert!(b.names_defined);
    assert_eq!(b.items.len(), 1);
    assert_eq!(b.items[0].name, "id");
    assert_eq!(b.items[0].start, 7);
    assert_eq!(b.items[0].length, 2);
    assert_eq!(b.processed_value_count, 1);
    assert_eq!(b.data_lines.len(), 1);
    assert_eq!(b.data_lines[0].value_ranges[0].start, 10);
    assert_eq!(b.data_lines[0].value_ranges[0].length, 4);
    assert_eq!(b.data_lines[0].value_ranges[0].column_index, 0);
    let toks: Vec<_> = result.tokens.iter().map(tok).collect();
    assert_eq!(
        toks,
        vec![
            (0, 0, 6, 1, None),
            (0, 6, 3, 2, None),
            (0, 10, 4, 2, name("_entry.id")),
        ]
    );
}

#[test]
fn loop_block_rows_cycle_columns() {
    let text = "loop_\n_atom_site.id\n_atom_site.type_symbol\n1 C\n2 N\n";
    let result = parse(text);
    assert_eq!(result.loops.len(), 1);
    let b = &result.loops[0];
    assert!(b.is_in_loop_block);
    assert_eq!(b.start_line, 0);
    assert_eq!(b.category_name, "_atom_site");
    assert_eq!(b.items.len(), 2);
    assert_eq!(b.items[0].name, "id");
    assert_eq!(b.items[1].name, "type_symbol");
    assert_eq!(b.data_lines.len(), 2);
    assert_eq!(b.processed_value_count, 4);
    assert_eq!(columns(b), vec![0, 1, 0, 1]);
    let toks: Vec<_> = result.tokens.iter().map(tok).collect();
    assert_eq!(
        toks,
        vec![
            (0, 0, 5, 6, None),
            (1, 0, 10, 1, None),
            (1, 10, 3, 2, None),
            (2, 0, 10, 1, None),
            (2, 10, 12, 3, None),
            (3, 0, 1, 2, name("_atom_site.id")),
            (3, 2, 1, 3, name("_atom_site.type_symbol")),
            (4, 0, 1, 2, name("_atom_site.id")),
            (4, 2, 1, 3, name("_atom_site.type_symbol")),
        ]
    );
}

#[test]
fn multi_line_string_as_third_value() {
    let text = "loop_\n_a.x\n_a.y\n1 A\n2\n;\nline one\nline two\n;\n";
    let result = parse(text);
    assert_eq!(result.loops.len(), 1);
    let b = &result.loops[0];
    // values 1, A, 2, then the string: the string is the fourth value, column 1
    assert_eq!(columns(b), vec![0, 1, 0, 1, 1, 1, 1]);
    assert_eq!(b.processed_value_count, 4);
    let string_tokens: Vec<_> = result.tokens.iter().filter(|t| t.line >= 5).map(tok).collect();
    assert_eq!(string_tokens.len(), 4);
    assert_eq!(string_tokens[0], (5, 0, 1, 3, name("_a.y")));
    assert_eq!(string_tokens[1], (6, 0, 8, 3, name("_a.y")));
    assert_eq!(string_tokens[2], (7, 0, 8, 3, name("_a.y")));
    assert_eq!(string_tokens[3].0, 8);
    assert_eq!(string_tokens[3].3, 3);
}

#[test]
fn row_wrapped_over_two_lines_keeps_columns() {
    let one = parse("loop_\n_a.x\n_a.y\n_a.z\n1 2 3 4 5 6\n");
    let two = parse("loop_\n_a.x\n_a.y\n_a.z\n1 2\n3 4 5 6\n");
    assert_eq!(columns(&one.loops[0]), vec![0, 1, 2, 0, 1, 2]);
    assert_eq!(columns(&two.loops[0]), columns(&one.loops[0]));
    assert_eq!(two.loops[0].data_lines.len(), 2);
}

#[test]
fn comment_line_is_one_token_and_ends_block() {
    let result = parse("_a.x 1\n# note here\n_b.y 2\n");
    let comments: Vec<_> = result.tokens.iter().filter(|t| t.line == 1).map(tok).collect();
    assert_eq!(comments, vec![(1, 0, 11, 10, None)]);
    assert_eq!(result.loops.len(), 2);
    for b in &result.loops {
        for i in &b.items {
            assert_ne!(i.line, 1);
        }
        for d in &b.data_lines {
            assert_ne!(d.line, 1);
        }
    }
}

#[test]
fn comment_inside_name_declarations_keeps_block() {
    let result = parse("loop_\n_a.x\n# c\n_a.y\n1 2\n");
    assert_eq!(result.loops.len(), 1);
    assert_eq!(result.loops[0].items.len(), 2);
}

#[test]
fn empty_and_comment_only_inputs() {
    let r = parse("");
    assert!(r.loops.is_empty());
    assert!(r.tokens.is_empty());
    let r = parse("# only a comment\n\n   \n");
    assert!(r.loops.is_empty());
    assert_eq!(r.tokens.len(), 1);
}

#[test]
fn empty_loop_is_not_emitted() {
    let r = parse("loop_\ndata_x\n");
    assert!(r.loops.is_empty());
    let toks: Vec<_> = r.tokens.iter().map(tok).collect();
    assert_eq!(toks, vec![(0, 0, 5, 6, None), (1, 0, 6, 8, None)]);
}

#[test]
fn heading_keeps_leading_whitespace_offset() {
    let r = parse("  data_abc\n");
    let toks: Vec<_> = r.tokens.iter().map(tok).collect();
    assert_eq!(toks, vec![(0, 2, 8, 8, None)]);
}

#[test]
fn irregular_data_name_is_one_category_token() {
    let r = parse("_nodot value\n");
    assert!(r.loops.is_empty());
    let toks: Vec<_> = r.tokens.iter().map(tok).collect();
    assert_eq!(toks, vec![(0, 0, 6, 1, None)]);
}

#[test]
fn bare_fields_of_one_category_rotate_colors() {
    let r = parse("_cell.a 1\n_cell.b 2\n_other.c 3\n");
    assert_eq!(r.loops.len(), 3);
    for b in &r.loops {
        assert_eq!(b.items.len(), 1);
        assert_eq!(columns(b), vec![0]);
    }
    let field_types: Vec<u8> = r.tokens.iter().filter(|t| t.start > 0 && t.item_name.is_none()).map(|t| t.token_type).collect();
    assert_eq!(field_types, vec![2, 3, 2]);
    let value_types: Vec<u8> = r.tokens.iter().filter(|t| t.item_name.is_some()).map(|t| t.token_type).collect();
    assert_eq!(value_types, vec![2, 3, 2]);
}

#[test]
fn blank_line_ends_declarations() {
    let r = parse("loop_\n_a.x\n\n_b.y\n");
    assert_eq!(r.loops.len(), 2);
    assert_eq!(r.loops[0].category_name, "_a");
    assert!(r.loops[0].names_defined);
    assert_eq!(r.loops[1].category_name, "_b");
    assert!(r.loops[1].is_in_loop_block);
    assert!(!r.loops[1].names_defined);
    assert_eq!(r.loops[1].start_line, 3);
}

#[test]
fn crlf_line_endings_are_stripped() {
    let r = parse("# c\r\n_a.x 1\r\n");
    assert_eq!(tok(&r.tokens[0]), (0, 0, 3, 10, None));
    assert_eq!(r.loops.len(), 1);
    assert_eq!(r.loops[0].data_lines[0].line, 1);
}

#[test]
fn offsets_count_characters() {
    let r = parse("_a.x \u{e9}t\u{e9} z\n");
    let v = &r.loops[0].data_lines[0].value_ranges[0];
    assert_eq!(v.start, 5);
    assert_eq!(v.length, 3);
}

#[test]
fn current_item_name_follows_value_count() {
    assert_eq!(get_current_item_name(&None), None);
    let r = parse("loop_\n_a.x\n_a.y\n1\n");
    let mut b = r.loops[0].clone();
    assert_eq!(get_current_item_name(&Some(b.clone())), name("_a.y"));
    b.processed_value_count = 2;
    assert_eq!(get_current_item_name(&Some(b)), name("_a.x"));
}

#[test]
fn indented_comment_line_changes_nothing() {
    let r = parse("loop_\n_a.x\n   # aside\n_a.y\n1 2\n");
    assert_eq!(r.loops.len(), 1);
    assert_eq!(r.loops[0].items.len(), 2);
    assert!(r.tokens.iter().all(|t| t.line != 2));
}

#[test]
fn long_row_wraps_over_fields() {
    let r = parse("loop_\n_a.x\n_a.y\n1 2 3\n");
    let toks: Vec<_> = r.tokens.iter().filter(|t| t.line == 3).map(tok).collect();
    assert_eq!(
        toks,
        vec![
            (3, 0, 1, 2, name("_a.x")),
            (3, 2, 1, 3, name("_a.y")),
            (3, 4, 1, 2, name("_a.x")),
        ]
    );
    assert_eq!(r.loops[0].processed_value_count, 3);
}

#[test]
fn string_outside_any_block_still_highlighted() {
    let r = parse(";\ntext\n;\n");
    assert!(r.loops.is_empty());
    let toks: Vec<_> = r.tokens.iter().map(tok).collect();
    assert_eq!(toks, vec![(0, 0, 1, 2, None), (1, 0, 4, 2, None), (2, 0, 1, 2, None)]);
}

#[test]
fn loop_field_inline_value_takes_first_column() {
    let r = parse("loop_\n_a.x 5\n");
    let b = &r.loops[0];
    assert!(b.is_in_loop_block);
    assert_eq!(columns(b), vec![0]);
    assert_eq!(b.processed_value_count, 1);
}

#[test]
fn counters_never_decrease_while_block_lives() {
    let lines = ["loop_", "_a.x", "_a.y", "1", "2 3", ";", "s", ";", "", "4"];
    let mut st = ParserState::new();
    let mut last_count = 0;
    let mut declared = false;
    for (i, l) in lines.iter().enumerate() {
        let chars: Vec<char> = l.chars().collect();
        st.process_line(i, &chars);
        let b = st.current.as_ref().unwrap();
        assert!(b.processed_value_count >= last_count);
        assert!(!declared || b.names_defined);
        last_count = b.processed_value_count;
        declared = b.names_defined;
    }
    assert_eq!(last_count, 5);
    let r = st.finish();
    assert_eq!(r.loops.len(), 1);
}

#[test]
fn comment_line_leaves_declaring_block_untouched() {
    let mut st = ParserState::new();
    st.process_line(0, &"loop_".chars().collect());
    st.process_line(1, &"_a.x".chars().collect());
    let before_items = st.current.as_ref().unwrap().items.len();
    let before_tokens = st.tokens.len();
    st.process_line(2, &"# note".chars().collect());
    assert_eq!(st.current.as_ref().unwrap().items.len(), before_items);
    assert!(st.loops.is_empty());
    assert_eq!(st.tokens.len(), before_tokens + 1);
    assert_eq!(tok(&st.tokens[before_tokens]), (2, 0, 6, 10, None));
}

#[test]
fn category_change_inside_loop_keeps_loop_kind() {
    let r = parse("loop_\n_a.x\n1\n_b.y\n2 3\n");
    assert_eq!(r.loops.len(), 2);
    assert_eq!(r.loops[0].category_name, "_a");
    assert_eq!(r.loops[0].processed_value_count, 1);
    let b = &r.loops[1];
    assert_eq!(b.category_name, "_b");
    assert!(b.is_in_loop_block);
    assert!(b.names_defined);
    assert_eq!(b.processed_value_count, 2);
    assert_eq!(columns(b), vec![0, 0]);
}

#[test]
fn same_category_field_after_values_joins_loop() {
    let r = parse("loop_\n_a.x\n1\n_a.y\n");
    assert_eq!(r.loops.len(), 1);
    assert_eq!(r.loops[0].items.len(), 2);
}

#[test]
fn heading_ends_block_and_orphan_row_is_dropped() {
    let r = parse_cif_internal("loop_\n_a.x\n1\ndata_x\n2\n");
    assert_eq!(r.loops.len(), 1);
    let d = &r.loops[0].data_lines;
    assert_eq!(d.len(), 1);
    assert_eq!(d[0].line, 2);
    assert_eq!(r.tokens.len(), 5);
    assert_eq!(tok(&r.tokens[4]), (3, 0, 6, 8, None));
}

#[test]
fn repeated_values_found_at_successive_offsets() {
    let r = parse_cif_internal("loop_\n_a.x\n_a.y\n1 1 1\n1\n");
    let d = &r.loops[0].data_lines;
    let first: Vec<(usize, usize, usize)> = d[0].value_ranges.iter().map(|v| (v.start, v.length, v.column_index)).collect();
    assert_eq!(first, vec![(0, 1, 0), (2, 1, 1), (4, 1, 0)]);
    let second: Vec<(usize, usize, usize)> = d[1].value_ranges.iter().map(|v| (v.start, v.length, v.column_index)).collect();
    assert_eq!(second, vec![(0, 1, 1)]);
}
