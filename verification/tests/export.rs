use herdr_quotr::export::{batch, block};

#[test]
fn wraps_the_whole_range_in_one_quote_pair() {
    assert_eq!(block(&["one", "two"], None), "\"one\ntwo\"");
}

#[test]
fn puts_the_question_a_blank_line_below() {
    assert_eq!(block(&["one"], Some("why?")), "\"one\"\n\nwhy?");
}

#[test]
fn leaves_markdown_inside_the_quote_untouched() {
    let lines = ["```rust", "let x = 1;", "```"];
    assert_eq!(block(&lines, None), "\"```rust\nlet x = 1;\n```\"");
}

#[test]
fn an_empty_range_is_an_empty_quote_pair() {
    assert_eq!(block(&[], None), "\"\"");
    assert_eq!(block(&["", ""], None), "\"\n\"");
}

#[test]
fn a_batch_puts_a_rule_between_its_blocks() {
    let blocks = vec!["\"a\"".to_owned(), "\"b\"\n\nwhy?".to_owned()];
    assert_eq!(batch(&blocks), "\"a\"\n\n---\n\n\"b\"\n\nwhy?");
    assert_eq!(batch(&["\"a\"".to_owned()]), "\"a\"");
    assert_eq!(batch(&[]), "");
}
