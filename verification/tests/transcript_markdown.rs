use herdr_quotr::markup::{Block, Emphasis};
use herdr_quotr::transcript::block::classify;
use herdr_quotr::transcript::marks;
use herdr_quotr::transcript::markdown::strip;

fn chars(text: &str) -> Vec<char> {
    text.chars().collect()
}

fn block(text: &str) -> Block {
    classify(&chars(text))
}

fn lines(body: &str) -> Vec<(String, Block)> {
    strip(body).into_iter().map(|line| (line.text, line.block)).collect()
}

fn text(body: &str) -> Vec<String> {
    strip(body).into_iter().map(|line| line.text).collect()
}

fn stripped_text(source: &str) -> String {
    marks::strip(&chars(source)).0
}

/// The emphasis in force at each character of the stripped text.
fn marks(source: &str) -> Vec<Emphasis> {
    let (text, spans) = marks::strip(&chars(source));
    (0..text.chars().count())
        .map(|col| {
            spans
                .iter()
                .find(|s| (s.from..s.to).contains(&col))
                .map_or_else(Emphasis::default, |s| s.emphasis)
        })
        .collect()
}

#[test]
fn a_quote_prefix_counts_its_whole_nesting() {
    assert_eq!(block("> quoted"), Block::Quote(2));
    assert_eq!(block("> > nested"), Block::Quote(4));
}

#[test]
fn four_spaces_in_is_indented_code() {
    assert_eq!(block("    # not a heading"), Block::Prose);
}

#[test]
fn a_heading_loses_its_hashes_and_keeps_its_depth() {
    assert_eq!(lines("## Title"), [("Title".to_owned(), Block::Heading(2))]);
    assert_eq!(text("###### **Deep**"), ["Deep"]);
}

#[test]
fn a_bullet_and_a_quote_keep_their_markers() {
    assert_eq!(text("- an *item*"), ["- an item"]);
    assert_eq!(text("  12. `x`"), ["  12. x"]);
    assert_eq!(text("> a **quote**"), ["> a quote"]);
}

#[test]
fn a_spans_offset_counts_from_the_start_of_the_line() {
    let quoted = strip("> a **b**");
    assert_eq!(quoted.first().map(|l| l.text.as_str()), Some("> a b"));
    let span = quoted.first().and_then(|l| l.spans.first()).copied();
    assert_eq!(span.map(|s| (s.from, s.to, s.emphasis.strong)), Some((4, 5, true)));
}

#[test]
fn a_fenced_block_keeps_its_rails_and_its_body_untouched() {
    let fenced = lines("```rust\nlet x = **1**;\n```\nafter");
    assert_eq!(fenced.first(), Some(&("```rust".to_owned(), Block::Rail)));
    assert_eq!(fenced.get(1), Some(&("let x = **1**;".to_owned(), Block::Code)));
    assert_eq!(fenced.get(2), Some(&("```".to_owned(), Block::Rail)));
    assert_eq!(fenced.get(3), Some(&("after".to_owned(), Block::Prose)));
}

#[test]
fn an_unclosed_fence_runs_to_the_end_of_the_turn() {
    let fenced = lines("````js\n```\nstill code");
    assert_eq!(fenced.get(1).map(|l| l.1), Some(Block::Code));
    assert_eq!(fenced.get(2).map(|l| l.1), Some(Block::Code));
}

#[test]
fn a_rule_is_left_exactly_as_it_was() {
    assert_eq!(lines("---"), [("---".to_owned(), Block::Rule)]);
    assert_eq!(lines("|---|:--|"), [("|---|:--|".to_owned(), Block::Rule)]);
}

#[test]
fn a_table_row_keeps_its_pipes_and_loses_the_markers_between_them() {
    assert_eq!(lines("| `a` | **b** |"), [("| a | b |".to_owned(), Block::TableRow)]);
}

#[test]
fn a_code_span_loses_its_backticks_and_keeps_its_body_literal() {
    assert_eq!(stripped_text("run `cargo **test**` now"), "run cargo **test** now");
    assert_eq!(
        marks("run `x` now").get(4),
        Some(&Emphasis { code: true, ..Emphasis::default() })
    );
}

#[test]
fn strong_and_emphasis_lose_their_markers() {
    assert_eq!(stripped_text("a **bold** and *soft* and ~~gone~~"), "a bold and soft and gone");
    let marks = marks("a **b** c");
    assert!(marks.get(2).is_some_and(|e| e.strong));
    assert!(marks.get(4).is_some_and(|e| e.is_plain()));
}

#[test]
fn a_code_span_inside_bold_carries_both() {
    assert_eq!(stripped_text("**see `x` now**"), "see x now");
    let marks = marks("**see `x` now**");
    assert_eq!(
        marks.get(4),
        Some(&Emphasis { strong: true, code: true, ..Emphasis::default() })
    );
    assert!(marks.first().is_some_and(|e| e.strong && !e.code));
}

#[test]
fn an_unclosed_marker_is_left_as_text() {
    assert_eq!(stripped_text("a ` lone tick"), "a ` lone tick");
    assert_eq!(stripped_text("2 * 3 = 6"), "2 * 3 = 6");
    assert_eq!(stripped_text("some_snake_case_name"), "some_snake_case_name");
    assert_eq!(stripped_text("~/.config and ~5 items"), "~/.config and ~5 items");
    assert!(marks("2 * 3 = 6").iter().all(|e| e.is_plain()));
}

#[test]
fn inline_a_nested_marker_never_reaches_past_its_parent() {
    assert_eq!(stripped_text("**a ` b** c"), "a ` b c");
    assert!(marks("**a ` b** c").last().is_some_and(|e| e.is_plain()));
}

#[test]
fn a_link_keeps_its_label_and_trails_its_destination() {
    assert_eq!(stripped_text("see [docs](http://x) ok"), "see docs (http://x) ok");
    let marks = marks("see [docs](http://x) ok");
    assert!(marks.get(4).is_some_and(|e| e.link));
    assert!(marks.get(9).is_some_and(|e| e.dim));
}

#[test]
fn a_link_whose_label_is_its_url_reads_as_one_url() {
    assert_eq!(stripped_text("[http://x](http://x)"), "http://x");
    assert_eq!(stripped_text("[](http://x)"), "http://x");
    assert_eq!(stripped_text("![a shot](pic.png)"), "a shot (pic.png)");
}

#[test]
fn an_angle_bracket_url_loses_its_brackets_and_prose_keeps_them() {
    assert_eq!(stripped_text("see <https://x> now"), "see https://x now");
    assert_eq!(stripped_text("a <b> and 1 < 2 > 0"), "a <b> and 1 < 2 > 0");
}

#[test]
fn lines_drop_a_carriage_return_only_before_a_newline() {
    assert_eq!(text("one\r\ntwo\n\nthree\r"), ["one", "two", "", "three\r"]);
    assert!(strip("").is_empty());
    assert_eq!(text("trailing\n"), ["trailing"]);
}

#[test]
fn stripped_spans_come_in_order_inside_the_clean_text() {
    let source = "- a **bold** and *soft* `code` ~~gone~~ [link](x)";
    for line in strip(source) {
        let len = line.text.chars().count();
        for pair in line.spans.windows(2) {
            assert!(pair[0].to <= pair[1].from, "{:?}", line.spans);
        }
        for span in &line.spans {
            assert!(span.from < span.to && span.to <= len, "{:?}", line.spans);
        }
        assert!(line.spans.len() >= 4);
    }
    let (text, spans) = marks::strip(&chars("x **y** z"));
    assert_eq!(text, "x y z");
    assert_eq!(spans.len(), 1);
    assert_eq!((spans[0].from, spans[0].to), (2, 3));
}
