use herdr_quotr::markup::Block;
use herdr_quotr::transcript::block::{
    bullet_len, classify, heading_level, is_table_rule, is_thematic_break,
};
use herdr_quotr::ui::markdown::{language, quote_rule, rule, Fence};

fn chars(text: &str) -> Vec<char> {
    text.chars().collect()
}

fn block(text: &str) -> Block {
    classify(&chars(text))
}

#[test]
fn a_heading_is_one_to_six_hashes_before_a_space() {
    assert_eq!(block("## Title"), Block::Heading(2));
    assert_eq!(block("####### no"), Block::Prose);
    assert_eq!(block("#no-space"), Block::Prose);
}

#[test]
fn a_bullet_needs_a_space_after_its_marker() {
    assert_eq!(block("- item"), Block::Bullet { at: 0, len: 1 });
    assert_eq!(block("  12. item"), Block::Bullet { at: 2, len: 3 });
    assert_eq!(block("well-known"), Block::Prose);
}

#[test]
fn a_break_is_three_of_one_marker_and_nothing_else() {
    assert_eq!(block("---"), Block::Rule);
    assert_eq!(block("* * *"), Block::Rule);
    assert_eq!(block("- item"), Block::Bullet { at: 0, len: 1 });
}

#[test]
fn only_a_delimiter_row_is_all_scaffolding() {
    assert_eq!(block("|---|:--|"), Block::Rule);
    assert_eq!(block("| a | b |"), Block::TableRow);
    assert_eq!(block("a | b"), Block::Prose);
}

#[test]
fn block_a_heading_is_one_to_six_hashes_before_a_space() {
    assert_eq!(heading_level(&chars("## Title")), Some(2));
    assert_eq!(heading_level(&chars("####### no")), None);
    assert_eq!(heading_level(&chars("#no-space")), None);
}

#[test]
fn block_a_bullet_needs_a_space_after_its_marker() {
    assert_eq!(bullet_len(&chars("- item")), 1);
    assert_eq!(bullet_len(&chars("12. item")), 3);
    assert_eq!(bullet_len(&chars("well-known")), 0);
}

#[test]
fn block_a_break_is_three_of_one_marker_and_nothing_else() {
    assert!(is_thematic_break(&chars("---")));
    assert!(is_thematic_break(&chars("* * *")));
    assert!(!is_thematic_break(&chars("- item")));
}

#[test]
fn block_only_a_delimiter_row_is_all_scaffolding() {
    assert!(is_table_rule(&chars("|---|:--|")));
    assert!(!is_table_rule(&chars("| a | b |")));
}

#[test]
fn a_quote_marker_paints_as_a_rule_without_touching_the_prose() {
    assert_eq!(quote_rule(&chars("> quoted")).as_deref(), Some("│ quoted"));
    assert_eq!(quote_rule(&chars("> > nested")).as_deref(), Some("│ │ nested"));
    assert_eq!(quote_rule(&chars("> a > b")).as_deref(), Some("│ a > b"));
    assert_eq!(quote_rule(&chars("no quote here")), None);
    assert_eq!(rule("> > x", 2), "│ > x");
}

#[test]
fn only_a_long_enough_run_of_the_same_marker_closes_a_fence() {
    let fence = Fence::opened_by("````js", 1);
    assert_eq!(fence.as_ref().map(|f| f.lang()), Some("js"));
    assert_eq!(fence.as_ref().map(|f| f.closed_by("```")), Some(false));
    assert_eq!(fence.as_ref().map(|f| f.closed_by("````")), Some(true));
    assert_eq!(fence.as_ref().map(|f| f.closed_by("~~~~")), Some(false));
}

#[test]
fn three_markers_are_the_minimum_and_inline_code_is_not_one() {
    assert!(Fence::opened_by("``", 1).is_none());
    assert!(Fence::opened_by("`inline`", 1).is_none());
    assert!(Fence::opened_by("```", 1).is_some());
}

#[test]
fn a_fence_collects_its_body_a_line_at_a_time() {
    let mut fence = Fence::opened_by("  ~~~ rust extra", 4).unwrap();
    assert_eq!(fence.lang(), "rust");
    assert_eq!(fence.start(), 4);
    fence.push("fn main() {}");
    fence.push("");
    assert_eq!(fence.body(), "fn main() {}\n\n");
}

#[test]
fn a_rail_names_its_language_after_the_fence_run() {
    assert_eq!(language("```rust"), "rust");
    assert_eq!(language("  ~~~  py  more"), "py");
    assert_eq!(language("```"), "");
}
