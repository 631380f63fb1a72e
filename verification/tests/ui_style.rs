use herdr_quotr::markup::{Block, Emphasis, Span, Tone};
use herdr_quotr::ui::column::DEFAULT_MEASURE;
use herdr_quotr::ui::prose::{analyze, apply_runs, line_style, FenceJob};
use herdr_quotr::ui::style::{region_runs, Ink, LineStyle, Run};
use herdr_quotr::ui::table::Markup;

fn agent(text: &str) -> Markup<'_> {
    Markup { text, tone: Tone::Agent, block: Block::Prose, spans: &[] }
}

fn styled(lines: &[Markup<'_>]) -> (Vec<LineStyle>, Vec<FenceJob>) {
    analyze(lines, DEFAULT_MEASURE)
}

fn styled_runs() -> LineStyle {
    LineStyle::new(vec![
        Run { start: 2, ink: Ink::Code },
        Run { start: 5, ink: Ink::Plain },
        Run { start: 9, ink: Ink::Dim },
    ])
}

#[test]
fn a_run_holds_until_the_next_one_starts() {
    let style = styled_runs();
    assert_eq!(style.at(0), Ink::Plain);
    assert_eq!(style.at(2), Ink::Code);
    assert_eq!(style.at(4), Ink::Code);
    assert_eq!(style.at(5), Ink::Plain);
    assert_eq!(style.at(99), Ink::Dim);
}

#[test]
fn an_empty_style_is_the_base_everywhere() {
    assert_eq!(LineStyle::plain().at(7), Ink::Plain);
    assert!(LineStyle::plain().breaks(0, 100).is_empty());
}

#[test]
fn breaks_are_the_run_starts_inside_the_window() {
    assert_eq!(styled_runs().breaks(2, 9), [2, 5]);
    assert!(styled_runs().breaks(6, 8).is_empty());
}

#[test]
fn a_fenced_block_is_left_to_the_highlighter_between_dim_rails() {
    let rail = |text| Markup { block: Block::Rail, ..agent(text) };
    let code = |text| Markup { block: Block::Code, ..agent(text) };
    let (styles, jobs) = styled(&[rail("```rust"), code("let x = 1;"), code("x"), rail("```"), agent("after")]);
    assert_eq!(styles[0].at(0), Ink::Dim);
    assert_eq!(styles[3].at(0), Ink::Dim);
    assert_eq!(styles[4].at(0), Ink::Plain);
    assert_eq!(jobs.len(), 1);
    assert_eq!((jobs[0].start, jobs[0].lines), (1, 2));
    assert_eq!(jobs[0].language, "rust");
    assert_eq!(jobs[0].source, "let x = 1;\nx\n");
}

#[test]
fn an_untagged_fence_leaves_its_body_in_the_base_style() {
    let rail = |text| Markup { block: Block::Rail, ..agent(text) };
    let (styles, jobs) = styled(&[rail("```"), Markup { block: Block::Code, ..agent("# literal") }]);
    assert_eq!(styles[1].at(0), Ink::Plain);
    assert_eq!(jobs[0].language, "");
}

#[test]
fn a_user_turn_is_left_unstyled() {
    let user = Markup { tone: Tone::User, block: Block::Heading(1), ..agent("my prompt") };
    assert_eq!(styled(&[user]).0[0].at(0), Ink::Plain);
}

#[test]
fn a_heading_opens_in_its_accent_and_a_span_inside_it_still_reads() {
    let strong = Emphasis { strong: true, ..Emphasis::default() };
    let spans = [Span { from: 6, to: 10, emphasis: strong }];
    let line = Markup { block: Block::Heading(1), spans: &spans, ..agent("Title bold") };
    let style = line_style(&line);
    assert_eq!(style.at(0), Ink::Heading(1));
    assert_eq!(style.at(6), Ink::Marked(Some(1), strong));
    assert_eq!(style.at(10), Ink::Heading(1));
}

#[test]
fn a_blockquote_paints_a_rule_and_carries_its_prose_on() {
    let style = line_style(&Markup { block: Block::Quote(2), ..agent("> quoted") });
    assert_eq!(style.display(), Some("│ quoted"));
    assert_eq!(style.at(0), Ink::Dim);
    assert_eq!(style.at(2), Ink::Plain);
}

#[test]
fn a_bullet_is_accented_and_a_rule_is_all_marker() {
    let (styles, _) = styled(&[
        Markup { block: Block::Bullet { at: 0, len: 1 }, ..agent("- item") },
        Markup { block: Block::Rule, ..agent("---") },
    ]);
    assert_eq!(styles[0].at(0), Ink::Code);
    assert_eq!(styles[0].at(2), Ink::Plain);
    assert_eq!(styles[1].at(2), Ink::Dim);
}

#[test]
fn a_table_claims_its_own_rows_and_prose_resumes_after_them() {
    let row = |text| Markup { block: Block::TableRow, ..agent(text) };
    let (styles, _) = styled(&[
        row("| a | b |"),
        Markup { block: Block::Rule, ..agent("|---|---|") },
        row("| 1 | 2 |"),
        agent("after"),
    ]);
    assert!(styles[0].display().is_some());
    assert!(styles[2].display().is_some());
    assert!(styles[3].display().is_none());
    assert!(styles[..3].iter().all(LineStyle::is_linewise));
    assert_eq!(styles[0].above_row(), Some("┌───┬───┐"));
    assert_eq!(styles[2].below_row(), Some("└───┴───┘"));
    assert_eq!(styles[1].at(3), Ink::Dim);
}

#[test]
fn a_table_too_wide_to_draw_falls_back_to_dim_pipes() {
    let wide = "| ".to_owned() + &"x".repeat(200) + " |";
    let (styles, _) = styled(&[
        Markup { block: Block::TableRow, ..agent(&wide) },
        Markup { block: Block::Rule, ..agent("|---|") },
    ]);
    assert!(styles[0].display().is_none());
    assert_eq!(styles[0].at(0), Ink::Dim);
    assert_eq!(styles[0].at(2), Ink::Plain);
}

#[test]
fn a_code_span_wins_the_offset_a_marker_run_shares() {
    let code = Emphasis { code: true, ..Emphasis::default() };
    let spans = [Span { from: 2, to: 3, emphasis: code }];
    let style = line_style(&Markup { block: Block::Bullet { at: 0, len: 2 }, spans: &spans, ..agent("- x") });
    assert_eq!(style.at(0), Ink::Code);
    assert_eq!(style.at(2), Ink::Marked(None, code));
    assert_eq!(style.at(3), Ink::Plain);
}

#[test]
fn highlighted_regions_start_where_the_last_one_ended() {
    let runs = region_runs(&[((1, 2, 3), "let"), ((4, 5, 6), " x = "), ((7, 8, 9), "1;\n")]);
    assert_eq!(
        runs,
        [
            Run { start: 0, ink: Ink::Rgb(1, 2, 3) },
            Run { start: 3, ink: Ink::Rgb(4, 5, 6) },
            Run { start: 8, ink: Ink::Rgb(7, 8, 9) },
        ]
    );
}

#[test]
fn a_region_is_counted_in_characters_without_its_trailing_newline() {
    let runs = region_runs(&[((0, 0, 0), "é\n\n"), ((9, 9, 9), "x")]);
    assert_eq!(runs[1].start, 1);
    assert!(region_runs(&[]).is_empty());
}

#[test]
fn highlighted_runs_land_on_their_own_lines_and_stop_at_the_end() {
    let mut styles = vec![LineStyle::plain().linewise(), LineStyle::plain(), LineStyle::plain()];
    let red = vec![Run { start: 0, ink: Ink::Rgb(255, 0, 0) }];
    let blue = vec![Run { start: 2, ink: Ink::Rgb(0, 0, 255) }];
    apply_runs(&mut styles, 1, vec![red.clone(), blue.clone(), red.clone()]);
    assert_eq!(styles.len(), 3);
    assert!(styles[0].is_linewise());
    assert_eq!(styles[1].runs, red);
    assert_eq!(styles[2].runs, blue);
}
