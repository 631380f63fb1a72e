use herdr_quotr::markup::{Block, Emphasis, Span, Tone};
use herdr_quotr::ui::prose::table_styles;
use herdr_quotr::ui::style::Ink;
use herdr_quotr::ui::table::{align_of, alignments, boundaries, cells, rule, Align, Markup, Table};
use herdr_quotr::ui::width::width_of_char;
use unicode_width::{UnicodeWidthChar, UnicodeWidthStr};

fn chars(text: &str) -> Vec<char> {
    text.chars().collect()
}

const SRC: [&str; 4] = ["| slot | hue |", "|---|:-:|", "| code | orange |", "| strong | yellow |"];

const CODE: [Span; 1] = [Span {
    from: 2,
    to: 6,
    emphasis: Emphasis { code: true, strong: false, italic: false, struck: false, link: false, dim: false },
}];

fn rows() -> Vec<Markup<'static>> {
    SRC.iter()
        .enumerate()
        .map(|(index, text)| Markup {
            text,
            tone: Tone::Agent,
            block: Block::TableRow,
            spans: if index == 2 { &CODE } else { &[] },
        })
        .collect()
}

#[test]
fn a_row_splits_into_trimmed_cells() {
    let split = cells(&chars("| a | bb |")).unwrap_or_default();
    assert_eq!(
        split.iter().map(|cell| (cell.at, cell.text.as_str())).collect::<Vec<_>>(),
        [(2, "a"), (6, "bb")]
    );
    assert!(cells(&chars("no pipes")).is_none());
}

#[test]
fn the_delimiter_row_carries_the_alignments() {
    assert_eq!(
        alignments(&chars("|---|:-:|--:|")),
        Some(vec![Align::Left, Align::Center, Align::Right])
    );
    assert_eq!(alignments(&chars("| a | b |")), None);
    assert_eq!(align_of(&chars(":")), None);
    assert_eq!(align_of(&chars("::")), None);
    assert_eq!(align_of(&chars(":-")), Some(Align::Left));
}

#[test]
fn a_table_draws_a_grid_the_width_of_its_widest_cell() {
    let table = Table::parse(&rows(), 80).unwrap();
    assert_eq!(table.len(), SRC.len());
    assert_eq!(table.rows[0], "│ slot   │  hue   │");
    assert_eq!(table.rows[1], "├────────┼────────┤");
    assert_eq!(table.rows[2], "│ code   │ orange │");
    assert!(table.rows.iter().all(|row| row.chars().count() == 19));
    assert_eq!(table.rules, [0, 9, 18]);
}

#[test]
fn the_borders_hang_off_the_first_and_last_rows() {
    let table = Table::parse(&rows(), 80).unwrap();
    assert_eq!(table.top, "┌────────┬────────┐");
    assert_eq!(table.bottom, "└────────┴────────┘");
}

#[test]
fn a_cells_emphasis_follows_it_into_the_grid() {
    let table = Table::parse(&rows(), 80).unwrap();
    assert_eq!(table.spans[2], [Span { from: 2, to: 6, emphasis: CODE[0].emphasis }]);
    assert!(table.spans[1].is_empty());
    assert!(table.spans[0].is_empty());
}

#[test]
fn a_grid_too_wide_to_draw_stays_raw_markdown() {
    assert!(Table::parse(&rows(), 12).is_none());
    assert!(Table::parse(&rows(), 18).is_none());
    assert!(Table::parse(&rows(), 19).is_some());
}

#[test]
fn a_row_without_a_delimiter_under_it_is_not_a_table() {
    let loose: Vec<Markup<'_>> = ["| a | b |", "just prose"]
        .iter()
        .map(|text| Markup { text, tone: Tone::Agent, block: Block::TableRow, spans: &[] })
        .collect();
    assert!(Table::parse(&loose, 80).is_none());
}

#[test]
fn the_grid_pieces_add_up() {
    assert_eq!(rule(&[1, 2], '┌', '┬', '┐'), "┌───┬────┐");
    assert_eq!(rule(&[], '┌', '┬', '┐'), "┌");
    assert_eq!(boundaries(&[1, 2]), [0, 4, 9]);
}

#[test]
fn every_row_of_a_rendered_table_selects_linewise() {
    let styles = table_styles(&Table::parse(&rows(), 80).unwrap());
    assert_eq!(styles.len(), 4);
    assert!(styles.iter().all(|s| s.is_linewise()));
}

#[test]
fn cell_contents_are_styled_like_prose() {
    let styles = table_styles(&Table::parse(&rows(), 80).unwrap());
    // "│ code   │ orange │" — the source cell's emphasis follows it into the padding.
    assert_eq!(styles[2].at(0), Ink::Dim);
    assert_eq!(styles[2].at(2), Ink::Marked(None, CODE[0].emphasis));
    assert_eq!(styles[2].at(6), Ink::Plain);
    assert_eq!(styles[2].at(11), Ink::Plain);
    assert_eq!(styles[1].at(5), Ink::Dim);
}

#[test]
fn a_row_the_table_carries_no_spans_for_is_styled_as_plain_grid() {
    let table = Table {
        rows: vec!["│ a │".to_owned(), "├───┤".to_owned(), "│ b │".to_owned()],
        spans: Vec::new(),
        top: "┌───┐".to_owned(),
        bottom: "└───┘".to_owned(),
        rules: vec![0, 4],
    };
    let styles = table_styles(&table);
    assert_eq!(styles.len(), 3);
    assert_eq!(styles[2].at(0), Ink::Dim);
    assert_eq!(styles[2].at(2), Ink::Plain);
    assert!(styles.iter().all(|s| s.is_linewise()));
}

fn cols(text: &str) -> usize {
    text.chars().map(|c| c.width().unwrap_or(0)).sum()
}

#[test]
fn every_line_of_a_rendered_table_takes_the_width_of_its_grid() {
    const WIDE: [&str; 4] = ["| 名前 | hue |", "|---|--:|", "| 日本語 | x |", "| a | 漢字漢字 |"];
    let lines: Vec<Markup<'static>> =
        WIDE.iter().map(|text| Markup { text, tone: Tone::Agent, block: Block::TableRow, spans: &[] }).collect();
    for (source, width) in [(rows(), 80), (lines, 30)] {
        let table = Table::parse(&source, width).unwrap();
        let drawn = table.rules.last().unwrap() + 1;
        assert!(drawn <= width);
        assert_eq!(cols(&table.top), drawn);
        assert_eq!(cols(&table.bottom), drawn);
        assert_eq!(table.top.width(), drawn);
        for row in &table.rows {
            assert_eq!(cols(row), drawn, "{row}");
            assert_eq!(row.width(), drawn, "{row}");
        }
    }
}

#[test]
fn a_table_wider_than_the_measure_stays_markdown() {
    const WIDE: [&str; 3] = ["| 名前 | hue |", "|---|--:|", "| 日本語 | x |"];
    let lines: Vec<Markup<'static>> =
        WIDE.iter().map(|text| Markup { text, tone: Tone::Agent, block: Block::TableRow, spans: &[] }).collect();
    assert!(Table::parse(&lines, 16).is_some());
    assert!(Table::parse(&lines, 15).is_none());
}

#[test]
fn box_drawing_characters_take_one_column() {
    for c in '\u{2500}'..='\u{257f}' {
        assert_eq!(width_of_char(c), Some(1), "{c}");
    }
}
