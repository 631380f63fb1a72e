use herdr_quotr::ui::wrap::{cut, wrap, Row};
use unicode_width::UnicodeWidthChar;

fn texts(rows: &[Row]) -> Vec<&str> {
    rows.iter().map(|row| row.text.as_str()).collect()
}

#[test]
fn breaks_at_the_last_space_that_fits() {
    assert_eq!(texts(&wrap("the quick brown fox", 10)), ["the quick ", "brown fox"]);
}

#[test]
fn hard_breaks_a_word_longer_than_the_column() {
    assert_eq!(texts(&wrap("supercalifragilistic", 8)), ["supercal", "ifragili", "stic"]);
}

#[test]
fn keeps_a_blank_line_as_one_row() {
    assert_eq!(texts(&wrap("", 40)), [""]);
}

#[test]
fn rows_rejoin_to_the_source_line() {
    let text = "  indented code that runs past the column and keeps going";
    assert_eq!(texts(&wrap(text, 12)).concat(), text);
}

#[test]
fn each_row_knows_where_it_starts_in_the_source_line() {
    let rows = wrap("日本語 tail", 6);
    assert_eq!(texts(&rows), ["日本語", " tail"]);
    assert_eq!(rows.iter().map(|row| row.start).collect::<Vec<_>>(), [0, 3]);
}

#[test]
fn cuts_by_character_and_clamps() {
    assert_eq!(cut("日本語abc", 1, 4), "本語a");
    assert_eq!(cut("abc", 2, 99), "c");
    assert_eq!(cut("abc", 3, 1), "");
}

#[test]
fn a_line_that_fits_stays_one_row() {
    let rows = wrap("short", 10);
    assert_eq!(texts(&rows), ["short"]);
    assert_eq!(rows[0].start, 0);
}

#[test]
fn a_column_with_no_width_still_gives_back_every_character() {
    let rows = wrap("ab c", 0);
    assert_eq!(texts(&rows), ["a", "b", " ", "c"]);
    assert_eq!(texts(&rows).concat(), "ab c");
    assert_eq!(rows.iter().map(|row| row.start).collect::<Vec<_>>(), [0, 1, 2, 3]);
}

#[test]
fn a_carried_word_with_no_room_left_for_a_wide_glyph_gets_a_row_of_its_own() {
    let rows = wrap(" bcd漢", 4);
    assert_eq!(texts(&rows), [" ", "bcd", "漢"]);
    assert_eq!(rows.iter().map(|row| row.start).collect::<Vec<_>>(), [0, 1, 4]);
}

#[test]
fn no_row_runs_past_the_column_but_a_lone_wide_glyph() {
    let rows = wrap("漢字 ab 漢字x", 1);
    for row in &rows {
        assert_eq!(row.text.chars().count(), 1, "{:?}", row.text);
    }
    let rows = wrap("ab 漢字 cd 漢", 5);
    assert_eq!(texts(&rows), ["ab ", "漢字 ", "cd 漢"]);
}

#[test]
fn every_row_fits_the_column_one_character_at_a_time() {
    let text = "日本語のテキスト and some words, 漢字 mixed in with a longish_identifier_here\t\tend";
    for width in [0usize, 1, 2, 3, 5, 8, 13] {
        for row in wrap(text, width) {
            let cols: usize = row.text.chars().map(|c| c.width().unwrap_or(0)).sum();
            assert!(cols <= width || row.text.chars().count() == 1, "{width}: {:?}", row.text);
        }
    }
}
