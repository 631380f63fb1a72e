use herdr_quotr::ui::card::{layout, rows as card_rows, text_width, title};
use herdr_quotr::markup::Pos;
use herdr_quotr::ui::chrome::{anchor_row, box_y, footer, question_box, question_caret, rows, Piece};
use herdr_quotr::ui::column::Area;
use herdr_quotr::ui::view::{Painted, PaintedRow};

#[test]
fn the_title_carries_the_number_and_the_start_of_the_quote() {
    assert_eq!(title(3, "  short one  "), " 3. \"short one\" ");
    assert_eq!(
        title(1, "a quote that is quite a lot longer than the title has any room for"),
        " 1. \"a quote that is quite a lot longer than the titl…\" "
    );
    assert_eq!(title(2, "   "), " 2. ");
    assert_eq!(title(120, "x"), " 120. \"x\" ");
}

#[test]
fn a_bare_quote_gets_no_card() {
    assert!(layout(1, "", "q", 40).is_none());
    assert_eq!(card_rows(1, "  ", "", 40), 0);
}

#[test]
fn the_row_count_matches_what_is_drawn() {
    let question = "one two three four five six";
    let card = layout(1, question, "", 16).unwrap();
    assert_eq!(card_rows(1, question, "", 16), 2 + card.body.len());
}

#[test]
fn a_title_that_widens_the_box_is_counted_in_its_rows() {
    let question = "one two three four five six";
    let quote = "a quote long enough that its title needs more than the measure allows";
    let card = layout(1, question, quote, 16).unwrap();
    assert!(card.box_width > 14);
    assert_eq!(card.body.len(), 1);
    assert_eq!(card_rows(1, question, quote, 16), 3);
    assert_eq!(card_rows(1, question, "", 16), 6);
}

#[test]
fn a_short_question_still_takes_the_whole_measure() {
    let card = layout(1, "why?", "", 40).unwrap();
    assert_eq!(card.box_width, 38);
    assert_eq!(card.text_width, 34);
    assert_eq!(card.body, vec![("why?".to_owned(), 30)]);
    // the top border, "╭─" + label + fill + "╮", spans the box
    assert_eq!(card.fill, 31);
    assert_eq!(2 + card.label.chars().count() + card.fill + 1, card.box_width);
    assert_eq!(card.bottom, 36);
}

#[test]
fn a_long_question_grows_the_box_instead_of_being_cut() {
    let card = layout(1, "one two three four five six", "", 16).unwrap();
    assert!(card.body.len() > 1);
    assert_eq!(text_width(16), 10);
    assert_eq!(text_width(3), 1);
}

#[test]
fn a_question_that_fits_is_one_row() {
    assert_eq!(rows("why?", 40), ["why?"]);
}

#[test]
fn a_long_question_wraps_instead_of_running_off_the_box() {
    assert_eq!(rows("the quick brown fox", 10), ["the quick ", "brown fox"]);
}

#[test]
fn an_empty_question_still_takes_a_row() {
    assert_eq!(rows("", 40), [""]);
}

#[test]
fn a_full_last_row_opens_the_next_one() {
    assert_eq!(rows("abcd", 4), ["abcd", ""]);
}

#[test]
fn the_box_sits_below_the_quote_and_flips_above_near_the_bottom() {
    let area = Area::new(0, 0, 60, 24);
    assert_eq!(box_y(area, Some(3), 4), 4);
    assert_eq!(box_y(area, Some(22), 4), 18);
    assert_eq!(box_y(area, None, 4), 10);
}

#[test]
fn the_box_grows_with_the_question_until_the_pane_runs_out() {
    let area = Area::new(0, 0, 60, 6);
    let (at, typed) = question_box(area, 40, "why?", Some(0));
    assert_eq!(at, Area::new(10, 1, 40, 3));
    assert_eq!(typed, ["why?"]);
    let long = "word ".repeat(60);
    let (at, typed) = question_box(area, 40, &long, None);
    assert_eq!(at.height, 6);
    assert!(typed.len() > 4);
}

#[test]
fn the_caret_follows_the_text_onto_the_last_row() {
    let typed = vec!["one ".to_owned(), "two".to_owned(), "three".to_owned()];
    assert_eq!(question_caret(&typed, Area::new(5, 2, 10, 2)), (1, (10, 3)));
    assert_eq!(question_caret(&typed, Area::new(5, 2, 3, 5)), (0, (7, 4)));
}

#[test]
fn a_question_that_fits_is_one_body_row_between_the_borders() {
    assert_eq!(layout(1, "why?", "", 40).unwrap().body.len(), 1);
}

#[test]
fn every_row_lines_up_and_none_runs_past_the_measure() {
    let card = layout(2, "why does this branch exist at all", "", 30).unwrap();
    let label = card.label.chars().count();
    // indent, "╭─", the title, its rule, "╮"
    let top = 2 + 2 + label + card.fill + 1;
    // indent, "│ ", the text, its padding, " │"
    let body: Vec<usize> = card.body.iter().map(|(row, gap)| 2 + 2 + row.chars().count() + gap + 2).collect();
    // indent, "╰", the rule, "╯"
    let bottom = 2 + 1 + card.bottom + 1;
    assert!(body.iter().all(|&w| w == top), "ragged box: {top} {body:?}");
    assert_eq!(bottom, top);
    assert!(top <= 30, "wider than the measure: {top}");
}

#[test]
fn the_box_grows_with_the_question_instead_of_clipping_it() {
    const LONG: &str = "why does this branch exist at all, and what breaks if I delete it now";
    let (at, typed) = question_box(Area::new(0, 0, 60, 24), 40, LONG, Some(0));
    assert!(typed.len() > 1);
    assert_eq!(usize::from(at.height), typed.len() + 2);
    assert_eq!(typed, rows(LONG, 38));
}

#[test]
fn a_question_taller_than_the_pane_shows_its_tail() {
    let long = "why does this branch exist at all, and what breaks if I delete it now ".repeat(8);
    let (at, typed) = question_box(Area::new(0, 0, 60, 11), 40, &long, Some(0));
    assert!(usize::from(at.height) < typed.len());
    let inner = Area::new(at.x + 1, at.y + 1, at.width - 2, at.height - 2);
    let (from, (_, y)) = question_caret(&typed, inner);
    assert_eq!(from, typed.len() - usize::from(inner.height));
    assert_eq!(y, inner.y + inner.height - 1);
}

#[test]
fn an_empty_box_keeps_the_caret_at_the_start_of_the_hint() {
    let (at, typed) = question_box(Area::new(0, 0, 60, 24), 40, "", Some(0));
    assert_eq!(at.height, 3);
    let inner = Area::new(at.x + 1, at.y + 1, at.width - 2, at.height - 2);
    assert_eq!(question_caret(&typed, inner), (0, (inner.x, inner.y)));
}

fn footer_text(asking: bool, banked: usize, status: &str) -> String {
    footer(asking, banked, status).into_iter().map(|(_, text)| text).collect()
}

#[test]
fn the_footer_lists_the_browsing_keys_then_the_bank_and_the_status() {
    assert_eq!(
        footer_text(false, 0, "12 lines"),
        "[drag] select   [v V] char line   [c] ask   [e] edit   [d] del   [s] send   [ ] turn   [q] quit   12 lines"
    );
    assert_eq!(footer_text(false, 3, "").ends_with("[q] quit   3 banked   "), true);
}

#[test]
fn the_question_box_footer_shows_only_its_own_keys() {
    assert_eq!(footer_text(true, 2, "ok"), "[enter] bank   [esc] back   2 banked   ok");
}

#[test]
fn footer_pieces_are_tagged_for_their_ink() {
    let pieces = footer(true, 0, "s");
    let kinds: Vec<Piece> = pieces.iter().map(|(kind, _)| *kind).collect();
    assert_eq!(
        kinds,
        [
            Piece::Bracket, Piece::Cap, Piece::Bracket, Piece::Hint,
            Piece::Bracket, Piece::Cap, Piece::Bracket, Piece::Hint,
            Piece::Count, Piece::Status,
        ]
    );
    assert_eq!(pieces[1].1, "enter");
    assert_eq!(pieces[8].1, "");
}

#[test]
fn the_box_hangs_from_where_the_selection_ends_or_else_the_caret() {
    let rows = vec![
        Some(PaintedRow { line: 0, start: 0, text: "first".to_owned(), linewise: false }),
        None,
        Some(PaintedRow { line: 1, start: 0, text: "second".to_owned(), linewise: false }),
    ];
    let painted = Painted::new(rows, 2, 0, Area::new(0, 4, 20, 3));
    let selection = Some((Pos::new(0, 1), Pos::new(1, 2)));
    assert_eq!(anchor_row(&painted, selection, Pos::new(0, 0)), Some(6));
    assert_eq!(anchor_row(&painted, None, Pos::new(0, 3)), Some(4));
    assert_eq!(anchor_row(&painted, None, Pos::new(5, 0)), None);
}
