use herdr_quotr::markup::{Pos, Tone};
use herdr_quotr::ui::column::Area;
use herdr_quotr::ui::style::{Ink, LineStyle, Run};
use herdr_quotr::ui::view::{
    bottom_start, cards_rows, chrome_rows, col_at, cuts, fitting, line_painted, line_rows,
    lines_in_frame, mark, paint_frame, row_paint, selected, shown, Banked, Painted, PaintedRow,
    Screen, Scroll, SourceLine,
};

fn row(line: usize, start: usize, text: &str) -> Option<PaintedRow> {
    Some(PaintedRow { line, start, text: text.to_owned(), linewise: false })
}

/// Line 7 wrapped to two rows, line 8 to one, painted at column x=3, y=5.
fn painted() -> Painted {
    let rows = vec![row(7, 0, "hello "), row(7, 6, "world"), row(8, 0, "日本")];
    Painted::new(rows, 2, 7, Area::new(3, 5, 6, 3))
}

#[test]
fn hit_maps_a_screen_cell_to_the_character_under_it() {
    let painted = painted();
    assert_eq!(painted.hit(3, 4), None);
    assert_eq!(painted.hit(4, 5), Some(Pos { line: 7, col: 1 }));
    assert_eq!(painted.hit(5, 6), Some(Pos { line: 7, col: 8 }));
    assert_eq!(painted.hit(3, 8), None);
}

#[test]
fn hit_past_the_end_of_a_row_lands_on_its_last_boundary() {
    assert_eq!(painted().hit(99, 6), Some(Pos { line: 7, col: 11 }));
}

#[test]
fn a_wide_glyph_takes_two_cells() {
    let painted = painted();
    assert_eq!(painted.hit(4, 7), Some(Pos { line: 8, col: 0 }));
    assert_eq!(painted.hit(5, 7), Some(Pos { line: 8, col: 1 }));
    assert_eq!(col_at("日本", 3), 1);
}

#[test]
fn caret_finds_the_wrapped_row_a_position_fell_on() {
    let painted = painted();
    assert_eq!(painted.caret(Pos { line: 7, col: 8 }), Some((5, 6)));
    assert_eq!(painted.caret(Pos { line: 8, col: 1 }), Some((5, 7)));
    assert_eq!(painted.caret(Pos { line: 9, col: 0 }), None);
}

#[test]
fn a_chrome_row_selects_nothing_and_a_page_is_never_empty() {
    let painted = Painted::new(vec![None, row(2, 0, "x")], 0, 2, Area::new(0, 0, 10, 2));
    assert_eq!(painted.hit(0, 0), None);
    assert_eq!(painted.hit(0, 1), Some(Pos { line: 2, col: 0 }));
    assert_eq!(painted.page(), 1);
    assert_eq!(painted.top(), 2);
    assert_eq!(Painted::empty().page(), 1);
}

const BANKED: [Banked<'static>; 2] = [
    Banked { number: 1, from: 2, to: 4, question: "why?", quote: "answer" },
    Banked { number: 2, from: 9, to: 9, question: "", quote: "more" },
];

fn text(banked: &[Banked], turns: &[usize], tone: Option<Tone>, line: usize, numbered: bool) -> String {
    mark(banked, turns, tone, line, numbered).text
}

#[test]
fn the_number_prints_once_where_the_range_opens() {
    assert_eq!(text(&BANKED, &[], None, 2, true), " 1│");
    assert_eq!(text(&BANKED, &[], None, 2, false), "  │");
    assert_eq!(text(&BANKED, &[], None, 3, true), "  │");
    assert_eq!(text(&BANKED, &[], None, 4, true), "  │");
}

#[test]
fn an_unbanked_unmarked_line_gets_blank_cells_the_same_width() {
    assert_eq!(text(&BANKED, &[], None, 5, true), "   ");
    assert_eq!(text(&[], &[], Some(Tone::User), 0, true), "   ");
}

#[test]
fn a_one_line_pair_is_marked_too() {
    assert_eq!(text(&BANKED, &[], None, 9, true), " 2│");
}

#[test]
fn a_turn_opens_with_its_own_glyph() {
    assert_eq!(mark(&[], &[0, 1], Some(Tone::User), 0, true).text, " ❯ ");
    assert_eq!(mark(&[], &[0, 1], Some(Tone::User), 0, true).tone, Some(Tone::User));
    assert_eq!(text(&[], &[0, 1], Some(Tone::Agent), 1, true), " ● ");
    assert_eq!(text(&[], &[0, 1], Some(Tone::Agent), 1, false), "   ");
    assert_eq!(text(&[], &[0, 1], Some(Tone::Agent), 2, true), "   ");
}

#[test]
fn banking_wins_the_gutter_cell_from_a_turn_marker() {
    assert_eq!(text(&BANKED, &[2], Some(Tone::Agent), 2, true), " 1│");
    assert_eq!(mark(&BANKED, &[2], Some(Tone::Agent), 2, true).tone, None);
}

#[test]
fn a_selection_covers_whole_middle_lines_and_its_ends_exactly() {
    let range = Some((Pos::new(2, 4), Pos::new(5, 1)));
    assert_eq!(selected(range, 2), Some((4, usize::MAX)));
    assert_eq!(selected(range, 3), Some((0, usize::MAX)));
    assert_eq!(selected(range, 5), Some((0, 1)));
    assert_eq!(selected(range, 6), None);
    assert_eq!(selected(None, 2), None);
}

/// Lines that wrap to the given numbers of rows at a width of 4.
fn texts(rows: &[usize]) -> Vec<String> {
    rows.iter().map(|&n| "a".repeat(4 * n)).collect()
}

fn screen<'a>(lines: &'a [SourceLine<'a>], styles: &'a [LineStyle], banked: &'a [Banked<'a>]) -> Screen<'a> {
    Screen {
        lines,
        styles,
        measure: 40,
        turns: &[],
        cursor: Pos::new(0, 0),
        selection: None,
        banked,
        scroll: Scroll::From(0),
        question: None,
        status: "",
    }
}

fn with_rows(rows: &[usize], f: impl Fn(&Screen) -> usize) -> usize {
    let texts = texts(rows);
    let lines: Vec<SourceLine> = texts.iter().map(|t| SourceLine { text: t, tone: Tone::Agent }).collect();
    f(&screen(&lines, &[], &[]))
}

#[test]
fn the_view_opens_where_the_last_line_sits_at_the_bottom() {
    assert_eq!(with_rows(&[1, 1, 1, 1], |s| bottom_start(s, 4, 2)), 2);
    assert_eq!(with_rows(&[1, 3, 2], |s| bottom_start(s, 4, 4)), 2);
    assert_eq!(with_rows(&[1, 3, 1], |s| bottom_start(s, 4, 4)), 1);
    assert_eq!(with_rows(&[1, 1], |s| bottom_start(s, 4, 10)), 0);
}

#[test]
fn the_view_opens_with_the_newest_line_on_screen() {
    for rows in [vec![1, 3, 2, 1], vec![2, 2, 2, 2, 2], vec![1], vec![4, 1, 1]] {
        let n = rows.len();
        let shown = with_rows(&rows, |s| {
            let top = bottom_start(s, 4, 4);
            top + lines_in_frame(s, top, 4, 6)
        });
        assert_eq!(shown, n);
    }
}

#[test]
fn a_newest_line_taller_than_the_frame_still_opens_the_view() {
    assert_eq!(with_rows(&[1, 9], |s| bottom_start(s, 4, 4)), 1);
    assert_eq!(with_rows(&[9], |s| bottom_start(s, 4, 4)), 0);
    let shown = with_rows(&[1, 9], |s| {
        let top = bottom_start(s, 4, 4);
        top + lines_in_frame(s, top, 4, 4)
    });
    assert_eq!(shown, 2);
}

#[test]
fn a_frame_paints_whole_lines_until_it_is_full() {
    // 1 + 2 rows fill 3 of 4; the next line's 2 rows would only half fit, so it waits.
    assert_eq!(with_rows(&[1, 2, 2, 1], |s| lines_in_frame(s, 0, 4, 4)), 2);
    // exactly full stops there
    assert_eq!(with_rows(&[2, 2, 1], |s| lines_in_frame(s, 0, 4, 4)), 2);
    // room to spare paints everything from the top line down
    assert_eq!(with_rows(&[1, 1, 1], |s| lines_in_frame(s, 1, 4, 10)), 2);
    assert_eq!(with_rows(&[1], |s| lines_in_frame(s, 3, 4, 10)), 0);
}

#[test]
fn the_first_line_shows_even_when_it_is_taller_than_the_frame() {
    assert_eq!(with_rows(&[9, 1], |s| lines_in_frame(s, 0, 4, 4)), 1);
    assert_eq!(with_rows(&[1, 1], |s| lines_in_frame(s, 0, 4, 0)), 1);
}

#[test]
fn a_line_takes_its_wrapped_rows_its_cards_and_its_chrome() {
    let lines = [
        SourceLine { text: "one two three", tone: Tone::Agent },
        SourceLine { text: "| a |", tone: Tone::Agent },
    ];
    let styles = vec![
        LineStyle::plain(),
        LineStyle::plain().showing("│ a │".to_owned()).above("┌───┐".to_owned()).below("└───┘".to_owned()),
    ];
    let banked = [
        Banked { number: 1, from: 0, to: 0, question: "why?", quote: "one" },
        Banked { number: 2, from: 0, to: 0, question: "", quote: "one" },
        Banked { number: 3, from: 1, to: 1, question: "and this?", quote: "| a |" },
    ];
    let s = screen(&lines, &styles, &banked);
    // a card is its two borders and its wrapped question; a bare quote has none
    assert_eq!(cards_rows(&banked, 0, 40), 3);
    assert_eq!(cards_rows(&banked, 5, 40), 0);
    // "one two three" wraps to one row at 40 columns, then the card under it
    assert_eq!(line_rows(&s, 0, 40), 1 + 3);
    // the rendered table row, its two borders, and the card under it
    assert_eq!(line_rows(&s, 1, 40), 1 + 2 + 3);
    // too narrow for the grid: the raw source, no borders
    assert_eq!(line_rows(&s, 1, 4) >= 2, true);
}

#[test]
fn the_screen_marks_a_line_in_its_own_tone() {
    let lines = [
        SourceLine { text: "question", tone: Tone::User },
        SourceLine { text: "answer", tone: Tone::Agent },
    ];
    let mut s = screen(&lines, &[], &[]);
    let turns = [0, 1];
    s.turns = &turns;
    assert_eq!(s.mark(0, true).text, " ❯ ");
    assert_eq!(s.mark(0, true).tone, Some(Tone::User));
    assert_eq!(s.mark(1, true).text, " ● ");
    assert_eq!(s.mark(1, false).text, "   ");
}

#[test]
fn a_row_is_cut_at_its_ends_its_selection_and_its_ink_changes() {
    assert_eq!(cuts(4, 10, &[6, 4, 9], (5, usize::MAX)), [4, 5, 6, 9, 10]);
    assert_eq!(cuts(0, 3, &[], (7, 8)), [0, 3]);
    assert_eq!(cuts(2, 2, &[], (2, 2)), [2]);
}

#[test]
fn a_rendered_line_too_wide_for_the_pane_paints_its_source() {
    let styles = vec![
        LineStyle::plain().showing("│ a │".to_owned()).above("┌───┐".to_owned()).below("└───┘".to_owned()),
        LineStyle::plain(),
    ];
    assert_eq!(shown(&styles, 0, "| a |", 10), "│ a │");
    assert_eq!(shown(&styles, 0, "| a |", 3), "| a |");
    assert_eq!(shown(&styles, 1, "plain", 3), "plain");
    assert_eq!(shown(&styles, 7, "past", 3), "past");
    assert_eq!(chrome_rows(fitting(&styles, 0, 10)), 2);
    assert_eq!(chrome_rows(fitting(&styles, 0, 3)), 0);
    assert_eq!(chrome_rows(fitting(&styles, 1, 3)), 0);
}

#[test]
fn a_row_lights_exactly_the_selected_characters() {
    let plan = row_paint(0, "hello world", None, Some((2, 7)));
    assert_eq!(plan.cuts, [0, 2, 7, 11]);
    assert_eq!(plan.pieces, [(Ink::Plain, false), (Ink::Plain, true), (Ink::Plain, false)]);
    assert!(!plan.padding_lit);
}

#[test]
fn the_padding_is_lit_only_when_the_range_runs_past_the_row() {
    let plan = row_paint(6, "world", None, Some((3, usize::MAX)));
    assert_eq!(plan.cuts, [6, 11]);
    assert_eq!(plan.pieces, [(Ink::Plain, true)]);
    assert!(plan.padding_lit);
    let ends_here = row_paint(6, "world", None, Some((0, 11)));
    assert!(!ends_here.padding_lit);
    let unselected = row_paint(0, "abc", None, None);
    assert_eq!(unselected.cuts, [0, 3]);
    assert_eq!(unselected.pieces, [(Ink::Plain, false)]);
    assert!(!unselected.padding_lit);
}

#[test]
fn a_row_is_cut_where_its_ink_changes_and_each_piece_takes_its_first_ink() {
    let style = LineStyle::new(vec![
        Run { start: 0, ink: Ink::Dim },
        Run { start: 5, ink: Ink::Code },
    ]);
    let plan = row_paint(0, "hello world", Some(&style), Some((8, 9)));
    assert_eq!(plan.cuts, [0, 5, 8, 9, 11]);
    assert_eq!(
        plan.pieces,
        [(Ink::Dim, false), (Ink::Code, false), (Ink::Code, true), (Ink::Code, false)]
    );
    let empty = row_paint(4, "", Some(&style), None);
    assert_eq!(empty.cuts, [4]);
    assert!(empty.pieces.is_empty());
}

#[test]
fn a_line_paints_its_borders_rows_and_cards_in_order() {
    let lines = [SourceLine { text: "| a |", tone: Tone::Agent }];
    let styles = vec![LineStyle::plain()
        .showing("│ a │".to_owned())
        .above("┌───┐".to_owned())
        .below("└───┘".to_owned())
        .linewise()];
    let banked = [Banked { number: 1, from: 0, to: 0, question: "why?", quote: "| a |" }];
    let s = screen(&lines, &styles, &banked);
    let rows = line_painted(&s, 0, 40);
    assert_eq!(rows.len(), line_rows(&s, 0, 40));
    assert!(rows[0].is_none());
    let text = rows[1].as_ref().unwrap();
    assert_eq!((text.line, text.start, text.text.as_str(), text.linewise), (0, 0, "│ a │", true));
    assert!(rows[2..].iter().all(Option::is_none));
}

#[test]
fn a_frame_holds_the_rows_of_the_lines_that_fit_and_where_they_came_from() {
    let texts = texts(&[1, 2, 2]);
    let lines: Vec<SourceLine> = texts.iter().map(|t| SourceLine { text: t, tone: Tone::Agent }).collect();
    let mut s = screen(&lines, &[], &[]);
    // a column 7 wide leaves 4 for text after the gutter
    s.measure = 7;
    s.scroll = Scroll::From(0);
    let painted = paint_frame(&s, Area::new(0, 0, 7, 4));
    assert_eq!(painted.top(), 0);
    assert_eq!(painted.lines(), 2);
    assert_eq!(painted.hit(3, 0), Some(Pos::new(0, 0)));
    assert_eq!(painted.hit(4, 2), Some(Pos::new(1, 5)));
    assert_eq!(painted.hit(3, 3), None);
    // opening at the bottom leaves the last line two rows above it
    s.scroll = Scroll::Bottom;
    let opening = paint_frame(&s, Area::new(0, 0, 7, 6));
    assert_eq!(opening.top(), 1);
    assert_eq!(opening.lines(), 2);
}
