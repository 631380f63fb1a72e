use herdr_quotr::app::{App, Grain, Mode, Outgoing, Pending};
use herdr_quotr::keymap::{key_command, Command, Key};
use herdr_quotr::bank::Pair;
use herdr_quotr::herdr::{pane_from, Status};
use herdr_quotr::markup::{Pos, Tone};
use herdr_quotr::transcript::{SessionId, Transcript};
use herdr_quotr::ui::column::{Area, DEFAULT_MEASURE};
use herdr_quotr::ui::view::{Painted, PaintedRow, Scroll};

const UUID: &str = "673dfc91-ee56-4884-a4ab-01fc543dabc8";

/// A prompt, a gap, and a two-line answer.
fn transcript() -> Transcript {
    Transcript::from_turns(&[
        (Tone::User, "prompt".to_owned()),
        (Tone::Agent, "line one\nline two".to_owned()),
    ])
}

fn app() -> App {
    App::new(
        pane_from(Some("w1:p1".to_owned())),
        SessionId::parse(UUID).ok(),
        transcript(),
        vec![false; 4],
        DEFAULT_MEASURE,
        "4 lines".to_owned(),
    )
}

#[test]
fn the_picker_opens_on_the_last_line_with_nothing_selected() {
    let app = app();
    assert_eq!(app.cursor, Pos::line_start(3));
    assert!(app.opening);
    assert!(app.selection().is_none());
    assert!(app.bank.is_empty());
    assert_eq!(app.status, "4 lines");
}

#[test]
fn a_range_reads_in_order_whichever_way_it_was_made() {
    let mut app = app();
    app.move_to(Pos::new(3, 4));
    app.toggle_range(Grain::Char);
    app.move_to(Pos::new(2, 2));
    assert_eq!(app.range(), (Pos::new(2, 2), Pos::new(3, 4)));
    app.toggle_range(Grain::Line);
    assert_eq!(app.range(), (Pos::new(2, 0), Pos::new(3, 8)));
    assert_eq!(app.selection(), Some((Pos::new(2, 0), Pos::new(3, 8))));
    app.toggle_range(Grain::Line);
    assert!(app.selection().is_none());
}

#[test]
fn a_rendered_line_makes_the_range_linewise() {
    let mut app = app();
    app.linewise = vec![false, false, false, true];
    app.move_to(Pos::new(3, 2));
    app.toggle_range(Grain::Char);
    assert_eq!(app.range(), (Pos::new(3, 0), Pos::new(3, 8)));
}

#[test]
fn asking_needs_a_selection_and_banking_saves_the_trimmed_question() {
    let mut app = app();
    app.ask();
    assert_eq!(app.status, "nothing selected");
    assert!(!app.asking());
    app.move_to(Pos::new(2, 0));
    app.toggle_range(Grain::Line);
    app.ask();
    assert!(app.asking());
    for c in "  why? ".chars() {
        app.type_char(c);
    }
    app.backspace();
    app.bank_pair();
    assert_eq!(app.mode, Mode::Browse);
    assert!(app.selection().is_none());
    assert_eq!(app.bank.len(), 1);
    assert_eq!(app.bank.get(0).map(|p| p.question.as_str()), Some("why?"));
    assert_eq!(app.status, "pair 1 saved — 1 banked, S sends");
}

#[test]
fn e_reopens_a_pair_and_d_deletes_it() {
    let mut app = app();
    app.move_to(Pos::new(2, 0));
    app.toggle_range(Grain::Line);
    app.ask();
    app.type_char('?');
    app.bank_pair();
    app.edit_pair();
    assert_eq!(app.mode, Mode::Ask { editing: Some(0) });
    assert_eq!(app.question, "?");
    app.clear_question();
    app.type_char('!');
    app.bank_pair();
    assert_eq!(app.bank.get(0).map(|p| p.question.as_str()), Some("!"));
    app.delete_pair();
    assert!(app.bank.is_empty());
    assert_eq!(app.status, "pair 1 deleted — 0 left");
    app.delete_pair();
    assert_eq!(app.status, "no banked pair here");
}

#[test]
fn the_batch_quotes_each_pair_and_separates_them() {
    let mut app = app();
    app.move_to(Pos::new(2, 0));
    app.toggle_range(Grain::Line);
    app.ask();
    app.type_char('x');
    app.bank_pair();
    app.move_to(Pos::new(3, 5));
    app.toggle_range(Grain::Char);
    app.move_to(Pos::new(3, 8));
    app.bank_selection();
    assert_eq!(app.compose(), "\"line one\"\n\nx\n\n---\n\n\"two\"");
}

#[test]
fn send_writes_the_batch_to_the_pane_unless_the_agent_is_blocked() {
    let mut app = app();
    assert!(matches!(app.send(Some(Status::Idle)), Outgoing::Nothing));
    assert_eq!(app.status, "nothing selected");
    app.move_to(Pos::new(0, 0));
    app.toggle_range(Grain::Line);
    match app.send(Some(Status::Working)) {
        Outgoing::Send { pane, text } => {
            assert_eq!(pane.as_str(), "w1:p1");
            assert_eq!(text, "\"prompt\"");
        }
        other => panic!("expected a send, got {other:?}"),
    }
    match app.send(Some(Status::Blocked)) {
        Outgoing::Park(pending) => {
            assert_eq!(pending.session, UUID);
            assert_eq!(pending.pairs.len(), 1);
        }
        other => panic!("expected a park, got {other:?}"),
    }
    app.parked(None);
    assert!(app.status.starts_with("agent is blocked — batch parked"));
    app.send_failed("boom");
    assert_eq!(app.status, "send failed: boom");
    app.sent();
    assert!(app.should_quit);
}

#[test]
fn a_blocked_send_parks_the_batch_and_leaves_the_bank_the_selection_and_the_question_alone() {
    let mut app = app();
    app.move_to(Pos::new(0, 0));
    app.toggle_range(Grain::Line);
    app.ask();
    app.type_char('x');
    app.bank_pair();
    app.move_to(Pos::new(2, 0));
    app.toggle_range(Grain::Line);
    let anchor = app.anchor;
    let question = app.question.clone();
    let status = app.status.clone();
    match app.send(Some(Status::Blocked)) {
        Outgoing::Park(pending) => {
            assert_eq!(pending.session, UUID);
            assert_eq!(pending.pairs.len(), 2);
            assert_eq!(pending.pairs[0].question, "x");
            assert_eq!(pending.pairs[1].from, Pos::new(2, 0));
            assert_eq!(pending.pairs[1].question, "");
        }
        other => panic!("expected a park, got {other:?}"),
    }
    assert_eq!(app.bank.len(), 1);
    assert!(anchor.is_some());
    assert_eq!(app.anchor, anchor);
    assert_eq!(app.question, question);
    assert_eq!(app.status, status);
    assert!(!app.should_quit);
}

#[test]
fn without_a_pane_there_is_nowhere_to_send() {
    let mut app = App::new(None, None, transcript(), Vec::new(), DEFAULT_MEASURE, String::new());
    assert!(matches!(app.send(None), Outgoing::Nothing));
    assert_eq!(app.status, "no QUOTR_AGENT_PANE — nowhere to send");
}

#[test]
fn a_parked_batch_comes_back_only_into_its_own_session_and_only_whole() {
    let pair = |line: usize, col: usize| Pair { from: Pos::line_start(line), to: Pos::new(line, col), question: "q".to_owned() };
    let mut app = app();
    app.restore(Some(Pending { session: "other".to_owned(), pairs: vec![pair(2, 3)] }));
    assert!(app.bank.is_empty());
    app.restore(Some(Pending { session: UUID.to_owned(), pairs: vec![pair(2, 3), pair(3, 99)] }));
    assert!(app.bank.is_empty());
    app.restore(Some(Pending { session: UUID.to_owned(), pairs: vec![pair(2, 3), pair(3, 8)] }));
    assert_eq!(app.bank.len(), 2);
    assert_eq!(app.cursor, Pos::line_start(2));
    assert_eq!(app.scroll, 2);
    assert!(!app.opening);
    assert_eq!(app.status, "restored 2 parked pair(s) — S sends");
}

#[test]
fn the_caret_moves_by_character_line_page_and_turn_and_stays_on_text() {
    let mut app = app();
    app.painted = Painted::new(
        vec![Some(PaintedRow { line: 2, start: 0, text: "line one".to_owned(), linewise: false })],
        2,
        0,
        Area::new(0, 0, 20, 2),
    );
    app.move_to(Pos::new(2, 3));
    app.move_by_char(-10);
    assert_eq!(app.cursor, Pos::new(2, 0));
    app.move_by_char(100);
    assert_eq!(app.cursor, Pos::new(2, 8));
    app.move_by_line(5);
    assert_eq!(app.cursor, Pos::new(3, 8));
    app.move_to_line(0);
    assert_eq!(app.cursor, Pos::new(0, 0));
    assert_eq!(app.scroll, 0);
    app.page_by(1);
    assert_eq!(app.cursor.line, 2);
    assert_eq!(app.scroll, 1);
    app.prev_turn();
    assert_eq!(app.cursor, Pos::line_start(0));
    app.next_turn();
    assert_eq!(app.cursor, Pos::line_start(2));
    app.next_turn();
    assert_eq!(app.cursor, Pos::line_start(2));
}

#[test]
fn the_wheel_moves_the_view_and_a_click_starts_a_selection() {
    let mut app = app();
    app.scroll_by(10);
    assert_eq!(app.scroll, 3);
    app.scroll_by(-1);
    assert_eq!(app.scroll, 2);
    app.press(Some(Pos::new(2, 50)));
    assert_eq!(app.anchor, Some(Pos::new(2, 8)));
    assert_eq!(app.cursor, Pos::new(2, 8));
    app.drag(Some(Pos::new(3, 1)));
    assert_eq!(app.selection(), Some((Pos::new(2, 8), Pos::new(3, 1))));
    app.press(None);
    assert_eq!(app.anchor, Some(Pos::new(2, 8)));
    app.clear_range();
    assert!(app.selection().is_none());
}

#[test]
fn the_first_frame_settles_where_the_picker_opens() {
    let mut app = app();
    app.painted = Painted::new(Vec::new(), 1, 2, Area::new(0, 0, 10, 1));
    app.settle();
    assert!(!app.opening);
    assert_eq!(app.scroll, 2);
    app.scroll = 0;
    app.settle();
    assert_eq!(app.scroll, 0);
}

#[test]
fn a_parked_batch_made_on_text_comes_back_whole() {
    let mut app = app();
    app.move_to(Pos::new(3, 99));
    app.toggle_range(Grain::Line);
    app.move_to(Pos::new(0, 99));
    let pairs = match app.send(Some(Status::Blocked)) {
        Outgoing::Park(pending) => pending.pairs,
        other => panic!("expected a park, got {other:?}"),
    };
    assert_eq!(pairs[0].from, Pos::new(0, 0));
    assert_eq!(pairs[0].to, Pos::new(3, 8));
    let mut next = app_with_nothing_banked();
    next.restore(Some(Pending { session: UUID.to_owned(), pairs }));
    assert_eq!(next.bank.len(), 1);
    assert_eq!(next.compose(), "\"prompt\nline one\nline two\"");
}

fn app_with_nothing_banked() -> App {
    app()
}

#[test]
fn the_screen_numbers_banked_pairs_from_one_with_trimmed_questions_and_first_quoted_lines() {
    let mut app = app();
    app.restore(Some(Pending {
        session: UUID.to_owned(),
        pairs: vec![
            Pair { from: Pos::new(2, 5), to: Pos::new(3, 4), question: "  why?  ".to_owned() },
            Pair { from: Pos::new(0, 0), to: Pos::new(0, 6), question: String::new() },
        ],
    }));
    let banked = app.banked();
    assert_eq!(banked.len(), 2);
    assert_eq!((banked[0].number, banked[0].from, banked[0].to), (1, 2, 3));
    assert_eq!(banked[0].question, "why?");
    assert_eq!(banked[0].quote, "one");
    assert_eq!((banked[1].number, banked[1].question, banked[1].quote), (2, "", "prompt"));
}

#[test]
fn the_frame_opens_at_the_bottom_until_it_settles_and_shows_the_question_only_while_asking() {
    let mut app = app();
    assert_eq!(app.scroll_mode(), Scroll::Bottom);
    assert_eq!(app.typed(), None);
    app.settle();
    assert_eq!(app.scroll_mode(), Scroll::From(0));
    app.move_to(Pos::new(2, 0));
    app.toggle_range(Grain::Line);
    app.ask();
    app.type_char('x');
    assert_eq!(app.typed(), Some("x"));
}

fn press_key(app: &mut App, key: Key) -> bool {
    let command = key_command(key, false, app.asking(), app.selection().is_some());
    app.apply(command, None)
}

#[test]
fn keys_drive_the_picker_through_a_whole_pair() {
    let mut app = app();
    assert!(!press_key(&mut app, Key::Char('k')));
    assert_eq!(app.cursor, Pos::line_start(2));
    press_key(&mut app, Key::Char('V'));
    press_key(&mut app, Key::Char('c'));
    assert!(app.asking());
    for c in "why q?".chars() {
        press_key(&mut app, Key::Char(c));
    }
    press_key(&mut app, Key::Backspace);
    press_key(&mut app, Key::Enter);
    assert_eq!(app.bank.get(0).map(|p| p.question.as_str()), Some("why q"));
    assert!(!app.should_quit);
    // a send is the caller's to make, and changes nothing until it does
    assert!(press_key(&mut app, Key::Char('s')));
    assert_eq!(app.bank.len(), 1);
    press_key(&mut app, Key::Char('q'));
    assert!(app.should_quit);
}

#[test]
fn esc_drops_the_selection_then_closes_the_picker() {
    let mut app = app();
    press_key(&mut app, Key::Char('v'));
    assert!(app.selection().is_some());
    press_key(&mut app, Key::Esc);
    assert!(app.selection().is_none());
    assert!(!app.should_quit);
    press_key(&mut app, Key::Esc);
    assert!(app.should_quit);
}

#[test]
fn the_mouse_commands_carry_the_cell_under_the_pointer() {
    let mut app = app();
    assert!(!app.apply(Command::Press, Some(Pos::new(2, 3))));
    assert!(!app.apply(Command::Drag, Some(Pos::new(3, 50))));
    assert_eq!(app.selection(), Some((Pos::new(2, 3), Pos::new(3, 8))));
    assert!(!app.apply(Command::Nothing, None));
    assert_eq!(app.cursor, Pos::new(3, 8));
}
