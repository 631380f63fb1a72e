use herdr_quotr::app::Grain;
use herdr_quotr::keymap::{key_command, mouse_command, Command, Key, Mouse, WHEEL};

fn browse(key: Key) -> Command {
    key_command(key, false, false, false)
}

#[test]
fn browsing_keys_move_the_caret() {
    assert_eq!(browse(Key::Char('j')), Command::MoveByLine(1));
    assert_eq!(browse(Key::Down), Command::MoveByLine(1));
    assert_eq!(browse(Key::Char('k')), Command::MoveByLine(-1));
    assert_eq!(browse(Key::Up), Command::MoveByLine(-1));
    assert_eq!(browse(Key::Char('l')), Command::MoveByChar(1));
    assert_eq!(browse(Key::Left), Command::MoveByChar(-1));
    assert_eq!(browse(Key::Char('g')), Command::MoveToLine(0));
    assert_eq!(browse(Key::End), Command::MoveToLine(usize::MAX));
    assert_eq!(browse(Key::PageDown), Command::PageBy(1));
    assert_eq!(browse(Key::PageUp), Command::PageBy(-1));
    assert_eq!(browse(Key::Char(']')), Command::NextTurn);
    assert_eq!(browse(Key::Char('[')), Command::PrevTurn);
}

#[test]
fn browsing_keys_select_bank_and_send_in_either_case() {
    assert_eq!(browse(Key::Char('v')), Command::ToggleRange(Grain::Char));
    assert_eq!(browse(Key::Char('V')), Command::ToggleRange(Grain::Line));
    for (lower, upper, command) in [
        ('c', 'C', Command::Ask),
        ('e', 'E', Command::EditPair),
        ('d', 'D', Command::DeletePair),
        ('s', 'S', Command::Send),
    ] {
        assert_eq!(browse(Key::Char(lower)), command);
        assert_eq!(browse(Key::Char(upper)), command);
    }
    assert_eq!(browse(Key::Char('x')), Command::Nothing);
    assert_eq!(browse(Key::Enter), Command::Nothing);
}

#[test]
fn esc_drops_a_live_selection_before_it_quits() {
    assert_eq!(key_command(Key::Esc, false, false, true), Command::ClearRange);
    assert_eq!(key_command(Key::Esc, false, false, false), Command::Quit);
    assert_eq!(key_command(Key::Char('q'), false, false, true), Command::Quit);
}

#[test]
fn the_question_box_takes_every_plain_character() {
    assert_eq!(key_command(Key::Char('q'), false, true, false), Command::Type('q'));
    assert_eq!(key_command(Key::Char('é'), false, true, true), Command::Type('é'));
    assert_eq!(key_command(Key::Esc, false, true, true), Command::CancelAsk);
    assert_eq!(key_command(Key::Enter, false, true, false), Command::BankPair);
    assert_eq!(key_command(Key::Backspace, false, true, false), Command::Backspace);
    assert_eq!(key_command(Key::Down, false, true, false), Command::Nothing);
}

#[test]
fn control_u_clears_the_question_and_other_chords_do_nothing() {
    assert_eq!(key_command(Key::Char('u'), true, true, false), Command::ClearQuestion);
    assert_eq!(key_command(Key::Char('a'), true, true, false), Command::Nothing);
    // browsing ignores the modifier
    assert_eq!(key_command(Key::Char('j'), true, false, false), Command::MoveByLine(1));
}

#[test]
fn the_wheel_scrolls_and_the_left_button_selects() {
    assert_eq!(mouse_command(Mouse::WheelDown, false), Command::ScrollBy(WHEEL));
    assert_eq!(mouse_command(Mouse::WheelUp, false), Command::ScrollBy(-WHEEL));
    assert_eq!(WHEEL, 1);
    assert_eq!(mouse_command(Mouse::Press, false), Command::Press);
    assert_eq!(mouse_command(Mouse::Drag, false), Command::Drag);
    assert_eq!(mouse_command(Mouse::Other, false), Command::Nothing);
}

#[test]
fn the_mouse_does_nothing_while_a_question_is_typed() {
    for event in [Mouse::WheelDown, Mouse::WheelUp, Mouse::Press, Mouse::Drag] {
        assert_eq!(mouse_command(event, true), Command::Nothing);
    }
}
