use herdr_quotr::bank::{Bank, Pair};
use herdr_quotr::markup::Pos;

fn pair(from: usize, to: usize) -> Pair {
    Pair { from: Pos::line_start(from), to: Pos::new(to, 3), question: String::new() }
}

#[test]
fn finds_the_pair_a_line_falls_inside() {
    let bank = Bank::from(vec![pair(2, 4), pair(9, 9)]);
    assert_eq!(bank.at_line(2), Some(0));
    assert_eq!(bank.at_line(3), Some(0));
    assert_eq!(bank.at_line(9), Some(1));
    assert_eq!(bank.at_line(5), None);
}

#[test]
fn deleting_shifts_the_rest_down_so_they_renumber() {
    let mut bank = Bank::from(vec![pair(2, 4), pair(9, 9)]);
    bank.remove(0);
    assert_eq!(bank.len(), 1);
    assert_eq!(bank.at_line(9), Some(0));
}

#[test]
fn editing_replaces_the_question_and_leaves_the_quote() {
    let mut bank = Bank::from(vec![pair(2, 4)]);
    bank.set_question(0, "why?".to_owned());
    assert_eq!(bank.get(0).map(|pair| pair.question.as_str()), Some("why?"));
    assert_eq!(bank.get(0).map(|pair| pair.from), Some(Pos::line_start(2)));
}

#[test]
fn overlapping_pairs_are_reached_in_bank_order() {
    let bank = Bank::from(vec![pair(5, 8), pair(2, 6)]);
    assert_eq!(bank.at_line(6), Some(0));
    assert_eq!(bank.at_line(3), Some(1));
}

#[test]
fn an_index_past_the_end_changes_nothing() {
    let mut bank = Bank::default();
    assert!(bank.is_empty());
    bank.remove(0);
    bank.set_question(3, "lost".to_owned());
    assert!(bank.get(0).is_none());
    assert_eq!(bank.add(pair(1, 1)), 0);
    assert_eq!(bank.add(pair(4, 4)), 1);
    assert_eq!(bank.iter().len(), 2);
    assert_eq!(bank.iter()[1].from, Pos::line_start(4));
}
