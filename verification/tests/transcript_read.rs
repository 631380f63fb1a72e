use herdr_quotr::markup::{Pos, Tone};
use herdr_quotr::transcript::entry::{Content, ContentBlock, Entry, Turn};
use herdr_quotr::transcript::Transcript;

fn turn(content: Content) -> Turn {
    Turn { content, is_sidechain: None, is_meta: None, tool_use_result: false, source_tool_use_id: None }
}

fn blocks(blocks: Vec<ContentBlock>) -> Content {
    Content::Blocks(blocks)
}

/// The transcript a sample session's JSON lines read into: a prompt, a system line, a
/// thinking block, an answer split by a tool round trip, and a subagent's turn.
fn sample() -> Transcript {
    Transcript::read(vec![
        Entry::User(turn(Content::Text("first prompt".to_owned()))),
        Entry::Other,
        Entry::Assistant(turn(blocks(vec![ContentBlock::Other]))),
        Entry::Assistant(turn(blocks(vec![ContentBlock::Text("one\ntwo".to_owned())]))),
        Entry::Assistant(turn(blocks(vec![ContentBlock::Other]))),
        Entry::User(Turn { tool_use_result: true, ..turn(blocks(vec![ContentBlock::Other])) }),
        Entry::Assistant(turn(blocks(vec![ContentBlock::Text("three".to_owned())]))),
        Entry::Assistant(Turn {
            is_sidechain: Some(true),
            ..turn(blocks(vec![ContentBlock::Text("sub".to_owned())]))
        }),
    ])
}

#[test]
fn keeps_only_the_turns_a_user_saw() {
    let t = sample();
    let text: Vec<_> = t.lines().iter().map(|l| l.text.as_str()).collect();
    assert_eq!(text, ["first prompt", "", "one", "two", "", "three"]);
}

#[test]
fn merges_an_answer_split_by_tool_calls() {
    let t = sample();
    assert_eq!(t.next_turn(0), Some(2));
    assert_eq!(t.next_turn(2), None);
    assert_eq!(t.last_answer(), Some(2));
}

#[test]
fn marks_the_blank_row_between_turns_as_a_gap() {
    let t = sample();
    let tones: Vec<_> = t.lines().iter().map(|l| l.tone).collect();
    assert_eq!(tones, [Tone::User, Tone::Gap, Tone::Agent, Tone::Agent, Tone::Agent, Tone::Agent]);
}

#[test]
fn meta_and_tool_entries_are_noise() {
    let t = Transcript::read(vec![
        Entry::User(Turn { is_meta: Some(true), ..turn(Content::Text("injected".to_owned())) }),
        Entry::User(Turn {
            source_tool_use_id: Some("t1".to_owned()),
            ..turn(Content::Text("tool".to_owned()))
        }),
        Entry::Assistant(turn(Content::Text("   ".to_owned()))),
    ]);
    assert!(t.lines().is_empty());
    assert_eq!(t.last_answer(), None);
    assert_eq!(t.prev_turn(5), None);
}

#[test]
fn turns_are_trimmed_at_the_end_and_joined_by_newlines() {
    let t = Transcript::read(vec![Entry::Assistant(turn(blocks(vec![
        ContentBlock::Text("a".to_owned()),
        ContentBlock::Other,
        ContentBlock::Text("b  \n".to_owned()),
    ])))]);
    let text: Vec<_> = t.lines().iter().map(|l| l.text.as_str()).collect();
    assert_eq!(text, ["a", "b"]);
}

#[test]
fn a_whole_line_range_quotes_the_lines_as_shown() {
    let t = Transcript::from_turns(&[
        (Tone::Agent, "```rust\nlet x = **1**;\n```".to_owned()),
        (Tone::User, "ok".to_owned()),
    ]);
    let end = t.line_end(4);
    assert_eq!(end, Pos::new(4, 2));
    let shown: Vec<&str> = t.lines().iter().filter(|l| l.tone != Tone::Gap).map(|l| l.text.as_str()).collect();
    assert_eq!(t.slice(Pos::line_start(0), end), shown);
    assert_eq!(shown, ["```rust", "let x = **1**;", "```", "ok"]);
}

#[test]
fn each_turn_starts_after_the_gap_that_closes_the_one_before() {
    let t = Transcript::from_turns(&[
        (Tone::User, "a".to_owned()),
        (Tone::Agent, "b\nc".to_owned()),
        (Tone::User, "d".to_owned()),
    ]);
    assert_eq!(t.turn_starts(), [0, 2, 5]);
    let texts: Vec<&str> = t.lines().iter().map(|l| l.text.as_str()).collect();
    assert_eq!(texts, ["a", "", "b", "c", "", "d"]);
    let tones: Vec<Tone> = t.lines().iter().map(|l| l.tone).collect();
    assert_eq!(tones, [Tone::User, Tone::Gap, Tone::Agent, Tone::Agent, Tone::Gap, Tone::User]);
}
