use herdr_quotr::markup::{Block, Tone};
use herdr_quotr::transcript::command::unwrap;
use herdr_quotr::transcript::{SessionId, SourceLine};

fn line(text: &str) -> SourceLine {
    SourceLine { text: text.to_owned(), tone: Tone::Agent, block: Block::Prose, spans: Vec::new() }
}

fn parses(value: &str) -> bool {
    value.parse::<SessionId>().is_ok()
}

#[test]
fn a_wrapped_command_becomes_the_line_the_user_typed() {
    let text = "<command-message>dd:flow:go</command-message>\n\
                <command-name>/dd:flow:go</command-name>\n\
                <command-args>~/.context/quotr/quotr.md — build slice 5</command-args>";
    assert_eq!(
        unwrap(text).as_deref(),
        Some("/dd:flow:go ~/.context/quotr/quotr.md — build slice 5")
    );
}

#[test]
fn a_command_with_no_arguments_keeps_no_trailing_space() {
    let text = "<command-name>/clear</command-name>\n\
                <command-message>clear</command-message>\n\
                <command-args></command-args>";
    assert_eq!(unwrap(text).as_deref(), Some("/clear"));
}

#[test]
fn the_caveat_and_the_empty_stdout_block_go_with_the_tags() {
    let text = "<local-command-caveat>Caveat: ignore this.</local-command-caveat>\n\
                <command-name>/clear</command-name>\n\
                <command-args></command-args>\n\
                <local-command-stdout></local-command-stdout>";
    assert_eq!(unwrap(text).as_deref(), Some("/clear"));
}

#[test]
fn an_ordinary_prompt_is_left_alone() {
    assert_eq!(unwrap("please split edit and delete"), None);
    assert_eq!(unwrap("use <command-name> in a sentence"), None);
}

#[test]
fn a_command_name_is_trimmed_and_missing_args_count_as_empty() {
    assert_eq!(unwrap("<command-name>  /help </command-name>").as_deref(), Some("/help"));
    assert_eq!(
        unwrap("<command-name>/a</command-name><command-args> x  </command-args>").as_deref(),
        Some("/a x")
    );
}

#[test]
fn accepts_a_uuid() {
    assert!(parses("673dfc91-ee56-4884-a4ab-01fc543dabc8"));
}

#[test]
fn an_accepted_id_names_a_file_and_no_path() {
    let id = SessionId::parse("673DFC91-ee56-4884-a4ab-01fc543dabc8").unwrap();
    assert_eq!(id.as_str(), "673DFC91-ee56-4884-a4ab-01fc543dabc8");
    assert!(!id.as_str().contains(['/', '\\', '.']));
    assert!(SessionId::parse("673dfc91.ee56-4884-a4ab-01fc543dabc8").is_err());
}

#[test]
fn rejects_anything_that_could_escape_the_transcript_dir() {
    assert!(!parses("../../../etc/passwd"));
    assert!(!parses("673dfc91-ee56-4884-a4ab-01fc543dabc8/../evil"));
}

#[test]
fn rejects_wrong_grouping_and_non_hex() {
    assert!(!parses("673dfc91ee564884a4ab01fc543dabc8"), "no dashes");
    assert!(!parses("673dfc91-ee56-4884-a4ab-01fc543dabc8-extra"), "sixth group");
    assert!(!parses("673dfc91-ee56-4884-a4ab-01fc543dabcz"), "z is not hex");
    assert!(!parses("673dfc9-1ee56-4884-a4ab-01fc543dabc8"), "dash misplaced");
}

#[test]
fn a_parsed_session_gives_back_the_text_it_was_read_from() {
    let id = SessionId::parse("673DFC91-ee56-4884-a4ab-01fc543dabc8").unwrap();
    assert_eq!(id.as_str(), "673DFC91-ee56-4884-a4ab-01fc543dabc8");
    let refused = SessionId::parse("nope").unwrap_err();
    assert_eq!(refused.value, "nope");
}

#[test]
fn slices_by_character_not_byte() {
    let line = line("日本語abc");
    assert_eq!(line.len(), 6);
    assert_eq!(line.slice(1, 4), "本語a");
}

#[test]
fn clamps_a_range_that_runs_past_the_line() {
    assert_eq!(line("abc").slice(1, 99), "bc");
    assert_eq!(line("abc").slice(9, 99), "");
    assert_eq!(line("abc").slice(2, 1), "");
}

#[test]
fn the_gap_between_turns_is_an_empty_line() {
    let gap = SourceLine::gap();
    assert!(gap.is_empty());
    assert_eq!(gap.tone, Tone::Gap);
    assert!(!line("x").is_empty());
}
