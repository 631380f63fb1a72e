use herdr_quotr::herdr::{
    agent_list, find, focus, pane_from, send_text, session, status, AgentEntry, AgentError,
    Status,
};

fn agent(pane: &str, session: Option<&str>, status: Status) -> AgentEntry {
    AgentEntry { pane_id: pane.to_owned(), session: session.map(str::to_owned), status }
}

const UUID: &str = "673dfc91-ee56-4884-a4ab-01fc543dabc8";

#[test]
fn reads_the_status_and_tolerates_a_state_it_does_not_know() {
    assert_eq!(Status::named("blocked"), Status::Blocked);
    assert_eq!(Status::named("idle"), Status::Idle);
    assert_eq!(Status::named("working"), Status::Working);
    assert_eq!(Status::named("done"), Status::Done);
    assert_eq!(Status::named("something-new"), Status::Unknown);
}

#[test]
fn a_missing_status_is_unknown() {
    assert_eq!(Status::default(), Status::Unknown);
}

#[test]
fn an_empty_pane_variable_means_no_pane() {
    assert!(pane_from(None).is_none());
    assert!(pane_from(Some(String::new())).is_none());
    assert_eq!(pane_from(Some("w2N:p8".to_owned())).map(|p| p.as_str().to_owned()), Some("w2N:p8".to_owned()));
}

#[test]
fn the_first_agent_in_the_pane_answers() {
    let pane = pane_from(Some("w1:p2".to_owned())).unwrap();
    let agents = vec![
        agent("w1:p1", None, Status::Idle),
        agent("w1:p2", Some(UUID), Status::Blocked),
        agent("w1:p2", None, Status::Idle),
    ];
    assert_eq!(find(&agents, &pane), Some(1));
    assert_eq!(status(&agents, &pane), Ok(Status::Blocked));
    assert_eq!(session(&agents, &pane).map(|id| id.as_str().to_owned()), Ok(UUID.to_owned()));
}

#[test]
fn each_way_the_list_can_fail_to_answer_has_its_error() {
    let pane = pane_from(Some("w1:p9".to_owned())).unwrap();
    let agents = vec![agent("w1:p1", None, Status::Idle)];
    assert_eq!(status(&agents, &pane), Err(AgentError::NoAgent));
    assert_eq!(session(&agents, &pane).err(), Some(AgentError::NoAgent));

    let here = pane_from(Some("w1:p1".to_owned())).unwrap();
    assert_eq!(session(&agents, &here).err(), Some(AgentError::NoSession));

    let odd = vec![agent("w1:p1", Some("../evil"), Status::Idle)];
    match session(&odd, &here) {
        Err(AgentError::NotASession(e)) => assert_eq!(e.value, "../evil"),
        other => panic!("expected a refused session, got {other:?}"),
    }
}

#[test]
fn the_commands_name_the_pane_and_carry_the_text_verbatim() {
    let pane = pane_from(Some("w2N:p8".to_owned())).unwrap();
    assert_eq!(send_text(&pane, "\"a\nb\""), ["pane", "send-text", "w2N:p8", "\"a\nb\""]);
    assert_eq!(focus(&pane), ["agent", "focus", "w2N:p8"]);
    assert_eq!(agent_list(), ["agent", "list"]);
}
