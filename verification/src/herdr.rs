//! The herdr host: which pane the picker writes to, what the agent there is doing, and the
//! commands that write into its input and hand focus back. Running `herdr` is the caller's
//! job; this module decides what to run and what the answer means.

use vstd::prelude::*;
use vstd::string::*;

use crate::transcript::session::{is_uuid, NotASession, SessionId};

verus! {

/// A herdr pane id, e.g. `w2N:p8`.
#[derive(Debug, Clone, PartialEq, Eq)]
pub struct PaneId(String);

impl PaneId {
    pub closed spec fn value(&self) -> Seq<char> {
        self.0@
    }

    pub fn as_str(&self) -> (s: &str)
        ensures
            s@ == self.value(),
    {
        self.0.as_str()
    }

    /// The same pane id.
    pub fn copy(&self) -> (p: PaneId)
        ensures
            p.value() == self.value(),
    {
        PaneId(self.0.clone())
    }
}

/// The origin agent pane named by the picker's launch environment, or `None` when the picker
/// was launched outside the action (the variable unset or empty).
pub fn pane_from(value: Option<String>) -> (p: Option<PaneId>)
    ensures
        match value {
            Some(v) => if v@.len() == 0 {
                p is None
            } else {
                p is Some && p.unwrap().value() == v@
            },
            None => p is None,
        },
{
    match value {
        Some(v) => {
            if v.as_str().is_empty() {
                None
            } else {
                Some(PaneId(v))
            }
        },
        None => None,
    }
}

/// What an agent is doing. `Blocked` means a permission prompt is up, so the input box is
/// not accepting text.
#[derive(Debug, Clone, Copy, PartialEq, Eq, Structural)]
pub enum Status {
    Idle,
    Working,
    Blocked,
    Done,
    Unknown,
}

impl Default for Status {
    fn default() -> (s: Self)
        ensures
            s == Status::Unknown,
    {
        Status::Unknown
    }
}

/// The status herdr reports under `name`; a state this version does not know reads as
/// `Unknown` rather than failing the whole list.
pub open spec fn status_named(name: Seq<char>) -> Status {
    if name == "idle"@ {
        Status::Idle
    } else if name == "working"@ {
        Status::Working
    } else if name == "blocked"@ {
        Status::Blocked
    } else if name == "done"@ {
        Status::Done
    } else {
        Status::Unknown
    }
}

impl Status {
    pub fn named(name: &str) -> (s: Status)
        ensures
            s == status_named(name@),
    {
        let name = name.to_owned();
        if name == "idle".to_owned() {
            Status::Idle
        } else if name == "working".to_owned() {
            Status::Working
        } else if name == "blocked".to_owned() {
            Status::Blocked
        } else if name == "done".to_owned() {
            Status::Done
        } else {
            Status::Unknown
        }
    }
}

/// One agent of `herdr agent list`: its pane, its session id when the agent kind has one,
/// and what it is doing.
#[derive(Debug, Clone)]
pub struct AgentEntry {
    pub pane_id: String,
    pub session: Option<String>,
    pub status: Status,
}

impl View for AgentEntry {
    type V = (Seq<char>, Option<Seq<char>>, Status);

    open spec fn view(&self) -> (Seq<char>, Option<Seq<char>>, Status) {
        (
            self.pane_id@,
            match self.session {
                Some(s) => Some(s@),
                None => None,
            },
            self.status,
        )
    }
}

/// Why the agent list could not answer for a pane.
#[derive(Debug, Clone, PartialEq, Eq)]
pub enum AgentError {
    /// No agent runs in the pane.
    NoAgent,
    /// The agent there carries no session, which the picker cannot read.
    NoSession,
    /// The agent's session is not a session id.
    NotASession(NotASession),
}

/// The first agent at or after `i` whose pane is `pane`.
pub open spec fn first_in(agents: Seq<(Seq<char>, Option<Seq<char>>, Status)>, pane: Seq<char>, i: int) -> Option<int>
    decreases agents.len() - i,
{
    if i < 0 || i >= agents.len() {
        None
    } else if agents[i].0 == pane {
        Some(i)
    } else {
        first_in(agents, pane, i + 1)
    }
}

pub proof fn lemma_first_in(agents: Seq<(Seq<char>, Option<Seq<char>>, Status)>, pane: Seq<char>, i: int)
    requires
        0 <= i,
    ensures
        first_in(agents, pane, i) is Some ==> {
            let k = first_in(agents, pane, i).unwrap();
            i <= k < agents.len() && agents[k].0 == pane
        },
    decreases agents.len() - i,
{
    if i < agents.len() && agents[i].0 != pane {
        lemma_first_in(agents, pane, i + 1);
    }
}

pub open spec fn views(agents: Seq<AgentEntry>) -> Seq<(Seq<char>, Option<Seq<char>>, Status)> {
    agents.map_values(|a: AgentEntry| a@)
}

/// Where in the list the agent in `pane` is — the first one, should herdr list it twice.
pub fn find(agents: &[AgentEntry], pane: &PaneId) -> (r: Option<usize>)
    ensures
        match r {
            Some(i) => first_in(views(agents@), pane.value(), 0) == Some(i as int),
            None => first_in(views(agents@), pane.value(), 0) is None,
        },
{
    let ghost all = views(agents@);
    let mut i: usize = 0;
    while i < agents.len()
        invariant
            i <= agents.len(),
            all == views(agents@),
            first_in(all, pane.value(), 0) == first_in(all, pane.value(), i as int),
        decreases agents.len() - i,
    {
        if agents[i].pane_id == pane.0 {
            return Some(i);
        }
        i = i + 1;
    }
    None
}

/// What asking for the session of the agent in `pane` answers.
pub open spec fn session_spec(agents: Seq<(Seq<char>, Option<Seq<char>>, Status)>, pane: Seq<char>) -> Result<Seq<char>, AgentError> {
    match first_in(agents, pane, 0) {
        None => Err(AgentError::NoAgent),
        Some(i) => match agents[i].1 {
            None => Err(AgentError::NoSession),
            Some(v) => Ok(v),
        },
    }
}

/// The session id of the agent running in `pane`.
pub fn session(agents: &[AgentEntry], pane: &PaneId) -> (r: Result<SessionId, AgentError>)
    ensures
        match session_spec(views(agents@), pane.value()) {
            Err(e) => r == Err::<SessionId, AgentError>(e),
            Ok(v) => match r {
                Ok(id) => is_uuid(v) && id.value() == v,
                Err(AgentError::NotASession(e)) => !is_uuid(v) && e.value@ == v,
                Err(_) => false,
            },
        },
{
    let Some(i) = find(agents, pane) else {
        return Err(AgentError::NoAgent);
    };
    proof {
        lemma_first_in(views(agents@), pane.value(), 0);
    }
    assert(views(agents@)[i as int] == agents@[i as int]@);
    match &agents[i].session {
        None => Err(AgentError::NoSession),
        Some(value) => match SessionId::parse(value.as_str()) {
            Ok(id) => Ok(id),
            Err(e) => Err(AgentError::NotASession(e)),
        },
    }
}

/// What the agent in `pane` is doing right now.
pub fn status(agents: &[AgentEntry], pane: &PaneId) -> (r: Result<Status, AgentError>)
    ensures
        match first_in(views(agents@), pane.value(), 0) {
            Some(i) => r == Ok::<Status, AgentError>(agents@[i].status),
            None => r == Err::<Status, AgentError>(AgentError::NoAgent),
        },
{
    let r = find(agents, pane);
    proof {
        lemma_first_in(views(agents@), pane.value(), 0);
    }
    match r {
        Some(i) => Ok(agents[i].status),
        None => Err(AgentError::NoAgent),
    }
}

/// The views of an argument list.
pub open spec fn arg_views(args: Seq<String>) -> Seq<Seq<char>> {
    args.map_values(|a: String| a@)
}

/// The `herdr` arguments that write literal text into the agent pane's input, without
/// submitting. `pane send-text` honors the pane's live bracketed-paste mode, which is what
/// keeps a multi-line block from executing at the first newline.
pub fn send_text(pane: &PaneId, text: &str) -> (args: Vec<String>)
    ensures
        arg_views(args@) == seq!["pane"@, "send-text"@, pane.value(), text@],
{
    let args = vec![
        "pane".to_owned(),
        "send-text".to_owned(),
        pane.0.clone(),
        text.to_owned(),
    ];
    assert(arg_views(args@) =~= seq!["pane"@, "send-text"@, pane.value(), text@]);
    args
}

/// The `herdr` arguments that focus the agent pane so the user can edit and submit.
pub fn focus(pane: &PaneId) -> (args: Vec<String>)
    ensures
        arg_views(args@) == seq!["agent"@, "focus"@, pane.value()],
{
    let args = vec!["agent".to_owned(), "focus".to_owned(), pane.0.clone()];
    assert(arg_views(args@) =~= seq!["agent"@, "focus"@, pane.value()]);
    args
}

/// The `herdr` arguments that list the agents and what each is doing.
pub fn agent_list() -> (args: Vec<String>)
    ensures
        arg_views(args@) == seq!["agent"@, "list"@],
{
    let args = vec!["agent".to_owned(), "list".to_owned()];
    assert(arg_views(args@) =~= seq!["agent"@, "list"@]);
    args
}

} // verus!
