//! The event record and its kinds.
use vstd::prelude::*;

verus! {

/// Milliseconds since the Unix epoch, UTC.
pub type Timestamp = i64;

/// One observed activity.
#[derive(Debug, Clone, PartialEq, Eq)]
pub struct Event {
    pub timestamp: Timestamp,
    pub event_type: EventType,
    pub cwd: Option<String>,
    pub project: Option<String>,
    pub session_id: Option<String>,
}

/// The kind of an event, with the fields that kind carries.
#[derive(Debug, Clone, PartialEq, Eq)]
pub enum EventType {
    Command { cmd: String },
    DirectoryChange { from: String, to: String },
    SessionStart,
    SessionEnd,
    IdleStart,
    IdleEnd,
    Note { text: String },
    ProjectDetected { name: String },
}

/// The short name of each kind.
pub open spec fn kind_name(k: EventType) -> Seq<char> {
    match k {
        EventType::Command { .. } => "command"@,
        EventType::DirectoryChange { .. } => "cd"@,
        EventType::SessionStart => "session_start"@,
        EventType::SessionEnd => "session_end"@,
        EventType::IdleStart => "idle_start"@,
        EventType::IdleEnd => "idle_end"@,
        EventType::Note { .. } => "note"@,
        EventType::ProjectDetected { .. } => "project"@,
    }
}

/// The free text an event carries, for the kinds that carry any.
pub open spec fn free_text(k: EventType) -> Option<Seq<char>> {
    match k {
        EventType::Command { cmd } => Some(cmd@),
        EventType::Note { text } => Some(text@),
        EventType::ProjectDetected { name } => Some(name@),
        _ => None,
    }
}

/// The view of an optional string.
pub open spec fn opt_view(o: Option<String>) -> Option<Seq<char>> {
    match o {
        Some(s) => Some(s@),
        None => None,
    }
}

impl Event {
    /// An event of the given kind at `timestamp`, with no location, project or session.
    pub fn new(event_type: EventType, timestamp: Timestamp) -> (r: Event)
        ensures
            r == (Event { timestamp, event_type, cwd: None, project: None, session_id: None }),
    {
        Event { timestamp, event_type, cwd: None, project: None, session_id: None }
    }

    /// The same event with its working directory set.
    pub fn with_cwd(self, cwd: String) -> (r: Event)
        ensures
            r == (Event { cwd: Some(cwd), ..self }),
    {
        Event { cwd: Some(cwd), ..self }
    }

    /// The same event with its project set.
    pub fn with_project(self, project: String) -> (r: Event)
        ensures
            r == (Event { project: Some(project), ..self }),
    {
        Event { project: Some(project), ..self }
    }

    /// The same event with its session identifier set.
    pub fn with_session(self, session_id: String) -> (r: Event)
        ensures
            r == (Event { session_id: Some(session_id), ..self }),
    {
        Event { session_id: Some(session_id), ..self }
    }
}

impl EventType {
    /// The short name of this kind.
    pub fn display_name(&self) -> (r: &'static str)
        ensures
            r@ == kind_name(*self),
    {
        match self {
            EventType::Command { .. } => "command",
            EventType::DirectoryChange { .. } => "cd",
            EventType::SessionStart => "session_start",
            EventType::SessionEnd => "session_end",
            EventType::IdleStart => "idle_start",
            EventType::IdleEnd => "idle_end",
            EventType::Note { .. } => "note",
            EventType::ProjectDetected { .. } => "project",
        }
    }

    /// The free text of this kind, if it carries any.
    pub fn text(&self) -> (r: Option<&String>)
        ensures
            match r {
                Some(s) => free_text(*self) == Some(s@),
                None => free_text(*self) is None,
            },
    {
        match self {
            EventType::Command { cmd } => Some(cmd),
            EventType::Note { text } => Some(text),
            EventType::ProjectDetected { name } => Some(name),
            _ => None,
        }
    }
}

/// The events among `s`, in order, with the failed parses left out.
pub open spec fn parsed_events(s: Seq<Option<Event>>) -> Seq<Event>
    decreases s.len(),
{
    if s.len() == 0 {
        Seq::empty()
    } else {
        match s[0] {
            Some(e) => seq![e] + parsed_events(s.drop_first()),
            None => parsed_events(s.drop_first()),
        }
    }
}

/// Keeps, in order, the lines that parsed; the others are dropped.
pub fn keep_parsed(parsed: Vec<Option<Event>>) -> (r: Vec<Event>)
    ensures
        r@ == parsed_events(parsed@),
{
    let mut r: Vec<Event> = Vec::new();
    let mut rest = parsed;
    let ghost all = rest@;
    while rest.len() > 0
        invariant
            r@ + parsed_events(rest@) == parsed_events(all),
        decreases rest@.len(),
    {
        let ghost before = rest@;
        let o = rest.remove(0);
        assert(rest@ =~= before.drop_first());
        let ghost r0 = r@;
        if let Some(e) = o {
            r.push(e);
            assert(r@ + parsed_events(rest@) =~= r0 + (seq![e] + parsed_events(rest@)));
        }
    }
    assert(r@ + parsed_events(rest@) =~= r@);
    r
}

} // verus!
