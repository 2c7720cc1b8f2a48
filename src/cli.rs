//! The commands the tool accepts and their arguments, as plain values.
use vstd::prelude::*;

verus! {

/// A parsed invocation.
#[derive(Debug, Clone, PartialEq, Eq)]
pub struct Cli {
    pub command: Command,
}

/// The subcommands.
#[derive(Debug, Clone, PartialEq, Eq)]
pub enum Command {
    /// Log an event (used by the shell integration).
    Log(LogArgs),
    /// Go back to an earlier location.
    Back(BackArgs),
    /// Search the activity history.
    Search(SearchArgs),
    /// Show activity statistics.
    Stats(StatsArgs),
    /// Show the activity timeline.
    Timeline(TimelineArgs),
    /// Add a note.
    Note(NoteArgs),
    /// Show where work was last going on.
    Resume,
    /// Summarize today's activity.
    Today,
    /// List the sessions.
    Sessions,
    /// Show activity per project.
    Projects,
}

#[derive(Debug, Clone, PartialEq, Eq)]
pub struct LogArgs {
    pub event: Option<String>,
    pub cmd: Option<String>,
    pub cwd: Option<String>,
    pub project: Option<String>,
    pub session_start: bool,
    pub session_end: bool,
    pub idle_start: bool,
    pub idle_end: bool,
}

#[derive(Debug, Clone, PartialEq, Eq)]
pub struct BackArgs {
    /// A time expression such as `1h`, `30m`, `yesterday` or `last-session`.
    pub when: String,
}

#[derive(Debug, Clone, PartialEq, Eq)]
pub struct SearchArgs {
    pub query: String,
    pub today: bool,
    pub project: Option<String>,
    /// A calendar day, `YYYY-MM-DD`.
    pub date: Option<String>,
}

#[derive(Debug, Clone, PartialEq, Eq)]
pub struct StatsArgs {
    pub from: Option<String>,
    pub to: Option<String>,
    pub week: bool,
    pub month: bool,
}

#[derive(Debug, Clone, PartialEq, Eq)]
pub struct TimelineArgs {
    pub today: bool,
    pub yesterday: bool,
    /// A calendar day, `YYYY-MM-DD`.
    pub date: Option<String>,
    pub limit: usize,
}


#[derive(Debug, Clone, PartialEq, Eq)]
pub struct NoteArgs {
    pub text: String,
}

} // verus!
