//! Building the events that the shell integration and notes append to the log.
use vstd::prelude::*;
use crate::cli::{LogArgs, NoteArgs};
use crate::config::Config;
use crate::events::{opt_view, Event, EventType, Timestamp};
use crate::projwarp::{alias_for, ProjWarp, ProjWarpConfig};

verus! {

/// The kind of event a `log` invocation records: the first flag set among
/// session start, session end, idle start and idle end, else a command when
/// one is given, else none.
pub open spec fn log_kind(args: LogArgs) -> Option<EventType> {
    if args.session_start {
        Some(EventType::SessionStart)
    } else if args.session_end {
        Some(EventType::SessionEnd)
    } else if args.idle_start {
        Some(EventType::IdleStart)
    } else if args.idle_end {
        Some(EventType::IdleEnd)
    } else {
        match args.cmd {
            Some(cmd) => Some(EventType::Command { cmd }),
            None => None,
        }
    }
}

/// The project the mapper gives directory `cwd`, when a table is loaded.
pub open spec fn mapped_project(table: Option<&ProjWarpConfig>, cwd: Seq<char>) -> Option<Seq<char>> {
    match table {
        Some(t) => alias_for(t.projects@, cwd),
        None => None,
    }
}

/// Whether a `log` invocation records an event at all.
pub fn records_event(args: &LogArgs) -> (r: bool)
    ensures
        r == log_kind(*args) is Some,
{
    args.session_start || args.session_end || args.idle_start || args.idle_end
        || args.cmd.is_some()
}

fn resolve_with(table: Option<&ProjWarpConfig>, cwd: &str) -> (r: Option<String>)
    ensures
        opt_view(r) == mapped_project(table, cwd@),
{
    match table {
        Some(t) => ProjWarp::resolve_project(t, cwd),
        None => None,
    }
}

/// The event a `log` invocation records at `now` in session `session_id`. Its
/// directory is the one given, else `fallback_cwd`; when there is a directory,
/// its project is the one given, else (with the integration on) the mapper's.
pub fn log_event(
    args: LogArgs,
    config: &Config,
    table: Option<&ProjWarpConfig>,
    fallback_cwd: Option<String>,
    session_id: String,
    now: Timestamp,
) -> (r: Option<Event>)
    ensures
        match r {
            None => log_kind(args) is None,
            Some(e) => {
                let cwd = if args.cwd is Some {
                    args.cwd
                } else {
                    fallback_cwd
                };
                &&& log_kind(args) == Some(e.event_type)
                &&& e.timestamp == now
                &&& e.session_id == Some(session_id)
                &&& e.cwd == cwd
                &&& opt_view(e.project) == match cwd {
                    None => None,
                    Some(c) => if args.project is Some {
                        opt_view(args.project)
                    } else if config.enable_projwarp_integration {
                        mapped_project(table, c@)
                    } else {
                        None
                    },
                }
            },
        },
{
    let ghost a = args;
    let kind = if args.session_start {
        EventType::SessionStart
    } else if args.session_end {
        EventType::SessionEnd
    } else if args.idle_start {
        EventType::IdleStart
    } else if args.idle_end {
        EventType::IdleEnd
    } else {
        match args.cmd {
            Some(cmd) => EventType::Command { cmd },
            None => {
                return None;
            },
        }
    };
    let mut event = Event::new(kind, now);
    let cwd = match args.cwd {
        Some(c) => Some(c),
        None => fallback_cwd,
    };
    if let Some(cwd) = cwd {
        let project = match args.project {
            Some(p) => Some(p),
            None => if config.enable_projwarp_integration {
                resolve_with(table, cwd.as_str())
            } else {
                None
            },
        };
        event = event.with_cwd(cwd);
        if let Some(p) = project {
            event = event.with_project(p);
        }
    }
    Some(event.with_session(session_id))
}

/// A note recorded at `now` in session `session_id`, in directory `cwd` when
/// known, with the mapper's project for that directory.
pub fn add_note(
    args: NoteArgs,
    table: Option<&ProjWarpConfig>,
    cwd: Option<String>,
    session_id: String,
    now: Timestamp,
) -> (r: Event)
    ensures
        r.event_type == (EventType::Note { text: args.text }),
        r.timestamp == now,
        r.session_id == Some(session_id),
        r.cwd == cwd,
        opt_view(r.project) == match cwd {
            Some(c) => mapped_project(table, c@),
            None => None,
        },
{
    let project = match &cwd {
        Some(c) => resolve_with(table, c.as_str()),
        None => None,
    };
    let mut event = Event::new(EventType::Note { text: args.text }, now);
    if let Some(c) = cwd {
        event = event.with_cwd(c);
    }
    if let Some(p) = project {
        event = event.with_project(p);
    }
    event.with_session(session_id)
}

} // verus!
