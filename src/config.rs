//! Settings, and where the tool keeps its files.
use vstd::prelude::*;

verus! {

/// The settings read once per invocation.
#[derive(Debug, Clone, Copy, PartialEq, Eq)]
pub struct Config {
    /// Minutes without activity after which the shell counts as idle.
    pub idle_timeout_minutes: u64,
    /// Whether logged events get a project from the project mapper.
    pub enable_projwarp_integration: bool,
    /// Whether `resume` prints only the path, for the shell to change into.
    pub auto_cd_on_resume: bool,
}

impl Default for Config {
    fn default() -> (r: Self)
        ensures
            r.idle_timeout_minutes == 10,
            r.enable_projwarp_integration,
            !r.auto_cd_on_resume,
    {
        Config { idle_timeout_minutes: 10, enable_projwarp_integration: true, auto_cd_on_resume: false }
    }
}

/// `name` inside directory `dir`, with one `/` between them.
pub open spec fn join_path(dir: Seq<char>, name: Seq<char>) -> Seq<char> {
    if dir.len() == 0 {
        name
    } else if dir.last() == '/' {
        dir + name
    } else {
        dir + "/"@ + name
    }
}

/// Joins a relative `name` onto directory `dir`.
pub fn join(dir: &str, name: &str) -> (r: String)
    ensures
        r@ == join_path(dir@, name@),
{
    let n = dir.unicode_len();
    if n == 0 {
        return String::from_str(name);
    }
    let mut r = String::from_str(dir);
    if dir.get_char(n - 1) != '/' {
        r.append("/");
    }
    r.append(name);
    r
}

impl Config {
    /// The directory holding the log, the session state and the settings.
    pub fn data_dir(home: &str) -> (r: String)
        ensures
            r@ == join_path(home@, ".opstrail"@),
    {
        join(home, ".opstrail")
    }

    /// The settings file.
    pub fn config_path(home: &str) -> (r: String)
        ensures
            r@ == join_path(join_path(home@, ".opstrail"@), "config.json"@),
    {
        join(Self::data_dir(home).as_str(), "config.json")
    }

    /// The event log, inside the data directory.
    pub fn timeline_path(data_dir: &str) -> (r: String)
        ensures
            r@ == join_path(data_dir@, "timeline.jsonl"@),
    {
        join(data_dir, "timeline.jsonl")
    }

    /// The session state, inside the data directory.
    pub fn state_path(data_dir: &str) -> (r: String)
        ensures
            r@ == join_path(data_dir@, "state.json"@),
    {
        join(data_dir, "state.json")
    }
}

} // verus!
