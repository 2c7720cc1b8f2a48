use opstrail::aggregate::{projects, stats, tally, today, KeyKind};
use opstrail::events::{keep_parsed, Event, EventType};
use opstrail::query::{
    locate, resume, search, search_folded, shown_results, text_matches_folded, time_travel, timeline, DayWindow,
    SearchFilter, TravelOutcome,
};
use opstrail::session::{is_idle, list_sessions, SessionManager, SessionState};
use opstrail::time::Clock;

const MIN: i64 = 60_000;
const HOUR: i64 = 3_600_000;
const T0: i64 = 1_700_000_000_000;

fn cmd(t: i64, c: &str) -> Event {
    Event::new(EventType::Command { cmd: c.to_string() }, t)
}

fn at_dir(t: i64, dir: &str) -> Event {
    cmd(t, "ls").with_cwd(dir.to_string())
}

fn no_filter() -> SearchFilter {
    SearchFilter { today: None, date: None, project: None }
}

#[test]
fn locator_picks_closest_at_or_before() {
    let events = vec![at_dir(T0, "/a"), at_dir(T0 + HOUR, "/b"), at_dir(T0 + 2 * HOUR, "/c")];
    assert_eq!(locate(&events, T0 + HOUR + 1000), TravelOutcome::Location("/b".to_string()));
    assert_eq!(locate(&events, T0 + HOUR), TravelOutcome::Location("/b".to_string()));
}

#[test]
fn locator_reports_no_history_before_all_events() {
    let events = vec![at_dir(T0, "/a"), at_dir(T0 + HOUR, "/b"), at_dir(T0 + 2 * HOUR, "/c")];
    assert_eq!(locate(&events, T0 - HOUR), TravelOutcome::NoHistory);
    assert_eq!(locate(&Vec::new(), T0), TravelOutcome::NoHistory);
}

#[test]
fn locator_reports_staleness_after_a_day() {
    let events = vec![at_dir(T0, "/a")];
    assert_eq!(
        locate(&events, T0 + 30 * HOUR),
        TravelOutcome::NoRecentActivity { staleness_ms: (30 * HOUR) as u64 }
    );
    assert_eq!(locate(&events, T0 + 24 * HOUR), TravelOutcome::Location("/a".to_string()));
}

#[test]
fn locator_ignores_events_without_directory() {
    let events = vec![at_dir(T0, "/a"), cmd(T0 + MIN, "make"), at_dir(T0 + 2 * MIN, "")];
    assert_eq!(locate(&events, T0 + 3 * MIN), TravelOutcome::Location("/a".to_string()));
}

#[test]
fn time_travel_resolves_then_locates() {
    let clock = Clock { now: T0 + 2 * HOUR, today_start: T0, yesterday_start: T0 - 24 * HOUR };
    let events = vec![at_dir(T0, "/a"), at_dir(T0 + HOUR, "/b")];
    assert_eq!(
        time_travel(&events, "30m", &clock),
        Ok(TravelOutcome::Location("/b".to_string()))
    );
    assert_eq!(time_travel(&events, "today", &clock), Ok(TravelOutcome::Location("/a".to_string())));
    assert!(time_travel(&events, "bogus", &clock).is_err());
}

#[test]
fn search_ignores_case() {
    let events = vec![cmd(T0, "git status"), cmd(T0 + 1, "ls"), cmd(T0 + 2, "GIT commit")];
    let upper = search(&events, "GIT", &no_filter());
    let lower = search(&events, "git", &no_filter());
    assert_eq!(upper, vec![0, 2]);
    assert_eq!(upper, lower);
    assert_eq!(search(&events, "git", &no_filter()), lower);
}

#[test]
fn search_matches_notes_and_projects_only_by_text() {
    let events = vec![
        Event::new(EventType::Note { text: "Fix the Build".to_string() }, T0),
        Event::new(EventType::ProjectDetected { name: "builder".to_string() }, T0 + 1),
        Event::new(EventType::SessionStart, T0 + 2),
        Event::new(
            EventType::DirectoryChange { from: "/build".to_string(), to: "/x".to_string() },
            T0 + 3,
        ),
    ];
    assert_eq!(search(&events, "build", &no_filter()), vec![0, 1]);
    assert_eq!(search(&events, "nothing", &no_filter()), Vec::<usize>::new());
}

#[test]
fn search_by_project_excludes_other_projects() {
    let events = vec![
        cmd(T0, "cargo build").with_project("alpha".to_string()),
        cmd(T0 + 1, "cargo test").with_project("beta".to_string()),
        cmd(T0 + 2, "cargo run"),
    ];
    let f = SearchFilter { project: Some("alpha".to_string()), ..no_filter() };
    assert_eq!(search(&events, "cargo", &f), vec![0]);
    let g = SearchFilter { project: Some("gamma".to_string()), ..no_filter() };
    assert_eq!(search(&events, "cargo", &g), Vec::<usize>::new());
}

#[test]
fn search_by_day_window() {
    let events = vec![cmd(T0, "make"), cmd(T0 + 25 * HOUR, "make")];
    let w = DayWindow { start: T0 + 24 * HOUR, end: T0 + 48 * HOUR };
    let f = SearchFilter { today: Some(w), ..no_filter() };
    assert_eq!(search(&events, "make", &f), vec![1]);
    let g = SearchFilter { date: Some(w), ..no_filter() };
    assert_eq!(search(&events, "make", &g), vec![1]);
}

#[test]
fn folded_search_takes_folded_query() {
    let events = vec![cmd(T0, "Git status")];
    assert_eq!(search_folded(&events, "git", &no_filter()), vec![0]);
    assert_eq!(search_folded(&events, "GIT", &no_filter()), Vec::<usize>::new());
    assert!(text_matches_folded("git status", "t st"));
    assert!(text_matches_folded("abc", ""));
    assert!(!text_matches_folded("abc", "abcd"));
}

#[test]
fn sessions_group_by_identifier() {
    let s = |t: i64| cmd(t, "x").with_session("s1".to_string());
    let events = vec![s(T0), cmd(T0 + MIN, "y"), s(T0 + 5 * MIN), s(T0 + 12 * MIN)];
    let groups = list_sessions(&events);
    assert_eq!(groups.len(), 1);
    assert_eq!(groups[0].session_id, "s1");
    assert_eq!(groups[0].count, 3);
    assert_eq!(groups[0].start, T0);
    assert_eq!(groups[0].end, T0 + 12 * MIN);
    assert_eq!(groups[0].duration_minutes(), 12);
    assert_eq!(groups[0].duration_ms(), (12 * MIN) as i128);
}

#[test]
fn sessions_keep_first_appearance_order() {
    let events = vec![
        cmd(T0, "a").with_session("s2".to_string()),
        cmd(T0 + 1, "b").with_session("s1".to_string()),
        cmd(T0 + 2, "c").with_session("s2".to_string()),
        cmd(T0 + 3, "d"),
    ];
    let groups = list_sessions(&events);
    assert_eq!(groups.len(), 2);
    assert_eq!((groups[0].session_id.as_str(), groups[0].count), ("s2", 2));
    assert_eq!((groups[1].session_id.as_str(), groups[1].count), ("s1", 1));
    let total: usize = groups.iter().map(|g| g.count).sum();
    assert_eq!(total, 3);
}

#[test]
fn idle_is_strictly_after_timeout() {
    let now = T0;
    assert!(is_idle(now, now - 15 * MIN, 10));
    assert!(!is_idle(now, now - 5 * MIN, 10));
    assert!(!is_idle(now, now - 10 * MIN, 10));
    assert!(is_idle(now, now - 10 * MIN - 1, 10));
}

#[test]
fn check_idle_without_session_is_false() {
    assert!(!SessionManager::check_idle(&None, 10, T0));
    let st = SessionState {
        current_session_id: "session_1".to_string(),
        session_start: T0 - HOUR,
        last_activity: T0 - 15 * MIN,
    };
    assert!(SessionManager::check_idle(&Some(st), 10, T0));
}

#[test]
fn session_created_lazily_and_refreshed() {
    let fresh = SessionManager::current_session_id(None, 1_700_000_123_456);
    assert_eq!(fresh.current_session_id, "session_1700000123");
    assert_eq!(fresh.session_start, 1_700_000_123_456);
    let mut kept = SessionManager::current_session_id(Some(fresh.clone()), 1_800_000_000_000);
    assert_eq!(kept, fresh);
    SessionManager::update_last_activity(&mut kept, 1_800_000_000_000);
    assert_eq!(kept.last_activity, 1_800_000_000_000);
    assert_eq!(kept.current_session_id, "session_1700000123");
    assert_eq!(SessionManager::generate_session_id(0), "session_0");
}

#[test]
fn corrupt_lines_are_dropped() {
    let parsed = vec![Some(cmd(T0, "a")), None, Some(cmd(T0 + 1, "b"))];
    let events = keep_parsed(parsed);
    assert_eq!(events.len(), 2);
    assert_eq!(events[0].timestamp, T0);
    assert_eq!(events[1].timestamp, T0 + 1);
    assert_eq!(keep_parsed(vec![None, None]).len(), 0);
}

#[test]
fn stats_rank_by_count() {
    let events = vec![
        cmd(T0, "git commit -m x").with_project("p".to_string()),
        cmd(T0 + 1, "ls").with_project("q".to_string()),
        cmd(T0 + 2, "  git status").with_project("q".to_string()),
        cmd(T0 + 3, "   "),
        Event::new(EventType::SessionStart, T0 + 4),
    ];
    let s = stats(&events);
    assert_eq!(s.projects.len(), 2);
    assert_eq!((s.projects[0].name.as_str(), s.projects[0].count), ("q", 2));
    assert_eq!((s.projects[1].name.as_str(), s.projects[1].count), ("p", 1));
    assert_eq!(s.commands.len(), 3);
    assert_eq!((s.commands[0].name.as_str(), s.commands[0].count), ("git", 2));
    assert_eq!((s.commands[1].name.as_str(), s.commands[1].count), ("ls", 1));
    assert_eq!((s.commands[2].name.as_str(), s.commands[2].count), ("   ", 1));
}

#[test]
fn tally_keeps_first_appearance_order() {
    let events = vec![
        cmd(T0, "b").with_project("b".to_string()),
        cmd(T0 + 1, "a").with_project("a".to_string()),
        cmd(T0 + 2, "a").with_project("a".to_string()),
    ];
    let t = tally(&events, KeyKind::Project, None);
    assert_eq!((t[0].name.as_str(), t[0].count), ("b", 1));
    assert_eq!((t[1].name.as_str(), t[1].count), ("a", 2));
}

#[test]
fn timeline_latest_first_with_limit() {
    let events = vec![cmd(T0, "a"), cmd(T0 + HOUR, "b"), cmd(T0 + 2 * HOUR, "c"), cmd(T0 + 30 * HOUR, "d")];
    assert_eq!(timeline(&events, None, 50), vec![3, 2, 1, 0]);
    assert_eq!(timeline(&events, None, 2), vec![3, 2]);
    assert_eq!(timeline(&events, None, 0), Vec::<usize>::new());
    let w = DayWindow { start: T0, end: T0 + 24 * HOUR };
    assert_eq!(timeline(&events, Some(w), 50), vec![2, 1, 0]);
}

#[test]
fn resume_finds_last_project_location_and_command() {
    let events = vec![
        cmd(T0, "vim").with_cwd("/p".to_string()).with_project("p".to_string()),
        Event::new(EventType::SessionEnd, T0 + 1).with_cwd("/q".to_string()),
        cmd(T0 + 2, "make"),
        Event::new(EventType::IdleStart, T0 + 3),
    ];
    let r = resume(&events).unwrap();
    assert_eq!(r.event, 0);
    assert_eq!(r.last_command, Some(2));
    assert!(resume(&vec![cmd(T0, "x")]).is_none());
}

#[test]
fn today_summary_counts_window() {
    let w = DayWindow { start: T0, end: T0 + 24 * HOUR };
    let events = vec![
        cmd(T0 - 1, "old").with_project("p".to_string()),
        cmd(T0, "a").with_project("p".to_string()),
        Event::new(EventType::Note { text: "n".to_string() }, T0 + 1).with_project("q".to_string()),
        cmd(T0 + 2, "b"),
    ];
    let d = today(&events, w);
    assert_eq!(d.events, 3);
    assert_eq!(d.commands, 2);
    assert_eq!(d.projects.len(), 2);
    assert_eq!((d.projects[0].name.as_str(), d.projects[0].count), ("p", 1));
}

#[test]
fn projects_report_count_and_last_directory() {
    let events = vec![
        cmd(T0, "a").with_project("p".to_string()).with_cwd("/alpha".to_string()),
        cmd(T0 + 1, "b").with_project("q".to_string()).with_cwd("/q".to_string()),
        cmd(T0 + 2, "c").with_project("q".to_string()),
        cmd(T0 + 3, "d").with_project("p".to_string()).with_cwd("/beta".to_string()),
        cmd(T0 + 4, "e").with_project("p".to_string()),
    ];
    let ps = projects(&events);
    assert_eq!(ps.len(), 2);
    assert_eq!((ps[0].name.as_str(), ps[0].count, ps[0].last_cwd.as_str()), ("p", 3, "/beta"));
    assert_eq!((ps[1].name.as_str(), ps[1].count, ps[1].last_cwd.as_str()), ("q", 2, "/q"));
    let none = projects(&vec![cmd(T0, "x").with_project("r".to_string())]);
    assert_eq!(none[0].last_cwd, "");
}

#[test]
fn search_lists_at_most_fifty() {
    let hits: Vec<usize> = (0..60).collect();
    assert_eq!(shown_results(&hits), (0..50).collect::<Vec<usize>>());
    assert_eq!(shown_results(&vec![3, 7]), vec![3, 7]);
    assert_eq!(shown_results(&Vec::new()), Vec::<usize>::new());
}

#[test]
fn session_ids_round_seconds_down() {
    let before_epoch = SessionManager::current_session_id(None, -1_500);
    assert_eq!(before_epoch.current_session_id, "session_-2");
    assert_eq!(SessionManager::generate_session_id(-7), "session_-7");
    assert_eq!(SessionManager::current_session_id(None, 1_999).current_session_id, "session_1");
}

#[test]
fn sessionless_events_never_form_a_group() {
    let events = vec![cmd(T0, "a"), cmd(T0 + 1, "b")];
    assert!(list_sessions(&events).is_empty());
}
