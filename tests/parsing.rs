use opstrail::cli::{LogArgs, NoteArgs};
use opstrail::config::{join, Config};
use opstrail::events::{Event, EventType};
use opstrail::logger::{add_note, log_event, records_event};
use opstrail::projwarp::{ProjWarp, ProjWarpConfig, ProjectEntry};
use opstrail::text::{decimal_string, first_word_of, normalize_separators};
use opstrail::time::{
    format_duration, parse_date, parse_integer, parse_relative_time, CalendarDate, Clock, DateError,
    TimeError,
};

const NOW: i64 = 1_700_000_000_000;

fn clock() -> Clock {
    Clock { now: NOW, today_start: NOW - 5_000_000, yesterday_start: NOW - 5_000_000 - 86_400_000 }
}

#[test]
fn relative_suffixes_count_back_from_now() {
    let units = [('m', 60_000i64), ('h', 3_600_000), ('d', 86_400_000), ('w', 604_800_000)];
    for (suffix, unit) in units {
        for n in [0i64, 1, 100] {
            let expr = format!("{}{}", n, suffix);
            assert_eq!(parse_relative_time(&expr, &clock()), Ok(NOW - n * unit), "{}", expr);
        }
    }
}

#[test]
fn named_instants_resolve() {
    let c = clock();
    assert_eq!(parse_relative_time("now", &c), Ok(NOW));
    assert_eq!(parse_relative_time("today", &c), Ok(c.today_start));
    assert_eq!(parse_relative_time("yesterday", &c), Ok(c.yesterday_start));
    assert_eq!(parse_relative_time("last-session", &c), Ok(NOW - 3_600_000));
}

#[test]
fn negative_and_signed_counts() {
    assert_eq!(parse_relative_time("-2h", &clock()), Ok(NOW + 7_200_000));
    assert_eq!(parse_relative_time("+3m", &clock()), Ok(NOW - 180_000));
    assert_eq!(parse_relative_time("5mm", &clock()), Err(TimeError::InvalidTimeFormat("5mm".to_string())));
    assert_eq!(parse_relative_time("1hh", &clock()), Err(TimeError::InvalidTimeFormat("1hh".to_string())));
    assert_eq!(parse_relative_time("2dd", &clock()), Err(TimeError::InvalidTimeFormat("2dd".to_string())));
}

#[test]
fn unrecognized_and_invalid_expressions_differ() {
    assert_eq!(
        parse_relative_time("bogus", &clock()),
        Err(TimeError::UnrecognizedTimeExpression("bogus".to_string()))
    );
    assert_eq!(
        parse_relative_time("12x", &clock()),
        Err(TimeError::UnrecognizedTimeExpression("12x".to_string()))
    );
    assert_eq!(
        parse_relative_time("abcm", &clock()),
        Err(TimeError::InvalidTimeFormat("abcm".to_string()))
    );
    assert_eq!(parse_relative_time("m", &clock()), Err(TimeError::InvalidTimeFormat("m".to_string())));
    assert_eq!(parse_relative_time("", &clock()), Err(TimeError::UnrecognizedTimeExpression(String::new())));
    assert_eq!(
        parse_relative_time("9223372036854775807w", &clock()),
        Err(TimeError::OutOfRange("9223372036854775807w".to_string()))
    );
    assert_eq!(
        TimeError::InvalidTimeFormat("abcm".to_string()).message(),
        "Invalid time format: abcm"
    );
    assert_eq!(
        TimeError::UnrecognizedTimeExpression("x".to_string()).message(),
        "Unrecognized time format: x"
    );
}

#[test]
fn integers_parse_like_std() {
    for s in ["0", "42", "-17", "+5", "9223372036854775807", "-9223372036854775808", "007"] {
        assert_eq!(parse_integer(s), s.parse::<i64>().ok(), "{}", s);
    }
    for s in ["", "-", "+", "1a", " 1", "9223372036854775808", "-9223372036854775809", "--1"] {
        assert_eq!(parse_integer(s), None, "{}", s);
    }
}

#[test]
fn durations_read_in_largest_units() {
    assert_eq!(format_duration(0), "0s");
    assert_eq!(format_duration(59_999), "59s");
    assert_eq!(format_duration(60_000), "1m");
    assert_eq!(format_duration(3_599_000), "59m");
    assert_eq!(format_duration(3_600_000), "1h");
    assert_eq!(format_duration(3_900_000), "1h 5m");
    assert_eq!(format_duration(86_400_000), "1d");
    assert_eq!(format_duration(30 * 3_600_000), "1d 6h");
    assert_eq!(format_duration(3 * 86_400_000 + 1_000), "3d");
}

#[test]
fn text_helpers() {
    assert_eq!(decimal_string(0), "0");
    assert_eq!(decimal_string(1234567890), "1234567890");
    assert_eq!(first_word_of("git commit -m x"), "git");
    assert_eq!(first_word_of("\t cargo\u{3000}build"), "cargo");
    assert_eq!(first_word_of(" \n"), " \n");
    assert_eq!(normalize_separators("C:\\work\\proj"), "C:/work/proj");
}

#[test]
fn paths_join_under_data_dir() {
    assert_eq!(Config::timeline_path("/home/u/.opstrail"), "/home/u/.opstrail/timeline.jsonl");
    assert_eq!(Config::state_path("/home/u/.opstrail/"), "/home/u/.opstrail/state.json");
    assert_eq!(Config::data_dir("/home/u"), "/home/u/.opstrail");
    assert_eq!(Config::config_path("/home/u"), "/home/u/.opstrail/config.json");
    assert_eq!(ProjWarp::config_path("/home/u"), "/home/u/.projwarp.json");
    assert_eq!(join("", "a"), "a");
    let d = Config::default();
    assert_eq!(d.idle_timeout_minutes, 10);
    assert!(d.enable_projwarp_integration);
    assert!(!d.auto_cd_on_resume);
}

fn table() -> ProjWarpConfig {
    let e = |a: &str, p: &str| ProjectEntry { alias: a.to_string(), path: p.to_string() };
    ProjWarpConfig { projects: vec![e("top", "/work"), e("app", "/work/app"), e("win", "D:\\src")] }
}

#[test]
fn exact_project_path_wins_over_prefix() {
    let t = table();
    assert_eq!(ProjWarp::resolve_project(&t, "/work/app"), Some("app".to_string()));
    assert_eq!(ProjWarp::resolve_project(&t, "/work/app/src"), Some("top".to_string()));
    assert_eq!(ProjWarp::resolve_project(&t, "D:/src/x"), Some("win".to_string()));
    assert_eq!(ProjWarp::resolve_project(&t, "/elsewhere"), None);
    assert_eq!(ProjWarp::get_project_path(&t, "app"), Some("/work/app".to_string()));
    assert_eq!(ProjWarp::get_project_path(&t, "none"), None);
}

fn log_args() -> LogArgs {
    LogArgs {
        event: None,
        cmd: None,
        cwd: None,
        project: None,
        session_start: false,
        session_end: false,
        idle_start: false,
        idle_end: false,
    }
}

#[test]
fn log_event_picks_kind_and_project() {
    let cfg = Config::default();
    let t = table();
    let args = LogArgs { cmd: Some("make".to_string()), cwd: Some("/work/app".to_string()), ..log_args() };
    assert!(records_event(&args));
    let e = log_event(args, &cfg, Some(&t), None, "s1".to_string(), NOW).unwrap();
    assert_eq!(e.event_type, EventType::Command { cmd: "make".to_string() });
    assert_eq!(e.project, Some("app".to_string()));
    assert_eq!(e.cwd, Some("/work/app".to_string()));
    assert_eq!(e.session_id, Some("s1".to_string()));
    assert_eq!(e.timestamp, NOW);

    let start = LogArgs { session_start: true, cmd: Some("x".to_string()), ..log_args() };
    let e = log_event(start, &cfg, Some(&t), Some("/tmp".to_string()), "s1".to_string(), NOW).unwrap();
    assert_eq!(e.event_type, EventType::SessionStart);
    assert_eq!(e.cwd, Some("/tmp".to_string()));
    assert_eq!(e.project, None);

    let off = Config { enable_projwarp_integration: false, ..Config::default() };
    let args = LogArgs { cmd: Some("make".to_string()), cwd: Some("/work".to_string()), ..log_args() };
    let e = log_event(args, &off, Some(&t), None, "s1".to_string(), NOW).unwrap();
    assert_eq!(e.project, None);

    assert!(!records_event(&log_args()));
    assert_eq!(log_event(log_args(), &cfg, None, None, "s1".to_string(), NOW), None);
}

#[test]
fn notes_carry_directory_and_project() {
    let t = table();
    let e = add_note(NoteArgs { text: "hi".to_string() }, Some(&t), Some("/work".to_string()), "s".to_string(), NOW);
    assert_eq!(e.event_type, EventType::Note { text: "hi".to_string() });
    assert_eq!(e.project, Some("top".to_string()));
    let e = add_note(NoteArgs { text: "hi".to_string() }, Some(&t), None, "s".to_string(), NOW);
    assert_eq!(e.cwd, None);
    assert_eq!(e.project, None);
}

#[test]
fn kinds_have_short_names() {
    let c = EventType::Command { cmd: "x".to_string() };
    assert_eq!(c.display_name(), "command");
    assert_eq!(EventType::DirectoryChange { from: "a".into(), to: "b".into() }.display_name(), "cd");
    assert_eq!(EventType::SessionStart.display_name(), "session_start");
    assert_eq!(EventType::SessionEnd.display_name(), "session_end");
    assert_eq!(EventType::IdleStart.display_name(), "idle_start");
    assert_eq!(EventType::IdleEnd.display_name(), "idle_end");
    assert_eq!(EventType::Note { text: "n".into() }.display_name(), "note");
    assert_eq!(EventType::ProjectDetected { name: "p".into() }.display_name(), "project");
    let e = Event::new(c, 5).with_cwd("/d".into()).with_project("p".into()).with_session("s".into());
    assert_eq!((e.cwd.as_deref(), e.project.as_deref(), e.session_id.as_deref()), (Some("/d"), Some("p"), Some("s")));
}

#[test]
fn calendar_days_parse() {
    assert_eq!(parse_date("2024-03-05"), Ok(CalendarDate { year: 2024, month: 3, day: 5 }));
    assert_eq!(parse_date("2024-02-30"), Err(DateError::InvalidDate("2024-02-30".to_string())));
    assert_eq!(parse_date("yesterday"), Err(DateError::InvalidDate("yesterday".to_string())));
    assert_eq!(
        DateError::InvalidDate("x".to_string()).message(),
        "Invalid date format: x (use YYYY-MM-DD)"
    );
}
