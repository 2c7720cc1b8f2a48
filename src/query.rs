//! Questions over the event log: where was I, what did I run, what happened when.
use vstd::prelude::*;
use crate::events::{free_text, opt_view, Event, EventType, Timestamp};
use crate::text::{chars_of, contains_chars, contains_seq, lower_of, lowercase};
use crate::time::{parse_relative_time, resolves_to, Clock, TimeError, DAY_MS};

verus! {

/// A half-open span of instants `[start, end)`, such as one local calendar day.
#[derive(Debug, Clone, Copy, PartialEq, Eq)]
pub struct DayWindow {
    pub start: Timestamp,
    pub end: Timestamp,
}

pub open spec fn in_window(t: Timestamp, w: Option<DayWindow>) -> bool {
    match w {
        Some(w) => w.start <= t && t < w.end,
        None => true,
    }
}

fn within(t: Timestamp, w: &Option<DayWindow>) -> (r: bool)
    ensures
        r == in_window(t, *w),
{
    match w {
        Some(w) => w.start <= t && t < w.end,
        None => true,
    }
}

// ---------------------------------------------------------------- time travel

/// Where a time-travel query lands.
#[derive(Debug, Clone, PartialEq, Eq)]
pub enum TravelOutcome {
    /// The working directory of the latest event at or before the target.
    Location(String),
    /// No event with a working directory lies at or before the target.
    NoHistory,
    /// The latest such event lies more than a day before the target; this is how
    /// long before, in milliseconds.
    NoRecentActivity { staleness_ms: u64 },
}

/// An event that can answer "where was I at `target`".
pub open spec fn qualifies(e: Event, target: Timestamp) -> bool {
    e.timestamp <= target && match e.cwd {
        Some(c) => c@.len() > 0,
        None => false,
    }
}

/// Event `i` qualifies and no qualifying event is later.
pub open spec fn latest_at(s: Seq<Event>, target: Timestamp, i: int) -> bool {
    0 <= i < s.len() && qualifies(s[i], target) && forall|j: int|
        0 <= j < s.len() && qualifies(#[trigger] s[j], target) ==> s[j].timestamp
            <= s[i].timestamp
}

/// `r` is what the locator owes for `s` and `target`.
pub open spec fn located(s: Seq<Event>, target: Timestamp, r: TravelOutcome) -> bool {
    match r {
        TravelOutcome::NoHistory => forall|i: int| 0 <= i < s.len() ==> !qualifies(#[trigger] s[i], target),
        TravelOutcome::Location(c) => exists|i: int|
            latest_at(s, target, i) && s[i].cwd == Some(c) && target - s[i].timestamp <= DAY_MS,
        TravelOutcome::NoRecentActivity { staleness_ms } => exists|i: int|
            latest_at(s, target, i) && staleness_ms == target - s[i].timestamp && staleness_ms
                > DAY_MS,
    }
}

fn has_location(e: &Event, target: Timestamp) -> (r: bool)
    ensures
        r == qualifies(*e, target),
{
    match &e.cwd {
        Some(c) => e.timestamp <= target && c.unicode_len() > 0,
        None => false,
    }
}

/// The working directory of the latest event at or before `target` that has one,
/// unless that event is more than a day old at `target`.
pub fn locate(events: &Vec<Event>, target: Timestamp) -> (r: TravelOutcome)
    ensures
        located(events@, target, r),
{
    let mut best: Option<usize> = None;
    let mut i: usize = 0;
    while i < events.len()
        invariant
            i <= events@.len(),
            match best {
                None => forall|j: int| 0 <= j < i ==> !qualifies(#[trigger] events@[j], target),
                Some(b) => b < i && qualifies(events@[b as int], target) && forall|j: int|
                    0 <= j < i && qualifies(#[trigger] events@[j], target)
                        ==> events@[j].timestamp <= events@[b as int].timestamp,
            },
        decreases events@.len() - i,
    {
        if has_location(&events[i], target) {
            match best {
                None => {
                    best = Some(i);
                },
                Some(b) => {
                    if events[i].timestamp > events[b].timestamp {
                        best = Some(i);
                    }
                },
            }
        }
        i = i + 1;
    }
    match best {
        None => TravelOutcome::NoHistory,
        Some(b) => {
            let e = &events[b];
            assert(latest_at(events@, target, b as int));
            let staleness: i128 = (target as i128) - (e.timestamp as i128);
            if staleness > DAY_MS as i128 {
                TravelOutcome::NoRecentActivity { staleness_ms: staleness as u64 }
            } else {
                match &e.cwd {
                    Some(c) => TravelOutcome::Location(c.clone()),
                    None => TravelOutcome::NoHistory,
                }
            }
        },
    }
}

/// Resolves `when` against `clock` and locates the working directory at that
/// instant.
pub fn time_travel(events: &Vec<Event>, when: &str, clock: &Clock) -> (r: Result<
    TravelOutcome,
    TimeError,
>)
    ensures
        match r {
            Ok(o) => exists|t: Timestamp|
                resolves_to(when@, *clock, Ok(t)) && #[trigger] located(events@, t, o),
            Err(e) => resolves_to(when@, *clock, Err(e)),
        },
{
    match parse_relative_time(when, clock) {
        Ok(t) => {
            let o = locate(events, t);
            assert(located(events@, t, o));
            Ok(o)
        },
        Err(e) => Err(e),
    }
}

/// Every event of `s` has a non-empty working directory.
pub open spec fn all_located(s: Seq<Event>) -> bool {
    forall|i: int|
        0 <= i < s.len() ==> (#[trigger] s[i]).cwd is Some && s[i].cwd->0@.len() > 0
}

proof fn lemma_latest_is(s: Seq<Event>, target: Timestamp, i: int, k: int)
    requires
        all_located(s),
        latest_at(s, target, i),
        0 <= k < s.len(),
        s[k].timestamp <= target,
        forall|j: int| 0 <= j < s.len() && j != k ==> s[j].timestamp < s[k].timestamp || s[j].timestamp > target,
    ensures
        i == k,
{
    assert(qualifies(s[k], target));
}

/// Among events at t1 < t2 < t3, a target at or after t2, before t3 and within a
/// day of t2 lands on the directory of the second; a target before t1 finds no
/// history.
pub proof fn lemma_locate_closest_before(s: Seq<Event>, target: Timestamp, r: TravelOutcome)
    requires
        s.len() == 3,
        all_located(s),
        s[0].timestamp < s[1].timestamp < s[2].timestamp,
        located(s, target, r),
    ensures
        s[1].timestamp <= target < s[2].timestamp && target - s[1].timestamp <= DAY_MS ==> r
            == TravelOutcome::Location(s[1].cwd->0),
        target < s[0].timestamp ==> r == TravelOutcome::NoHistory,
{
    if s[1].timestamp <= target < s[2].timestamp && target - s[1].timestamp <= DAY_MS {
        match r {
            TravelOutcome::NoHistory => {
                assert(qualifies(s[1], target));
            },
            TravelOutcome::Location(c) => {
                let i = choose|i: int|
                    latest_at(s, target, i) && s[i].cwd == Some(c) && target - s[i].timestamp
                        <= DAY_MS;
                lemma_latest_is(s, target, i, 1);
            },
            TravelOutcome::NoRecentActivity { staleness_ms } => {
                let i = choose|i: int|
                    latest_at(s, target, i) && staleness_ms == target - s[i].timestamp
                        && staleness_ms > DAY_MS;
                lemma_latest_is(s, target, i, 1);
            },
        }
    }
    if target < s[0].timestamp {
        match r {
            TravelOutcome::NoHistory => {},
            TravelOutcome::Location(c) => {
                let i = choose|i: int|
                    latest_at(s, target, i) && s[i].cwd == Some(c) && target - s[i].timestamp
                        <= DAY_MS;
            },
            TravelOutcome::NoRecentActivity { staleness_ms } => {
                let i = choose|i: int|
                    latest_at(s, target, i) && staleness_ms == target - s[i].timestamp
                        && staleness_ms > DAY_MS;
            },
        }
    }
}

/// When the latest located event lies more than a day before the target, the
/// outcome is staleness, with the exact gap, and never a location.
pub proof fn lemma_locate_stale(s: Seq<Event>, target: Timestamp, r: TravelOutcome, k: int)
    requires
        latest_at(s, target, k),
        target - s[k].timestamp > DAY_MS,
        located(s, target, r),
    ensures
        r == (TravelOutcome::NoRecentActivity { staleness_ms: (target - s[k].timestamp) as u64 }),
{
    match r {
        TravelOutcome::NoHistory => {
            assert(qualifies(s[k], target));
        },
        TravelOutcome::Location(c) => {
            let i = choose|i: int|
                latest_at(s, target, i) && s[i].cwd == Some(c) && target - s[i].timestamp <= DAY_MS;
            assert(s[i].timestamp == s[k].timestamp);
        },
        TravelOutcome::NoRecentActivity { staleness_ms } => {
            let i = choose|i: int|
                latest_at(s, target, i) && staleness_ms == target - s[i].timestamp && staleness_ms
                    > DAY_MS;
            assert(s[i].timestamp == s[k].timestamp);
        },
    }
}

// ---------------------------------------------------------------------- search

/// The predicates a search applies beside its text query.
#[derive(Debug, Clone, PartialEq, Eq)]
pub struct SearchFilter {
    /// Only events of the current local day.
    pub today: Option<DayWindow>,
    /// Only events of one local calendar day.
    pub date: Option<DayWindow>,
    /// Only events of this project.
    pub project: Option<String>,
}

/// How many matches a search lists; the count covers all of them.
pub const SEARCH_DISPLAY_LIMIT: usize = 50;

/// The matches a search lists: the first `SEARCH_DISPLAY_LIMIT` of them.
pub fn shown_results(hits: &Vec<usize>) -> (r: Vec<usize>)
    ensures
        r@ == at_most(hits@, SEARCH_DISPLAY_LIMIT),
{
    let n = if hits.len() < SEARCH_DISPLAY_LIMIT {
        hits.len()
    } else {
        SEARCH_DISPLAY_LIMIT
    };
    let mut r: Vec<usize> = Vec::new();
    let mut i: usize = 0;
    while i < n
        invariant
            n <= hits@.len(),
            n == if hits@.len() < SEARCH_DISPLAY_LIMIT {
                hits@.len()
            } else {
                SEARCH_DISPLAY_LIMIT as nat
            },
            i <= n,
            r@ == hits@.take(i as int),
        decreases n - i,
    {
        r.push(hits[i]);
        i = i + 1;
        assert(r@ =~= hits@.take(i as int));
    }
    assert(hits@.len() <= SEARCH_DISPLAY_LIMIT ==> hits@.take(n as int) =~= hits@);
    r
}

pub open spec fn project_matches(p: Option<String>, want: Option<String>) -> bool {
    match want {
        Some(x) => opt_view(p) == Some(x@),
        None => true,
    }
}

/// The event's free text, case-folded, holds the case-folded query.
pub open spec fn text_matches(k: EventType, folded_query: Seq<char>) -> bool {
    match free_text(k) {
        Some(t) => contains_seq(lower_of(t), folded_query),
        None => false,
    }
}

pub open spec fn search_hit(e: Event, folded_query: Seq<char>, f: SearchFilter) -> bool {
    in_window(e.timestamp, f.today) && in_window(e.timestamp, f.date) && project_matches(
        e.project,
        f.project,
    ) && text_matches(e.event_type, folded_query)
}

/// The indices below `n` of the events that match, in log order.
pub open spec fn search_hits(s: Seq<Event>, folded_query: Seq<char>, f: SearchFilter, n: int) -> Seq<
    usize,
>
    decreases n,
{
    if n <= 0 || n > s.len() {
        Seq::empty()
    } else {
        search_hits(s, folded_query, f, n - 1) + if search_hit(s[n - 1], folded_query, f) {
            seq![(n - 1) as usize]
        } else {
            Seq::empty()
        }
    }
}

/// Whether a case-folded text holds a case-folded query.
pub fn text_matches_folded(folded_text: &str, folded_query: &str) -> (r: bool)
    ensures
        r == contains_seq(folded_text@, folded_query@),
{
    contains_chars(&chars_of(folded_text), &chars_of(folded_query))
}

fn project_is(p: &Option<String>, want: &Option<String>) -> (r: bool)
    ensures
        r == project_matches(*p, *want),
{
    match want {
        None => true,
        Some(x) => match p {
            Some(y) => *y == *x,
            None => false,
        },
    }
}

fn event_matches(e: &Event, folded_query: &str, f: &SearchFilter) -> (r: bool)
    ensures
        r == search_hit(*e, folded_query@, *f),
{
    if !within(e.timestamp, &f.today) || !within(e.timestamp, &f.date) || !project_is(
        &e.project,
        &f.project,
    ) {
        return false;
    }
    match e.event_type.text() {
        Some(t) => text_matches_folded(lowercase(t.as_str()).as_str(), folded_query),
        None => false,
    }
}

/// The indices of the events that pass `filter` and whose free text holds an
/// already case-folded query.
pub fn search_folded(events: &Vec<Event>, folded_query: &str, filter: &SearchFilter) -> (r: Vec<
    usize,
>)
    ensures
        r@ == search_hits(events@, folded_query@, *filter, events@.len() as int),
{
    let mut r: Vec<usize> = Vec::new();
    let mut i: usize = 0;
    while i < events.len()
        invariant
            i <= events@.len(),
            r@ == search_hits(events@, folded_query@, *filter, i as int),
        decreases events@.len() - i,
    {
        if event_matches(&events[i], folded_query, filter) {
            r.push(i);
        }
        assert(r@ =~= search_hits(events@, folded_query@, *filter, (i + 1) as int));
        i = i + 1;
    }
    r
}

/// The indices, in log order, of the events that pass `filter` and whose free
/// text holds `query`, ignoring case.
pub fn search(events: &Vec<Event>, query: &str, filter: &SearchFilter) -> (r: Vec<usize>)
    ensures
        r@ == search_hits(events@, lower_of(query@), *filter, events@.len() as int),
{
    let q = lowercase(query);
    search_folded(events, q.as_str(), filter)
}

proof fn lemma_hits_sound(s: Seq<Event>, fq: Seq<char>, f: SearchFilter, n: int)
    requires
        0 <= n <= s.len(),
        s.len() <= usize::MAX,
    ensures
        forall|j: int|
            0 <= j < search_hits(s, fq, f, n).len() ==> #[trigger] search_hits(s, fq, f, n)[j] < n
                && search_hit(s[search_hits(s, fq, f, n)[j] as int], fq, f),
    decreases n,
{
    if n > 0 {
        lemma_hits_sound(s, fq, f, n - 1);
        let h = search_hits(s, fq, f, n);
        let p = search_hits(s, fq, f, n - 1);
        assert forall|j: int| 0 <= j < h.len() implies #[trigger] h[j] < n && search_hit(
            s[h[j] as int],
            fq,
            f,
        ) by {
            if j < p.len() {
                assert(h[j] == p[j]);
            } else {
                assert(h[j] == (n - 1) as usize);
            }
        }
    }
}

/// A search restricted to a project returns only events of that project, and
/// nothing when no event has it.
pub proof fn lemma_search_project_only(s: Seq<Event>, query: Seq<char>, f: SearchFilter)
    requires
        f.project is Some,
        s.len() <= usize::MAX,
    ensures
        forall|j: int|
            0 <= j < search_hits(s, lower_of(query), f, s.len() as int).len() ==> opt_view(
                s[#[trigger] search_hits(s, lower_of(query), f, s.len() as int)[j] as int].project,
            ) == Some(f.project->0@),
        (forall|i: int| 0 <= i < s.len() ==> opt_view(#[trigger] s[i].project) != Some(
            f.project->0@,
        )) ==> search_hits(s, lower_of(query), f, s.len() as int).len() == 0,
{
    let h = search_hits(s, lower_of(query), f, s.len() as int);
    lemma_hits_sound(s, lower_of(query), f, s.len() as int);
    if h.len() > 0 {
        assert(search_hit(s[h[0] as int], lower_of(query), f));
    }
}

/// Queries that fold to the same text find the same events.
pub proof fn lemma_search_ignores_case(
    s: Seq<Event>,
    q1: Seq<char>,
    q2: Seq<char>,
    f: SearchFilter,
)
    requires
        lower_of(q1) == lower_of(q2),
    ensures
        search_hits(s, lower_of(q1), f, s.len() as int) == search_hits(
            s,
            lower_of(q2),
            f,
            s.len() as int,
        ),
{
}

// -------------------------------------------------------------------- timeline

/// The indices below `n` of the events inside `w`, latest first.
pub open spec fn recent_in(s: Seq<Event>, w: Option<DayWindow>, n: int) -> Seq<usize>
    decreases n,
{
    if n <= 0 || n > s.len() {
        Seq::empty()
    } else {
        (if in_window(s[n - 1].timestamp, w) {
            seq![(n - 1) as usize]
        } else {
            Seq::empty()
        }) + recent_in(s, w, n - 1)
    }
}

/// At most `limit` elements from the front of `s`.
pub open spec fn at_most(s: Seq<usize>, limit: usize) -> Seq<usize> {
    if s.len() <= limit {
        s
    } else {
        s.take(limit as int)
    }
}

/// The indices of the events inside `window` (all when it is `None`), latest
/// first, at most `limit` of them.
pub fn timeline(events: &Vec<Event>, window: Option<DayWindow>, limit: usize) -> (r: Vec<usize>)
    ensures
        r@ == at_most(recent_in(events@, window, events@.len() as int), limit),
{
    let ghost full = recent_in(events@, window, events@.len() as int);
    let mut r: Vec<usize> = Vec::new();
    let mut i: usize = events.len();
    while i > 0 && r.len() < limit
        invariant
            i <= events@.len(),
            r@ + recent_in(events@, window, i as int) == full,
            r@.len() <= limit,
        decreases i,
    {
        let ghost before = r@;
        if within(events[i - 1].timestamp, &window) {
            r.push(i - 1);
        }
        assert(r@ + recent_in(events@, window, (i - 1) as int) =~= before + recent_in(
            events@,
            window,
            i as int,
        ));
        i = i - 1;
    }
    if i == 0 {
        assert(r@ =~= full);
    } else {
        assert(full.take(limit as int) =~= r@);
    }
    r
}

// ---------------------------------------------------------------------- resume

/// Where work was last going on, as indices into the log.
#[derive(Debug, Clone, Copy, PartialEq, Eq)]
pub struct ResumePoint {
    /// The latest event with both a project and a working directory.
    pub event: usize,
    /// The latest command event, if any.
    pub last_command: Option<usize>,
}

pub open spec fn resumable(e: Event) -> bool {
    e.project is Some && e.cwd is Some
}

pub open spec fn is_command(e: Event) -> bool {
    e.event_type is Command
}

/// `i` is the last index of `s` whose event is resumable.
pub open spec fn last_resumable(s: Seq<Event>, i: int) -> bool {
    0 <= i < s.len() && resumable(s[i]) && forall|j: int|
        i < j < s.len() ==> !resumable(#[trigger] s[j])
}

/// `i` is the last index of `s` whose event is a command.
pub open spec fn last_command_at(s: Seq<Event>, i: int) -> bool {
    0 <= i < s.len() && is_command(s[i]) && forall|j: int|
        i < j < s.len() ==> !is_command(#[trigger] s[j])
}

fn last_command_index(events: &Vec<Event>) -> (r: Option<usize>)
    ensures
        match r {
            Some(i) => last_command_at(events@, i as int),
            None => forall|j: int| 0 <= j < events@.len() ==> !is_command(#[trigger] events@[j]),
        },
{
    let mut i: usize = events.len();
    while i > 0
        invariant
            i <= events@.len(),
            forall|j: int| i <= j < events@.len() ==> !is_command(#[trigger] events@[j]),
        decreases i,
    {
        if let EventType::Command { .. } = &events[i - 1].event_type {
            return Some(i - 1);
        }
        i = i - 1;
    }
    None
}

/// The latest event with a project and a working directory, and the latest
/// command; `None` when no event has both a project and a directory.
pub fn resume(events: &Vec<Event>) -> (r: Option<ResumePoint>)
    ensures
        match r {
            Some(p) => last_resumable(events@, p.event as int) && match p.last_command {
                Some(c) => last_command_at(events@, c as int),
                None => forall|j: int|
                    0 <= j < events@.len() ==> !is_command(#[trigger] events@[j]),
            },
            None => forall|j: int| 0 <= j < events@.len() ==> !resumable(#[trigger] events@[j]),
        },
{
    let mut i: usize = events.len();
    while i > 0
        invariant
            i <= events@.len(),
            forall|j: int| i <= j < events@.len() ==> !resumable(#[trigger] events@[j]),
        decreases i,
    {
        let e = &events[i - 1];
        if e.project.is_some() && e.cwd.is_some() {
            return Some(ResumePoint { event: i - 1, last_command: last_command_index(events) });
        }
        i = i - 1;
    }
    None
}

} // verus!
