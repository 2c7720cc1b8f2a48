//! Activity counts per project and per command, and their ranking.
use vstd::prelude::*;
use crate::events::{opt_view, Event, EventType};
use crate::query::{in_window, DayWindow};
use crate::text::{first_word, first_word_of};

verus! {

/// How many events fell under one name.
#[derive(Debug, Clone, PartialEq, Eq)]
pub struct Tally {
    pub name: String,
    pub count: usize,
}

/// A tally as plain values.
pub type TallyView = (Seq<char>, nat);

pub open spec fn tally_view(t: Tally) -> TallyView {
    (t.name@, t.count as nat)
}

pub open spec fn tallies_view(v: Seq<Tally>) -> Seq<TallyView> {
    v.map_values(|t: Tally| tally_view(t))
}

/// What an event is counted under.
#[derive(Debug, Clone, Copy, PartialEq, Eq)]
pub enum KeyKind {
    /// Its project, when it has one.
    Project,
    /// The first word of its command, for command events.
    CommandName,
}

/// The name event `e` is counted under, if any; events outside `w` count under none.
pub open spec fn event_key(kind: KeyKind, w: Option<DayWindow>, e: Event) -> Option<Seq<char>> {
    if !in_window(e.timestamp, w) {
        None
    } else {
        match kind {
            KeyKind::Project => opt_view(e.project),
            KeyKind::CommandName => match e.event_type {
                EventType::Command { cmd } => Some(first_word(cmd@)),
                _ => None,
            },
        }
    }
}

/// The first index at or after `i` of a tally named `k`, or -1.
pub open spec fn find_key(g: Seq<TallyView>, k: Seq<char>, i: int) -> int
    decreases g.len() - i,
{
    if i < 0 || i >= g.len() {
        -1
    } else if g[i].0 == k {
        i
    } else {
        find_key(g, k, i + 1)
    }
}

/// One more occurrence of `k`.
pub open spec fn bump(g: Seq<TallyView>, k: Seq<char>) -> Seq<TallyView> {
    let i = find_key(g, k, 0);
    if i >= 0 {
        g.update(i, (k, g[i].1 + 1))
    } else {
        g.push((k, 1))
    }
}

/// The counts over `s`, one per name, in the order the names first appear.
pub open spec fn tallies(s: Seq<Event>, kind: KeyKind, w: Option<DayWindow>) -> Seq<TallyView>
    decreases s.len(),
{
    if s.len() == 0 {
        Seq::empty()
    } else {
        let g = tallies(s.drop_last(), kind, w);
        match event_key(kind, w, s.last()) {
            Some(k) => bump(g, k),
            None => g,
        }
    }
}

proof fn lemma_find_key(g: Seq<TallyView>, k: Seq<char>, i: int)
    requires
        0 <= i,
    ensures
        -1 <= find_key(g, k, i) < g.len(),
        find_key(g, k, i) >= 0 ==> find_key(g, k, i) >= i && g[find_key(g, k, i)].0 == k,
        find_key(g, k, i) < 0 ==> forall|j: int| i <= j < g.len() ==> g[j].0 != k,
    decreases g.len() - i,
{
    if i < g.len() && g[i].0 != k {
        lemma_find_key(g, k, i + 1);
    }
}

proof fn lemma_tally_bounds(s: Seq<Event>, kind: KeyKind, w: Option<DayWindow>)
    ensures
        tallies(s, kind, w).len() <= s.len(),
        forall|j: int|
            0 <= j < tallies(s, kind, w).len() ==> #[trigger] tallies(s, kind, w)[j].1 <= s.len(),
    decreases s.len(),
{
    if s.len() > 0 {
        lemma_tally_bounds(s.drop_last(), kind, w);
        if let Some(k) = event_key(kind, w, s.last()) {
            lemma_find_key(tallies(s.drop_last(), kind, w), k, 0);
        }
    }
}

fn key_of(kind: KeyKind, w: &Option<DayWindow>, e: &Event) -> (r: Option<String>)
    ensures
        opt_view(r) == event_key(kind, *w, *e),
{
    let inside = match w {
        Some(w) => w.start <= e.timestamp && e.timestamp < w.end,
        None => true,
    };
    if !inside {
        return None;
    }
    match kind {
        KeyKind::Project => match &e.project {
            Some(p) => Some(p.clone()),
            None => None,
        },
        KeyKind::CommandName => match &e.event_type {
            EventType::Command { cmd } => Some(first_word_of(cmd.as_str())),
            _ => None,
        },
    }
}

/// Counts the events of `events` under the names `kind` gives them, keeping only
/// those inside `window`; names come in the order they first appear.
pub fn tally(events: &Vec<Event>, kind: KeyKind, window: Option<DayWindow>) -> (r: Vec<Tally>)
    ensures
        tallies_view(r@) == tallies(events@, kind, window),
{
    let mut r: Vec<Tally> = Vec::new();
    let mut i: usize = 0;
    while i < events.len()
        invariant
            i <= events@.len(),
            tallies_view(r@) == tallies(events@.subrange(0, i as int), kind, window),
        decreases events@.len() - i,
    {
        let ghost g = tallies_view(r@);
        let ghost pre = events@.subrange(0, (i + 1) as int);
        assert(pre.drop_last() =~= events@.subrange(0, i as int));
        if let Some(k) = key_of(kind, &window, &events[i]) {
            let mut j: usize = 0;
            while j < r.len() && r[j].name != k
                invariant
                    j <= r@.len(),
                    g == tallies_view(r@),
                    find_key(g, k@, 0) == find_key(g, k@, j as int),
                decreases r@.len() - j,
            {
                j = j + 1;
            }
            proof {
                lemma_find_key(g, k@, 0);
            }
            if j < r.len() {
                proof {
                    lemma_tally_bounds(events@.subrange(0, i as int), kind, window);
                }
                let c = r[j].count + 1;
                r[j].count = c;
                assert(tallies_view(r@) =~= g.update(j as int, (k@, g[j as int].1 + 1)));
            } else {
                r.push(Tally { name: k, count: 1 });
                assert(tallies_view(r@) =~= g.push((k@, 1)));
            }
        }
        i = i + 1;
    }
    assert(events@.subrange(0, i as int) =~= events@);
    r
}

/// Where a count `c` goes among `r`: after every entry whose count is at least `c`.
pub open spec fn rank_slot(r: Seq<TallyView>, c: nat, i: int) -> int
    decreases r.len() - i,
{
    if i < 0 || i >= r.len() || r[i].1 < c {
        i
    } else {
        rank_slot(r, c, i + 1)
    }
}

/// `t` ordered by descending count, entries of equal count kept in their order.
pub open spec fn ranked(t: Seq<TallyView>) -> Seq<TallyView>
    decreases t.len(),
{
    if t.len() == 0 {
        Seq::empty()
    } else {
        let r = ranked(t.drop_last());
        r.insert(rank_slot(r, t.last().1, 0), t.last())
    }
}

pub open spec fn descending(r: Seq<TallyView>) -> bool {
    forall|i: int, j: int| 0 <= i < j < r.len() ==> #[trigger] r[i].1 >= #[trigger] r[j].1
}

proof fn lemma_rank_slot(r: Seq<TallyView>, c: nat, i: int)
    requires
        0 <= i <= r.len(),
        descending(r),
    ensures
        i <= rank_slot(r, c, i) <= r.len(),
        forall|j: int| i <= j < rank_slot(r, c, i) ==> #[trigger] r[j].1 >= c,
        forall|j: int| rank_slot(r, c, i) <= j < r.len() ==> #[trigger] r[j].1 < c,
    decreases r.len() - i,
{
    if i < r.len() && r[i].1 >= c {
        lemma_rank_slot(r, c, i + 1);
    }
}

/// Ranking orders by descending count and keeps every entry.
pub proof fn lemma_ranked(t: Seq<TallyView>)
    ensures
        descending(ranked(t)),
        ranked(t).to_multiset() == t.to_multiset(),
        ranked(t).len() == t.len(),
    decreases t.len(),
{
    broadcast use vstd::seq_lib::to_multiset_insert, vstd::seq_lib::to_multiset_build;

    if t.len() > 0 {
        lemma_ranked(t.drop_last());
        let r = ranked(t.drop_last());
        let x = t.last();
        lemma_rank_slot(r, x.1, 0);
        let p = rank_slot(r, x.1, 0);
        let q = r.insert(p, x);
        assert forall|i: int, j: int| 0 <= i < j < q.len() implies #[trigger] q[i].1
            >= #[trigger] q[j].1 by {
            if j < p {
            } else if j == p {
            } else if i < p {
                assert(q[j] == r[j - 1]);
            } else if i == p {
                assert(q[j] == r[j - 1]);
            } else {
                assert(q[i] == r[i - 1] && q[j] == r[j - 1]);
            }
        }
        assert(t.drop_last().push(x) =~= t);
        assert(q.to_multiset() == r.to_multiset().insert(x));
        assert(t.drop_last().push(x).to_multiset() == t.drop_last().to_multiset().insert(x));
    } else {
        assert(t =~= Seq::<TallyView>::empty());
    }
}

/// Orders tallies by descending count; tallies of equal count keep their order.
pub fn rank(t: Vec<Tally>) -> (r: Vec<Tally>)
    ensures
        tallies_view(r@) == ranked(tallies_view(t@)),
        descending(tallies_view(r@)),
        tallies_view(r@).to_multiset() == tallies_view(t@).to_multiset(),
{
    let ghost all = tallies_view(t@);
    let total = t.len();
    let mut rest = t;
    let mut r: Vec<Tally> = Vec::new();
    let mut n: usize = 0;
    proof {
        lemma_ranked(all);
    }
    while rest.len() > 0
        invariant
            n + rest@.len() == all.len(),
            all.len() == total,
            tallies_view(rest@) == all.subrange(n as int, all.len() as int),
            tallies_view(r@) == ranked(all.subrange(0, n as int)),
        decreases rest@.len(),
    {
        let ghost before = rest@;
        let x = rest.remove(0);
        let ghost rv = tallies_view(r@);
        assert(x == before[0]);
        assert(tallies_view(before)[0] == tally_view(before[0]));
        assert(tallies_view(before)[0] == all[n as int]);
        assert(tallies_view(rest@) =~= tallies_view(before).drop_first());
        assert(tallies_view(rest@) =~= all.subrange(n + 1, all.len() as int));
        assert(tally_view(x) == all[n as int]);
        proof {
            lemma_ranked(all.subrange(0, n as int));
        }
        let mut p: usize = 0;
        while p < r.len() && r[p].count >= x.count
            invariant
                p <= r@.len(),
                rv == tallies_view(r@),
                rank_slot(rv, x.count as nat, 0) == rank_slot(rv, x.count as nat, p as int),
            decreases r@.len() - p,
        {
            p = p + 1;
        }
        r.insert(p, x);
        let ghost pre = all.subrange(0, n + 1);
        assert(pre.drop_last() =~= all.subrange(0, n as int));
        assert(tallies_view(r@) =~= rv.insert(p as int, all[n as int]));
        n = n + 1;
    }
    assert(all.subrange(0, n as int) =~= all);
    proof {
        lemma_ranked(all);
    }
    r
}

/// Counts per project and per command name, each ranked by descending count.
#[derive(Debug, Clone, PartialEq, Eq)]
pub struct ActivityStats {
    pub projects: Vec<Tally>,
    pub commands: Vec<Tally>,
}

/// How many projects and commands the statistics show.
pub const STATS_TOP_PROJECTS: usize = 5;

pub const STATS_TOP_COMMANDS: usize = 10;

/// Events per project and command invocations per command name (the first word
/// of the command), each ranked by descending count.
pub fn stats(events: &Vec<Event>) -> (r: ActivityStats)
    ensures
        tallies_view(r.projects@) == ranked(tallies(events@, KeyKind::Project, None)),
        tallies_view(r.commands@) == ranked(tallies(events@, KeyKind::CommandName, None)),
{
    let projects = rank(tally(events, KeyKind::Project, None));
    let commands = rank(tally(events, KeyKind::CommandName, None));
    ActivityStats { projects, commands }
}

/// How many events of `s` lie inside `w` and, when `commands_only`, are commands.
pub open spec fn count_in(s: Seq<Event>, w: Option<DayWindow>, commands_only: bool) -> nat
    decreases s.len(),
{
    if s.len() == 0 {
        0
    } else {
        count_in(s.drop_last(), w, commands_only) + if in_window(s.last().timestamp, w) && (
        !commands_only || s.last().event_type is Command) {
            1nat
        } else {
            0nat
        }
    }
}

/// The activity of one day.
#[derive(Debug, Clone, PartialEq, Eq)]
pub struct DaySummary {
    pub events: usize,
    pub commands: usize,
    /// Events per project, in the order the projects first appear.
    pub projects: Vec<Tally>,
}

proof fn lemma_count_in_bound(s: Seq<Event>, w: Option<DayWindow>, c: bool)
    ensures
        count_in(s, w, c) <= s.len(),
    decreases s.len(),
{
    if s.len() > 0 {
        lemma_count_in_bound(s.drop_last(), w, c);
    }
}

/// How many events lie in `window`, how many of them are commands, and how many
/// belong to each project.
pub fn today(events: &Vec<Event>, window: DayWindow) -> (r: DaySummary)
    ensures
        r.events == count_in(events@, Some(window), false),
        r.commands == count_in(events@, Some(window), true),
        tallies_view(r.projects@) == tallies(events@, KeyKind::Project, Some(window)),
{
    let mut n: usize = 0;
    let mut c: usize = 0;
    let mut i: usize = 0;
    while i < events.len()
        invariant
            i <= events@.len(),
            n == count_in(events@.subrange(0, i as int), Some(window), false),
            c == count_in(events@.subrange(0, i as int), Some(window), true),
        decreases events@.len() - i,
    {
        let ghost pre = events@.subrange(0, (i + 1) as int);
        assert(pre.drop_last() =~= events@.subrange(0, i as int));
        proof {
            lemma_count_in_bound(events@.subrange(0, i as int), Some(window), false);
            lemma_count_in_bound(events@.subrange(0, i as int), Some(window), true);
        }
        let e = &events[i];
        if window.start <= e.timestamp && e.timestamp < window.end {
            n = n + 1;
            if let EventType::Command { .. } = &e.event_type {
                c = c + 1;
            }
        }
        i = i + 1;
    }
    assert(events@.subrange(0, i as int) =~= events@);
    DaySummary { events: n, commands: c, projects: tally(events, KeyKind::Project, Some(window)) }
}

/// One project's activity: how many events name it and the working directory of
/// the last of them that had one (empty when none had).
#[derive(Debug, Clone, PartialEq, Eq)]
pub struct ProjectActivity {
    pub name: String,
    pub count: usize,
    pub last_cwd: String,
}

/// The working directory of the last event below `n` of project `p` that has one.
pub open spec fn last_cwd_of(s: Seq<Event>, p: Seq<char>, n: int) -> Seq<char>
    decreases n,
{
    if n <= 0 || n > s.len() {
        Seq::empty()
    } else if opt_view(s[n - 1].project) == Some(p) && s[n - 1].cwd is Some {
        s[n - 1].cwd->0@
    } else {
        last_cwd_of(s, p, n - 1)
    }
}

fn last_cwd(events: &Vec<Event>, p: &String) -> (r: String)
    ensures
        r@ == last_cwd_of(events@, p@, events@.len() as int),
{
    let mut i: usize = events.len();
    while i > 0
        invariant
            i <= events@.len(),
            last_cwd_of(events@, p@, events@.len() as int) == last_cwd_of(events@, p@, i as int),
        decreases i,
    {
        let e = &events[i - 1];
        if let Some(q) = &e.project {
            if *q == *p {
                if let Some(c) = &e.cwd {
                    return c.clone();
                }
            }
        }
        i = i - 1;
    }
    String::new()
}

/// Every project with its event count and last working directory, ranked by
/// descending count.
pub fn projects(events: &Vec<Event>) -> (r: Vec<ProjectActivity>)
    ensures
        r@.len() == ranked(tallies(events@, KeyKind::Project, None)).len(),
        forall|i: int|
            0 <= i < r@.len() ==> {
                let t = #[trigger] ranked(tallies(events@, KeyKind::Project, None))[i];
                &&& r@[i].name@ == t.0
                &&& r@[i].count == t.1
                &&& r@[i].last_cwd@ == last_cwd_of(events@, t.0, events@.len() as int)
            },
{
    let ranked_tallies = rank(tally(events, KeyKind::Project, None));
    let ghost rt = tallies_view(ranked_tallies@);
    let mut r: Vec<ProjectActivity> = Vec::new();
    let mut i: usize = 0;
    while i < ranked_tallies.len()
        invariant
            i <= ranked_tallies@.len(),
            rt == tallies_view(ranked_tallies@),
            rt == ranked(tallies(events@, KeyKind::Project, None)),
            r@.len() == i,
            forall|k: int|
                0 <= k < i ==> {
                    let t = #[trigger] rt[k];
                    &&& r@[k].name@ == t.0
                    &&& r@[k].count == t.1
                    &&& r@[k].last_cwd@ == last_cwd_of(events@, t.0, events@.len() as int)
                },
        decreases ranked_tallies@.len() - i,
    {
        let t = &ranked_tallies[i];
        let cwd = last_cwd(events, &t.name);
        r.push(ProjectActivity { name: t.name.clone(), count: t.count, last_cwd: cwd });
        i = i + 1;
    }
    r
}

} // verus!
