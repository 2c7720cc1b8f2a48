//! The current session, idle detection, and grouping of events into sessions.
use vstd::prelude::*;
use crate::events::{Event, Timestamp};
use crate::text::{decimal, push_decimal};

verus! {

/// The session being stamped onto new events.
#[derive(Debug, Clone, PartialEq, Eq)]
pub struct SessionState {
    pub current_session_id: String,
    pub session_start: Timestamp,
    pub last_activity: Timestamp,
}

/// Operations on the current session.
pub struct SessionManager;

/// Whether more than `timeout_minutes` have passed from `last_activity` to `now`.
pub open spec fn idle_at(now: Timestamp, last_activity: Timestamp, timeout_minutes: u64) -> bool {
    now - last_activity > timeout_minutes * 60_000
}

/// The identifier of a session created at `unix_secs`.
pub open spec fn session_id_text(unix_secs: int) -> Seq<char> {
    if unix_secs < 0 {
        "session_-"@ + decimal((-unix_secs) as nat)
    } else {
        "session_"@ + decimal(unix_secs as nat)
    }
}

/// The whole seconds of an instant, rounded down.
pub open spec fn seconds_of(t: Timestamp) -> int {
    if t >= 0 {
        t / 1000
    } else {
        -((-t + 999) / 1000)
    }
}

/// The whole seconds of an instant, rounded down.
pub fn unix_seconds(t: Timestamp) -> (r: i64)
    ensures
        r == seconds_of(t),
{
    if t >= 0 {
        t / 1000
    } else {
        let m: i128 = -(t as i128);
        let up: i128 = (m + 999) / 1000;
        -(up as i64)
    }
}

/// Strict comparison of the time since the last activity with an idle timeout.
pub fn is_idle(now: Timestamp, last_activity: Timestamp, timeout_minutes: u64) -> (r: bool)
    ensures
        r == idle_at(now, last_activity, timeout_minutes),
{
    (now as i128) - (last_activity as i128) > (timeout_minutes as i128) * 60_000
}

impl SessionManager {
    /// A session identifier derived from the current Unix time in seconds.
    pub fn generate_session_id(unix_secs: i64) -> (r: String)
        ensures
            r@ == session_id_text(unix_secs as int),
    {
        if unix_secs < 0 {
            let mut r = String::from_str("session_-");
            push_decimal(&mut r, (-(unix_secs as i128)) as u64);
            r
        } else {
            let mut r = String::from_str("session_");
            push_decimal(&mut r, unix_secs as u64);
            r
        }
    }

    /// The session to stamp onto an event logged at `now`: the stored one, or a
    /// fresh one started now when none is stored.
    pub fn current_session_id(stored: Option<SessionState>, now: Timestamp) -> (r: SessionState)
        ensures
            match stored {
                Some(s) => r == s,
                None => r.current_session_id@ == session_id_text(seconds_of(now))
                    && r.session_start == now && r.last_activity == now,
            },
    {
        match stored {
            Some(s) => s,
            None => SessionState {
                current_session_id: Self::generate_session_id(unix_seconds(now)),
                session_start: now,
                last_activity: now,
            },
        }
    }

    /// Records activity at `now`.
    pub fn update_last_activity(state: &mut SessionState, now: Timestamp)
        ensures
            final(state).current_session_id == old(state).current_session_id,
            final(state).session_start == old(state).session_start,
            final(state).last_activity == now,
    {
        state.last_activity = now;
    }

    /// Whether the stored session has been idle longer than the timeout; never
    /// when no session is stored.
    pub fn check_idle(stored: &Option<SessionState>, timeout_minutes: u64, now: Timestamp) -> (r:
        bool)
        ensures
            r == match stored {
                Some(s) => idle_at(now, s.last_activity, timeout_minutes),
                None => false,
            },
    {
        match stored {
            Some(s) => is_idle(now, s.last_activity, timeout_minutes),
            None => false,
        }
    }
}

/// The events of one session: its identifier, the timestamps of its first and
/// last events in log order, and how many events it holds.
#[derive(Debug, Clone, PartialEq, Eq)]
pub struct SessionSpan {
    pub session_id: String,
    pub start: Timestamp,
    pub end: Timestamp,
    pub count: usize,
}

/// A span as plain values: identifier, start, end, count.
pub type SpanView = (Seq<char>, Timestamp, Timestamp, nat);

pub open spec fn span_view(s: SessionSpan) -> SpanView {
    (s.session_id@, s.start, s.end, s.count as nat)
}

/// The first index at or after `i` of a span with identifier `id`, or -1.
pub open spec fn find_span(g: Seq<SpanView>, id: Seq<char>, i: int) -> int
    decreases g.len() - i,
{
    if i < 0 || i >= g.len() {
        -1
    } else if g[i].0 == id {
        i
    } else {
        find_span(g, id, i + 1)
    }
}

/// The spans after one more event is read.
pub open spec fn add_to_spans(g: Seq<SpanView>, e: Event) -> Seq<SpanView> {
    match e.session_id {
        None => g,
        Some(id) => {
            let k = find_span(g, id@, 0);
            if k >= 0 {
                g.update(k, (id@, g[k].1, e.timestamp, g[k].3 + 1))
            } else {
                g.push((id@, e.timestamp, e.timestamp, 1))
            }
        },
    }
}

/// The sessions of a log, in the order their first events appear.
pub open spec fn spans_of(s: Seq<Event>) -> Seq<SpanView>
    decreases s.len(),
{
    if s.len() == 0 {
        Seq::empty()
    } else {
        add_to_spans(spans_of(s.drop_last()), s.last())
    }
}

/// How many events of `s` carry a session identifier.
pub open spec fn with_session_count(s: Seq<Event>) -> nat
    decreases s.len(),
{
    if s.len() == 0 {
        0
    } else {
        with_session_count(s.drop_last()) + if s.last().session_id is Some {
            1nat
        } else {
            0nat
        }
    }
}

/// The total of the counts of `g`.
pub open spec fn total_count(g: Seq<SpanView>) -> nat
    decreases g.len(),
{
    if g.len() == 0 {
        0
    } else {
        total_count(g.drop_last()) + g.last().3
    }
}

proof fn lemma_find_span(g: Seq<SpanView>, id: Seq<char>, i: int)
    requires
        0 <= i,
    ensures
        -1 <= find_span(g, id, i) < g.len(),
        find_span(g, id, i) >= 0 ==> find_span(g, id, i) >= i && g[find_span(g, id, i)].0 == id,
        find_span(g, id, i) < 0 ==> forall|j: int| i <= j < g.len() ==> g[j].0 != id,
    decreases g.len() - i,
{
    if i < g.len() && g[i].0 != id {
        lemma_find_span(g, id, i + 1);
    }
}

proof fn lemma_total_update(g: Seq<SpanView>, k: int, v: SpanView)
    requires
        0 <= k < g.len(),
    ensures
        total_count(g.update(k, v)) + g[k].3 == total_count(g) + v.3,
    decreases g.len(),
{
    let u = g.update(k, v);
    if k == g.len() - 1 {
        assert(u.drop_last() =~= g.drop_last());
    } else {
        lemma_total_update(g.drop_last(), k, v);
        assert(u.drop_last() =~= g.drop_last().update(k, v));
    }
}

/// Every event that carries a session identifier is counted in exactly one
/// session, and no other event is counted.
pub proof fn lemma_spans_count_session_events(s: Seq<Event>)
    ensures
        total_count(spans_of(s)) == with_session_count(s),
    decreases s.len(),
{
    if s.len() > 0 {
        lemma_spans_count_session_events(s.drop_last());
        let g = spans_of(s.drop_last());
        let e = s.last();
        if let Some(id) = e.session_id {
            lemma_find_span(g, id@, 0);
            let k = find_span(g, id@, 0);
            if k >= 0 {
                lemma_total_update(g, k, (id@, g[k].1, e.timestamp, g[k].3 + 1));
            } else {
                assert(g.push((id@, e.timestamp, e.timestamp, 1)).drop_last() =~= g);
            }
        }
    }
}

/// The timestamps, in log order, of the events of `s` that carry a session
/// identifier.
pub open spec fn session_stamps(s: Seq<Event>) -> Seq<Timestamp>
    decreases s.len(),
{
    if s.len() == 0 {
        Seq::empty()
    } else if s.last().session_id is Some {
        session_stamps(s.drop_last()).push(s.last().timestamp)
    } else {
        session_stamps(s.drop_last())
    }
}

/// A log whose events all belong to session `x` or to none forms at most one
/// session: `x`, from its first to its last event, counting exactly those events.
/// Events without an identifier appear in no session.
pub proof fn lemma_single_session(s: Seq<Event>, x: Seq<char>)
    requires
        forall|i: int|
            0 <= i < s.len() ==> match (#[trigger] s[i]).session_id {
                Some(id) => id@ == x,
                None => true,
            },
    ensures
        spans_of(s) == if session_stamps(s).len() == 0 {
            Seq::<SpanView>::empty()
        } else {
            seq![
                (
                    x,
                    session_stamps(s)[0],
                    session_stamps(s).last(),
                    session_stamps(s).len(),
                ),
            ]
        },
    decreases s.len(),
{
    if s.len() > 0 {
        let p = s.drop_last();
        assert forall|i: int|
            0 <= i < p.len() implies match (#[trigger] p[i]).session_id {
            Some(id) => id@ == x,
            None => true,
        } by {
            assert(p[i] == s[i]);
        }
        lemma_single_session(p, x);
        let g = spans_of(p);
        let e = s.last();
        assert(e == s[s.len() - 1]);
        if let Some(id) = e.session_id {
            let st = session_stamps(p);
            let st2 = st.push(e.timestamp);
            if st.len() == 0 {
                assert(find_span(g, id@, 0) == -1);
                assert(g.push((id@, e.timestamp, e.timestamp, 1)) =~= seq![
                    (x, st2[0], st2.last(), st2.len()),
                ]);
            } else {
                assert(find_span(g, id@, 0) == 0);
                assert(g.update(0, (id@, g[0].1, e.timestamp, g[0].3 + 1)) =~= seq![
                    (x, st2[0], st2.last(), st2.len()),
                ]);
            }
        }
    }
}

/// Counts never exceed the number of events read, and are at least one.
proof fn lemma_span_counts(s: Seq<Event>)
    ensures
        spans_of(s).len() <= s.len(),
        forall|j: int| 0 <= j < spans_of(s).len() ==> 1 <= #[trigger] spans_of(s)[j].3 <= s.len(),
    decreases s.len(),
{
    if s.len() > 0 {
        lemma_span_counts(s.drop_last());
        let g = spans_of(s.drop_last());
        if let Some(id) = s.last().session_id {
            lemma_find_span(g, id@, 0);
        }
    }
}

/// Groups events by session identifier, in the order each session first appears;
/// events without one are left out. The input is taken in log order.
pub fn list_sessions(events: &Vec<Event>) -> (r: Vec<SessionSpan>)
    ensures
        r@.map_values(|x: SessionSpan| span_view(x)) == spans_of(events@),
{
    let mut r: Vec<SessionSpan> = Vec::new();
    let mut i: usize = 0;
    while i < events.len()
        invariant
            i <= events@.len(),
            r@.map_values(|x: SessionSpan| span_view(x)) == spans_of(events@.subrange(0, i as int)),
        decreases events@.len() - i,
    {
        let ghost g = r@.map_values(|x: SessionSpan| span_view(x));
        let ghost pre = events@.subrange(0, (i + 1) as int);
        assert(pre.drop_last() =~= events@.subrange(0, i as int));
        proof {
            lemma_span_counts(pre);
        }
        let e = &events[i];
        match &e.session_id {
            None => {},
            Some(id) => {
                let mut k: usize = 0;
                while k < r.len() && r[k].session_id != *id
                    invariant
                        k <= r@.len(),
                        g == r@.map_values(|x: SessionSpan| span_view(x)),
                        find_span(g, id@, 0) == find_span(g, id@, k as int),
                    decreases r@.len() - k,
                {
                    k = k + 1;
                }
                if k < r.len() {
                    proof {
                        lemma_span_counts(events@.subrange(0, i as int));
                    }
                    let c = r[k].count + 1;
                    r[k].end = e.timestamp;
                    r[k].count = c;
                    assert(r@.map_values(|x: SessionSpan| span_view(x)) =~= g.update(
                        k as int,
                        (id@, g[k as int].1, e.timestamp, g[k as int].3 + 1),
                    ));
                } else {
                    r.push(
                        SessionSpan {
                            session_id: id.clone(),
                            start: e.timestamp,
                            end: e.timestamp,
                            count: 1,
                        },
                    );
                    assert(r@.map_values(|x: SessionSpan| span_view(x)) =~= g.push(
                        (id@, e.timestamp, e.timestamp, 1),
                    ));
                }
            },
        }
        i = i + 1;
    }
    assert(events@.subrange(0, i as int) =~= events@);
    r
}

impl SessionSpan {
    /// The time from the first to the last event, in milliseconds.
    pub fn duration_ms(&self) -> (r: i128)
        ensures
            r == self.end - self.start,
    {
        (self.end as i128) - (self.start as i128)
    }

    /// The time from the first to the last event in whole minutes, rounded
    /// toward zero.
    pub fn duration_minutes(&self) -> (r: i128)
        ensures
            r == if self.end >= self.start {
                (self.end - self.start) / 60_000
            } else {
                -((self.start - self.end) / 60_000)
            },
    {
        if self.end >= self.start {
            ((self.end as i128) - (self.start as i128)) / 60_000
        } else {
            -(((self.start as i128) - (self.end as i128)) / 60_000)
        }
    }
}

} // verus!
