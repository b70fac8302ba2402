//! The in-memory event store behind `/api/ingest` and `/api/logs`: a
//! window over the most recent events, queried newest first.

use vstd::prelude::*;

use crate::schema::{level_label, opt_str_chars, LogEvent, LogEventView};
use crate::text::{contains, contains_spec, eq_ignore_ascii_case, eq_ignore_ascii_case_spec};

verus! {

/// Most events the store holds; pushing beyond it drops the oldest.
pub const MAX_EVENTS: usize = 10000;

/// Whether an event passes the filters of a query: its level's text form
/// equals `level` without regard to ASCII case, its service contains
/// `service`, and its message contains `search`; an absent filter passes
/// every event.
pub open spec fn matches_query(
    e: LogEventView,
    level: Option<Seq<char>>,
    service: Option<Seq<char>>,
    search: Option<Seq<char>>,
) -> bool {
    &&& match level {
        Some(l) => eq_ignore_ascii_case_spec(level_label(e.level), l),
        None => true,
    }
    &&& match service {
        Some(s) => contains_spec(e.service, s),
        None => true,
    }
    &&& match search {
        Some(q) => contains_spec(e.msg, q),
        None => true,
    }
}

/// The events a query returns: newest first, those that pass its filters,
/// at most `limit` of them.
pub open spec fn query_spec(
    events: Seq<LogEventView>,
    level: Option<Seq<char>>,
    service: Option<Seq<char>>,
    search: Option<Seq<char>>,
    limit: nat,
) -> Seq<LogEventView> {
    let hits = events.reverse().filter(|e: LogEventView| matches_query(e, level, service, search));
    if hits.len() <= limit {
        hits
    } else {
        hits.take(limit as int)
    }
}

/// The store's events after one push: the new event goes last, and the
/// oldest leaves when the store is full.
pub open spec fn push_spec(events: Seq<LogEventView>, e: LogEventView) -> Seq<LogEventView> {
    if events.len() >= MAX_EVENTS {
        events.drop_first().push(e)
    } else {
        events.push(e)
    }
}

/// The store's events after pushing each of `es` in order.
pub open spec fn push_all(start: Seq<LogEventView>, es: Seq<LogEventView>) -> Seq<LogEventView>
    decreases es.len(),
{
    if es.len() == 0 {
        start
    } else {
        push_spec(push_all(start, es.drop_last()), es.last())
    }
}

/// Filtering with a predicate that holds of every element keeps the
/// sequence as it is.
proof fn lemma_filter_all(s: Seq<LogEventView>, pred: spec_fn(LogEventView) -> bool)
    requires
        forall|i: int| 0 <= i < s.len() ==> pred(#[trigger] s[i]),
    ensures
        s.filter(pred) == s,
    decreases s.len(),
{
    reveal(Seq::filter);
    if s.len() > 0 {
        lemma_filter_all(s.drop_last(), pred);
        assert(s.drop_last().push(s.last()) =~= s);
    }
}

/// Filtering a sequence whose first element passes the predicate yields
/// that element first.
proof fn lemma_filter_head(s: Seq<LogEventView>, pred: spec_fn(LogEventView) -> bool)
    requires
        s.len() > 0,
        pred(s[0]),
    ensures
        s.filter(pred).len() > 0,
        s.filter(pred)[0] == s[0],
{
    reveal(Seq::filter);
    let head = seq![s[0]];
    assert(s =~= head + s.skip(1));
    Seq::filter_distributes_over_add(head, s.skip(1), pred);
    assert(head.drop_last() =~= Seq::<LogEventView>::empty());
    assert(head.filter(pred) =~= head);
}

/// The window law of the store: pushing any events, in order, into an
/// empty store leaves exactly the latest `MAX_EVENTS` of them (all of
/// them when there are no more), oldest first.
pub proof fn lemma_store_keeps_latest(es: Seq<LogEventView>)
    ensures
        push_all(Seq::empty(), es) == es.subrange(
            if es.len() <= MAX_EVENTS { 0 } else { es.len() - MAX_EVENTS },
            es.len() as int,
        ),
    decreases es.len(),
{
    if es.len() == 0 {
        assert(es.subrange(0, 0) =~= Seq::<LogEventView>::empty());
    } else {
        let dl = es.drop_last();
        lemma_store_keeps_latest(dl);
        let a: int = if dl.len() <= MAX_EVENTS { 0 } else { dl.len() - MAX_EVENTS };
        let p = dl.subrange(a, dl.len() as int);
        if p.len() >= MAX_EVENTS {
            assert(p.drop_first().push(es.last()) =~= es.subrange(a + 1, es.len() as int));
        } else {
            assert(p.push(es.last()) =~= es.subrange(0, es.len() as int));
        }
    }
}

/// Read after write: an event just pushed that passes a query's filters
/// is the first event the query returns, whenever the query asks for at
/// least one event.
pub proof fn lemma_query_sees_latest_push(
    events: Seq<LogEventView>,
    e: LogEventView,
    level: Option<Seq<char>>,
    service: Option<Seq<char>>,
    search: Option<Seq<char>>,
    limit: nat,
)
    requires
        matches_query(e, level, service, search),
        limit >= 1,
    ensures
        query_spec(push_spec(events, e), level, service, search, limit).len() >= 1,
        query_spec(push_spec(events, e), level, service, search, limit)[0] == e,
{
    let after = push_spec(events, e);
    let pred = |x: LogEventView| matches_query(x, level, service, search);
    assert(after.reverse()[0] == e);
    lemma_filter_head(after.reverse(), pred);
}

/// A query with no filters whose limit covers the store returns every
/// stored event, newest first.
pub proof fn lemma_unfiltered_query_returns_all(events: Seq<LogEventView>, limit: nat)
    requires
        events.len() <= limit,
    ensures
        query_spec(events, None, None, None, limit) == events.reverse(),
{
    let pred = |x: LogEventView| matches_query(x, None, None, None);
    lemma_filter_all(events.reverse(), pred);
}

/// The events of `events` that pass `pred`, newest first: the newest
/// event leads when it passes, followed by those of the older ones.
pub open spec fn newest_matching(events: Seq<LogEventView>, pred: spec_fn(LogEventView) -> bool) -> Seq<LogEventView>
    decreases events.len(),
{
    if events.len() == 0 {
        Seq::empty()
    } else if pred(events.last()) {
        seq![events.last()] + newest_matching(events.drop_last(), pred)
    } else {
        newest_matching(events.drop_last(), pred)
    }
}

/// Filtering the newest-first order is collecting the passing events
/// newest first.
proof fn lemma_reverse_filter(s: Seq<LogEventView>, pred: spec_fn(LogEventView) -> bool)
    ensures
        s.reverse().filter(pred) == newest_matching(s, pred),
    decreases s.len(),
{
    reveal(Seq::filter);
    if s.len() == 0 {
        assert(s.reverse() =~= Seq::<LogEventView>::empty());
    } else {
        let dl = s.drop_last();
        lemma_reverse_filter(dl, pred);
        let head = seq![s.last()];
        assert(s.reverse() =~= head + dl.reverse());
        Seq::filter_distributes_over_add(head, dl.reverse(), pred);
        assert(head.drop_last() =~= Seq::<LogEventView>::empty());
        assert(head.drop_last().filter(pred) =~= Seq::<LogEventView>::empty());
        assert(head.last() == s.last());
        if pred(s.last()) {
            assert(head.filter(pred) =~= head);
        } else {
            assert(head.filter(pred) =~= Seq::<LogEventView>::empty());
            assert(Seq::<LogEventView>::empty() + newest_matching(dl, pred) =~= newest_matching(dl, pred));
        }
    }
}

/// Every event collected newest first passes the predicate and is one of
/// the events.
proof fn lemma_newest_matching_sound(s: Seq<LogEventView>, pred: spec_fn(LogEventView) -> bool)
    ensures
        forall|i: int|
            0 <= i < newest_matching(s, pred).len() ==> pred(#[trigger] newest_matching(s, pred)[i]) && s.contains(
                newest_matching(s, pred)[i],
            ),
    decreases s.len(),
{
    if s.len() > 0 {
        let dl = s.drop_last();
        lemma_newest_matching_sound(dl, pred);
        let nd = newest_matching(dl, pred);
        let n = newest_matching(s, pred);
        assert forall|i: int| 0 <= i < n.len() implies pred(#[trigger] n[i]) && s.contains(n[i]) by {
            if pred(s.last()) {
                if i == 0 {
                    assert(n[0] == s.last());
                    assert(s[s.len() - 1] == s.last());
                } else {
                    assert(n[i] == nd[i - 1]);
                    let j = choose|j: int| 0 <= j < dl.len() && dl[j] == nd[i - 1];
                    assert(s[j] == dl[j]);
                }
            } else {
                let j = choose|j: int| 0 <= j < dl.len() && dl[j] == nd[i];
                assert(s[j] == dl[j]);
            }
        }
    }
}

/// The query law: a query returns the first `limit` of the stored events
/// that pass its filters, taken newest first over the whole store (all
/// of them when fewer pass), so it returns exactly `limit` events
/// whenever at least `limit` stored events pass, each of them a stored
/// event that passes the filters.
pub proof fn lemma_query_takes_newest_matches(
    events: Seq<LogEventView>,
    level: Option<Seq<char>>,
    service: Option<Seq<char>>,
    search: Option<Seq<char>>,
    limit: nat,
)
    ensures
        ({
            let passing = newest_matching(events, |e: LogEventView| matches_query(e, level, service, search));
            let r = query_spec(events, level, service, search, limit);
            &&& r == (if passing.len() <= limit {
                passing
            } else {
                passing.take(limit as int)
            })
            &&& r.len() == (if passing.len() <= limit {
                passing.len()
            } else {
                limit
            })
            &&& passing.len() >= limit ==> r.len() == limit
            &&& forall|i: int|
                0 <= i < r.len() ==> matches_query(#[trigger] r[i], level, service, search) && events.contains(r[i])
        }),
{
    let pred = |e: LogEventView| matches_query(e, level, service, search);
    lemma_reverse_filter(events, pred);
    lemma_newest_matching_sound(events, pred);
    let passing = newest_matching(events, pred);
    let r = query_spec(events, level, service, search, limit);
    assert forall|i: int| 0 <= i < r.len() implies matches_query(#[trigger] r[i], level, service, search) && events.contains(
        r[i],
    ) by {
        assert(r[i] == passing[i]);
        assert(pred(passing[i]));
    }
}

/// The level law: a level filter passes an event exactly when the
/// event's own level's text equals it without regard to ASCII case; and
/// the filter spelled as a level's text passes that level's events and
/// no others.
pub proof fn lemma_level_filter_is_exact(e: LogEventView, l: Seq<char>, a: crate::schema::LogLevel)
    ensures
        matches_query(e, Some(l), None, None) == eq_ignore_ascii_case_spec(level_label(e.level), l),
        matches_query(e, Some(level_label(a)), None, None) == (e.level == a),
{
    crate::schema::lemma_level_labels_distinct(e.level, a);
}

/// The filters combine by conjunction, and an absent filter passes every
/// event; the service and search filters are substring tests on the
/// service and the message.
pub proof fn lemma_filters_conjoin(
    e: LogEventView,
    level: Option<Seq<char>>,
    service: Option<Seq<char>>,
    search: Option<Seq<char>>,
)
    ensures
        matches_query(e, level, service, search) == (matches_query(e, level, None, None) && matches_query(
            e,
            None,
            service,
            None,
        ) && matches_query(e, None, None, search)),
        matches_query(e, None, None, None),
        forall|s: Seq<char>| matches_query(e, None, Some(s), None) == contains_spec(e.service, s),
        forall|q: Seq<char>| matches_query(e, None, None, Some(q)) == contains_spec(e.msg, q),
{
}

/// Whether one event passes the filters of a query.
pub fn event_matches(e: &LogEvent, level: Option<&str>, service: Option<&str>, search: Option<&str>) -> (r: bool)
    ensures
        r == matches_query(e@, opt_str_chars(level), opt_str_chars(service), opt_str_chars(search)),
{
    let level_ok = match level {
        Some(l) => eq_ignore_ascii_case(e.level.label(), l),
        None => true,
    };
    let service_ok = match service {
        Some(s) => contains(e.service.as_str(), s),
        None => true,
    };
    let search_ok = match search {
        Some(q) => contains(e.msg.as_str(), q),
        None => true,
    };
    level_ok && service_ok && search_ok
}

/// The shared application state: the bounded store of ingested events.
pub struct AppState {
    log_store: std::collections::VecDeque<LogEvent>,
}

impl AppState {
    #[verifier::type_invariant]
    spec fn bounded(&self) -> bool {
        self.log_store@.len() <= MAX_EVENTS
    }
}

impl View for AppState {
    type V = Seq<LogEventView>;

    /// The stored events, oldest first.
    closed spec fn view(&self) -> Seq<LogEventView> {
        self.log_store@.map_values(|e: LogEvent| e@)
    }
}

impl AppState {
    /// An empty store.
    pub fn new() -> (s: AppState)
        ensures
            s@ == Seq::<LogEventView>::empty(),
    {
        let s = AppState { log_store: std::collections::VecDeque::with_capacity(MAX_EVENTS) };
        proof {
            assert(s@ =~= Seq::<LogEventView>::empty());
        }
        s
    }

    /// Number of events held.
    pub fn len(&self) -> (n: usize)
        ensures
            n == self@.len(),
            n <= MAX_EVENTS,
    {
        proof {
            use_type_invariant(self);
        }
        self.log_store.len()
    }

    /// Appends an event, first dropping the oldest one when the store is
    /// full.
    pub fn push(&mut self, event: LogEvent)
        ensures
            final(self)@ == push_spec(old(self)@, event@),
            final(self)@.len() <= MAX_EVENTS,
    {
        proof {
            use_type_invariant(&*self);
        }
        let ghost ev = event@;
        let mut store = std::collections::VecDeque::new();
        std::mem::swap(&mut store, &mut self.log_store);
        let ghost before = store@;
        if store.len() >= MAX_EVENTS {
            store.pop_front();
        }
        store.push_back(event);
        proof {
            let old_view = before.map_values(|e: LogEvent| e@);
            let new_view = store@.map_values(|e: LogEvent| e@);
            assert(new_view =~= push_spec(old_view, ev));
        }
        self.log_store = store;
    }

    /// The stored events that pass the filters, newest first, at most
    /// `limit` of them.
    pub fn query(&self, level: Option<&str>, service: Option<&str>, search: Option<&str>, limit: usize) -> (r: Vec<LogEvent>)
        ensures
            r@.map_values(|e: LogEvent| e@) == query_spec(
                self@,
                opt_str_chars(level),
                opt_str_chars(service),
                opt_str_chars(search),
                limit as nat,
            ),
    {
        let n = self.log_store.len();
        let ghost lv = opt_str_chars(level);
        let ghost sv = opt_str_chars(service);
        let ghost qv = opt_str_chars(search);
        let ghost pred = |e: LogEventView| matches_query(e, lv, sv, qv);
        let ghost rev = self@.reverse();
        let mut out: Vec<LogEvent> = Vec::new();
        let mut k: usize = 0;
        proof {
            reveal(Seq::filter);
            assert(rev.take(0) =~= Seq::<LogEventView>::empty());
        }
        while k < n && out.len() < limit
            invariant
                n == self@.len(),
                rev == self@.reverse(),
                pred == (|e: LogEventView| matches_query(e, lv, sv, qv)),
                lv == opt_str_chars(level),
                sv == opt_str_chars(service),
                qv == opt_str_chars(search),
                k <= n,
                out.len() <= limit,
                out@.map_values(|e: LogEvent| e@) == rev.take(k as int).filter(pred),
            decreases n - k,
        {
            let e = &self.log_store[n - 1 - k];
            proof {
                assert(rev[k as int] == e@);
                assert(rev.take(k + 1).drop_last() =~= rev.take(k as int));
                assert(rev.take(k + 1).last() == e@);
                reveal(Seq::filter);
            }
            if event_matches(e, level, service, search) {
                let ghost before = out@;
                out.push(e.duplicate());
                proof {
                    assert(out@.map_values(|e: LogEvent| e@) =~= before.map_values(|e: LogEvent| e@).push(e@));
                }
            }
            k = k + 1;
        }
        proof {
            let hits = rev.filter(pred);
            let got = rev.take(k as int).filter(pred);
            if k == n {
                assert(rev.take(k as int) =~= rev);
            } else {
                assert(rev =~= rev.take(k as int) + rev.skip(k as int));
                Seq::filter_distributes_over_add(rev.take(k as int), rev.skip(k as int), pred);
                assert(hits == got + rev.skip(k as int).filter(pred));
                assert(got.len() == limit);
                assert(hits.take(limit as int) =~= got);
                if hits.len() <= limit {
                    assert(hits =~= got);
                }
            }
        }
        out
    }
}

} // verus!
