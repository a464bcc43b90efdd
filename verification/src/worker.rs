//! The matching worker: one event in, at most one message out.

use crate::criteria::RankCriteria;
use crate::engine::{evaluates_to, outcome_view, scoring_oracle, Answer, EngineView, MatchingEngine};
use crate::item::{Item, ItemView, MatchedItem, MatchedItemView};
use vstd::prelude::*;

verus! {

/// What the worker is told.
#[derive(Clone, Debug)]
pub enum Event {
    /// A candidate has arrived.
    ItemArrived(Item),
    /// The user has edited the query; this is the new text.
    QueryChanged(String),
    /// No more candidates will arrive.
    UpstreamEnded,
}

/// An event as a plain value.
pub enum EventView {
    ItemArrived(ItemView),
    QueryChanged(Seq<char>),
    UpstreamEnded,
}

impl View for Event {
    type V = EventView;

    open spec fn view(&self) -> EventView {
        match *self {
            Event::ItemArrived(item) => EventView::ItemArrived(item@),
            Event::QueryChanged(query) => EventView::QueryChanged(query@),
            Event::UpstreamEnded => EventView::UpstreamEnded,
        }
    }
}

/// What the worker tells the consumer of the results.
#[derive(Clone, Debug)]
pub enum Emission {
    /// The query has changed: every result sent so far is void.
    ResultsReset,
    /// A candidate matches the current query.
    NewResult(MatchedItem),
}

/// A message of the worker as a plain value.
pub enum EmissionView {
    ResultsReset,
    NewResult(MatchedItemView),
}

impl View for Emission {
    type V = EmissionView;

    open spec fn view(&self) -> EmissionView {
        match *self {
            Emission::ResultsReset => EmissionView::ResultsReset,
            Emission::NewResult(m) => EmissionView::NewResult(m@),
        }
    }
}

/// What the worker holds: the query that is live, if one has been set, and
/// the ranking criteria that every configuration is built with.
pub struct MatcherView {
    pub live: Option<Seq<char>>,
    pub criteria: Seq<RankCriteria>,
}

/// The query that is live after an event: a change of query sets it, and
/// nothing else touches it.
pub open spec fn live_after(live: Option<Seq<char>>, event: EventView) -> Option<Seq<char>> {
    match event {
        EventView::QueryChanged(query) => Some(query),
        _ => live,
    }
}

/// The match that a message announces, if it announces one.
pub open spec fn result_in(reply: Option<EmissionView>) -> Option<MatchedItemView> {
    match reply {
        Some(EmissionView::NewResult(m)) => Some(m),
        _ => None,
    }
}

/// Whether `reply` is what the worker may send for `event` while `live` is
/// the live query. A change of query is answered by a reset. A candidate is
/// matched under the configuration of the live query: a match is announced,
/// and a candidate that is filtered out, or that arrives while no query is
/// live, is passed over in silence. The end of the candidates is answered by
/// nothing.
pub open spec fn replies<F: Fn(&[char], &[char], &[char]) -> Answer>(
    oracle: &F,
    criteria: Seq<RankCriteria>,
    live: Option<Seq<char>>,
    event: EventView,
    reply: Option<EmissionView>,
) -> bool {
    match event {
        EventView::QueryChanged(_) => reply == Some(EmissionView::ResultsReset),
        EventView::UpstreamEnded => reply is None,
        EventView::ItemArrived(item) => match live {
            None => reply is None,
            Some(query) => reply != Some(EmissionView::ResultsReset) && evaluates_to(
                oracle,
                EngineView { query, criteria },
                item,
                result_in(reply),
            ),
        },
    }
}

/// The query that is live when event `k` of `events` is processed, where
/// `start` was live before the first of them.
pub open spec fn live_before(start: Option<Seq<char>>, events: Seq<EventView>, k: int) -> Option<
    Seq<char>,
>
    decreases k,
{
    if k <= 0 {
        start
    } else {
        live_after(live_before(start, events, k - 1), events[k - 1])
    }
}

/// Whether `by_event` holds, event by event, what the worker may send for
/// `events`, processed in order from the state in which `start` is live.
pub open spec fn transcript<F: Fn(&[char], &[char], &[char]) -> Answer>(
    oracle: &F,
    criteria: Seq<RankCriteria>,
    start: Option<Seq<char>>,
    events: Seq<EventView>,
    by_event: Seq<Option<EmissionView>>,
) -> bool {
    &&& by_event.len() == events.len()
    &&& forall|k: int|
        0 <= k < events.len() ==> replies(
            oracle,
            criteria,
            live_before(start, events, k),
            events[k],
            #[trigger] by_event[k],
        )
}

/// The messages that are sent, in the order in which they are sent: those of
/// the events that have one, in the order of the events.
pub open spec fn sent(by_event: Seq<Option<EmissionView>>) -> Seq<EmissionView>
    decreases by_event.len(),
{
    if by_event.len() == 0 {
        Seq::empty()
    } else {
        match by_event.last() {
            Some(e) => sent(by_event.drop_last()).push(e),
            None => sent(by_event.drop_last()),
        }
    }
}

/// How many messages are sent before event `k` is processed.
pub open spec fn sent_before(by_event: Seq<Option<EmissionView>>, k: int) -> nat {
    sent(by_event.take(k)).len()
}

/// Whether `outs` is what the worker may send, in order, for `events`.
pub open spec fn runs_to<F: Fn(&[char], &[char], &[char]) -> Answer>(
    oracle: &F,
    criteria: Seq<RankCriteria>,
    start: Option<Seq<char>>,
    events: Seq<EventView>,
    outs: Seq<EmissionView>,
) -> bool {
    exists|by_event: Seq<Option<EmissionView>>|
        #![trigger transcript(oracle, criteria, start, events, by_event)]
        transcript(oracle, criteria, start, events, by_event) && outs == sent(by_event)
}

/// Events as plain values.
pub open spec fn events_view(events: Seq<Event>) -> Seq<EventView> {
    events.map_values(|e: Event| e@)
}

/// Messages as plain values.
pub open spec fn emissions_view(outs: Seq<Emission>) -> Seq<EmissionView> {
    outs.map_values(|e: Emission| e@)
}

/// A message of the worker, if there is one, as a plain value.
pub open spec fn reply_view(reply: Option<Emission>) -> Option<EmissionView> {
    match reply {
        Some(e) => Some(e@),
        None => None,
    }
}

/// The matching worker. It owns the query and the configuration built for
/// it; nothing else reads or changes them.
pub struct Matcher<'a> {
    query: String,
    engine: Option<MatchingEngine<'a>>,
    rank_criterion: &'a [RankCriteria],
}

impl<'a> View for Matcher<'a> {
    type V = MatcherView;

    closed spec fn view(&self) -> MatcherView {
        MatcherView {
            live: match self.engine {
                Some(_) => Some(self.query@),
                None => None,
            },
            criteria: self.rank_criterion@,
        }
    }
}

impl<'a> Matcher<'a> {
    #[verifier::type_invariant]
    closed spec fn inv(self) -> bool {
        match self.engine {
            Some(engine) => engine@ == (EngineView {
                query: self.query@,
                criteria: self.rank_criterion@,
            }),
            None => self.query@ == Seq::<char>::empty(),
        }
    }

    /// A worker with no live query, which will rank by `rank_criterion`.
    pub fn new(rank_criterion: &'a [RankCriteria]) -> (r: Self)
        ensures
            r@ == (MatcherView { live: None, criteria: rank_criterion@ }),
    {
        Matcher { query: String::new(), engine: None, rank_criterion }
    }

    /// Processes one event to its end and gives the message to send, if any.
    pub fn handle<F: Fn(&[char], &[char], &[char]) -> Answer>(
        &mut self,
        event: Event,
        oracle: &F,
    ) -> (reply: Option<Emission>)
        requires
            scoring_oracle(oracle),
        ensures
            final(self)@.criteria == old(self)@.criteria,
            final(self)@.live == live_after(old(self)@.live, event@),
            replies(oracle, old(self)@.criteria, old(self)@.live, event@, reply_view(reply)),
    {
        proof {
            use_type_invariant(&*self);
        }
        match event {
            Event::ItemArrived(item) => {
                match &self.engine {
                    None => None,
                    Some(engine) => {
                        match engine.match_item(item, oracle) {
                            Some(matched) => Some(Emission::NewResult(matched)),
                            None => None,
                        }
                    },
                }
            },
            Event::UpstreamEnded => None,
            Event::QueryChanged(query) => {
                let engine = MatchingEngine::builder(query.as_str()).rank(
                    self.rank_criterion,
                ).build();
                *self = Matcher { query, engine: Some(engine), rank_criterion: self.rank_criterion };
                Some(Emission::ResultsReset)
            },
        }
    }

    /// Processes `events` in order, each to its end before the next, and
    /// gives the messages to send, in order.
    pub fn run<F: Fn(&[char], &[char], &[char]) -> Answer>(
        &mut self,
        events: Vec<Event>,
        oracle: &F,
    ) -> (outs: Vec<Emission>)
        requires
            scoring_oracle(oracle),
        ensures
            final(self)@.criteria == old(self)@.criteria,
            final(self)@.live == live_before(
                old(self)@.live,
                events_view(events@),
                events@.len() as int,
            ),
            runs_to(
                oracle,
                old(self)@.criteria,
                old(self)@.live,
                events_view(events@),
                emissions_view(outs@),
            ),
    {
        let mut outs: Vec<Emission> = Vec::new();
        let ghost start = self@.live;
        let ghost criteria = self@.criteria;
        let ghost all = events_view(events@);
        let ghost mut by_event: Seq<Option<EmissionView>> = Seq::empty();
        for event in it: events
            invariant
                scoring_oracle(oracle),
                it.seq() == events@,
                all == events_view(events@),
                self@.criteria == criteria,
                self@.live == live_before(start, all, it.index() as int),
                by_event.len() == it.index(),
                forall|k: int|
                    0 <= k < it.index() ==> replies(
                        oracle,
                        criteria,
                        live_before(start, all, k),
                        all[k],
                        #[trigger] by_event[k],
                    ),
                emissions_view(outs@) == sent(by_event),
        {
            let ghost k = it.index() as int;
            assert(all[k] == event@);
            let reply = self.handle(event, oracle);
            proof {
                let grown = by_event.push(reply_view(reply));
                assert(grown.drop_last() == by_event);
                by_event = grown;
            }
            match reply {
                Some(e) => {
                    proof {
                        assert(emissions_view(outs@.push(e)) == emissions_view(outs@).push(e@));
                    }
                    outs.push(e);
                },
                None => {},
            }
        }
        proof {
            assert(transcript(oracle, criteria, start, all, by_event));
        }
        outs
    }
}

/// The messages sent for the first `k` events are sent whatever follows:
/// processing one more event sends its message, if it has one, after them.
pub proof fn lemma_sent_grows(by_event: Seq<Option<EmissionView>>, k: int)
    requires
        0 <= k < by_event.len(),
    ensures
        sent(by_event.take(k + 1)) == match by_event[k] {
            Some(e) => sent(by_event.take(k)).push(e),
            None => sent(by_event.take(k)),
        },
        sent_before(by_event, k) <= sent_before(by_event, k + 1),
{
    assert(by_event.take(k + 1).drop_last() == by_event.take(k));
}

/// Messages leave in the order of their events: a message for event `k` is
/// sent before everything that is sent for a later event `j`.
pub proof fn lemma_sent_in_order(by_event: Seq<Option<EmissionView>>, k: int, j: int)
    requires
        0 <= k < j <= by_event.len(),
        by_event[k] is Some,
    ensures
        sent_before(by_event, k) < sent_before(by_event, j),
    decreases j - k,
{
    lemma_sent_grows(by_event, k);
    if k + 1 < j {
        lemma_sent_grows(by_event, j - 1);
        lemma_sent_in_order(by_event, k, j - 1);
    }
}

/// The message for event `k` stands in the sequence of the messages sent, at
/// the place that the count of the messages before it gives.
pub proof fn lemma_sent_position(by_event: Seq<Option<EmissionView>>, k: int)
    requires
        0 <= k < by_event.len(),
        by_event[k] is Some,
    ensures
        sent_before(by_event, k) < sent(by_event).len(),
        sent(by_event)[sent_before(by_event, k) as int] == by_event[k]->0,
    decreases by_event.len() - k,
{
    let n = by_event.len() as int;
    assert(by_event.take(n) == by_event);
    if k == n - 1 {
        lemma_sent_grows(by_event, k);
    } else {
        let shorter = by_event.drop_last();
        assert(shorter.take(k) == by_event.take(k));
        lemma_sent_position(shorter, k);
    }
}

/// The event for which message `p` is sent.
pub open spec fn origin(by_event: Seq<Option<EmissionView>>, p: int) -> int
    decreases by_event.len(),
{
    if by_event.len() == 0 {
        0
    } else if p < sent(by_event.drop_last()).len() {
        origin(by_event.drop_last(), p)
    } else {
        by_event.len() - 1
    }
}

/// Every message that is sent is the message of one event, its origin.
pub proof fn lemma_origin(by_event: Seq<Option<EmissionView>>, p: int)
    requires
        0 <= p < sent(by_event).len(),
    ensures
        0 <= origin(by_event, p) < by_event.len(),
        by_event[origin(by_event, p)] == Some(sent(by_event)[p]),
        sent_before(by_event, origin(by_event, p)) == p,
    decreases by_event.len(),
{
    let n = by_event.len() as int;
    let shorter = by_event.drop_last();
    if p < sent(shorter).len() {
        lemma_origin(shorter, p);
        let k = origin(shorter, p);
        assert(shorter.take(k) == by_event.take(k));
    } else {
        assert(by_event.take(n - 1) == shorter);
    }
}

/// The live query is the one of the latest change of query: after a change
/// at event `k`, and until the next change, the query set at `k` is live.
pub proof fn lemma_live_query(start: Option<Seq<char>>, events: Seq<EventView>, k: int, j: int)
    requires
        0 <= k < j <= events.len(),
        events[k] is QueryChanged,
        forall|i: int| k < i < j ==> !(#[trigger] events[i] is QueryChanged),
    ensures
        live_before(start, events, j) == Some(events[k]->QueryChanged_0),
    decreases j - k,
{
    if k + 1 < j {
        lemma_live_query(start, events, k, j - 1);
        assert(!(events[j - 1] is QueryChanged));
    }
}

/// Before the first change of query the live query is the one the worker
/// started with.
pub proof fn lemma_live_query_at_start(start: Option<Seq<char>>, events: Seq<EventView>, j: int)
    requires
        0 <= j <= events.len(),
        forall|i: int| 0 <= i < j ==> !(#[trigger] events[i] is QueryChanged),
    ensures
        live_before(start, events, j) == start,
    decreases j,
{
    if 0 < j {
        lemma_live_query_at_start(start, events, j - 1);
        assert(!(events[j - 1] is QueryChanged));
    }
}

/// The latest change of query before event `j`, or -1 where there is none.
pub open spec fn latest_change(events: Seq<EventView>, j: int) -> int
    decreases j,
{
    if j <= 0 {
        -1
    } else if events[j - 1] is QueryChanged {
        j - 1
    } else {
        latest_change(events, j - 1)
    }
}

/// The latest change of query before event `j` is a change of query, no
/// change lies between it and `j`, and the query it set is the live one at
/// `j`; where there is none, the query the worker started with is live.
pub proof fn lemma_latest_change(start: Option<Seq<char>>, events: Seq<EventView>, j: int)
    requires
        0 <= j <= events.len(),
    ensures
        -1 <= latest_change(events, j) < j,
        forall|i: int| latest_change(events, j) < i < j ==> !(#[trigger] events[i] is QueryChanged),
        latest_change(events, j) >= 0 ==> events[latest_change(events, j)] is QueryChanged
            && live_before(start, events, j) == Some(
            events[latest_change(events, j)]->QueryChanged_0,
        ),
        latest_change(events, j) == -1 ==> live_before(start, events, j) == start,
    decreases j,
{
    if j > 0 {
        lemma_latest_change(start, events, j - 1);
    }
}

/// Reset before rebuild: the reset for a change of query at event `k` is
/// sent, and it is sent before every message of a later event `j`; the
/// results under the configuration built at `k` are among these, because
/// that configuration is live only after `k`.
pub proof fn lemma_reset_precedes_results<F: Fn(&[char], &[char], &[char]) -> Answer>(
    oracle: &F,
    criteria: Seq<RankCriteria>,
    start: Option<Seq<char>>,
    events: Seq<EventView>,
    by_event: Seq<Option<EmissionView>>,
    k: int,
    j: int,
)
    requires
        transcript(oracle, criteria, start, events, by_event),
        0 <= k < j < events.len(),
        events[k] is QueryChanged,
        by_event[j] is Some,
    ensures
        by_event[k] == Some(EmissionView::ResultsReset),
        sent_before(by_event, k) < sent_before(by_event, j) < sent(by_event).len(),
        sent(by_event)[sent_before(by_event, k) as int] == EmissionView::ResultsReset,
        sent(by_event)[sent_before(by_event, j) as int] == by_event[j]->0,
{
    assert(replies(oracle, criteria, live_before(start, events, k), events[k], by_event[k]));
    lemma_sent_in_order(by_event, k, j);
    lemma_sent_position(by_event, k);
    lemma_sent_position(by_event, j);
}

/// No result of a replaced configuration: a result that is sent for event `j`
/// is an outcome of matching the candidate of that event under the
/// configuration of the query that is live at `j`.
pub proof fn lemma_result_under_live_query<F: Fn(&[char], &[char], &[char]) -> Answer>(
    oracle: &F,
    criteria: Seq<RankCriteria>,
    start: Option<Seq<char>>,
    events: Seq<EventView>,
    by_event: Seq<Option<EmissionView>>,
    j: int,
)
    requires
        transcript(oracle, criteria, start, events, by_event),
        0 <= j < events.len(),
        by_event[j] is Some,
        by_event[j]->0 is NewResult,
    ensures
        events[j] is ItemArrived,
        live_before(start, events, j) is Some,
        evaluates_to(
            oracle,
            EngineView { query: live_before(start, events, j)->0, criteria },
            events[j]->ItemArrived_0,
            Some(by_event[j]->0->NewResult_0),
        ),
{
    assert(replies(oracle, criteria, live_before(start, events, j), events[j], by_event[j]));
}

/// No result across queries: between the reset for a change of query at
/// event `k` and the next change, every result that is sent was computed
/// under the configuration of the query set at `k`, and its message follows
/// that reset.
pub proof fn lemma_no_stale_result<F: Fn(&[char], &[char], &[char]) -> Answer>(
    oracle: &F,
    criteria: Seq<RankCriteria>,
    start: Option<Seq<char>>,
    events: Seq<EventView>,
    by_event: Seq<Option<EmissionView>>,
    k: int,
    j: int,
)
    requires
        transcript(oracle, criteria, start, events, by_event),
        0 <= k < j < events.len(),
        events[k] is QueryChanged,
        forall|i: int| k < i < j ==> !(#[trigger] events[i] is QueryChanged),
        by_event[j] is Some,
        by_event[j]->0 is NewResult,
    ensures
        events[j] is ItemArrived,
        evaluates_to(
            oracle,
            EngineView { query: events[k]->QueryChanged_0, criteria },
            events[j]->ItemArrived_0,
            Some(by_event[j]->0->NewResult_0),
        ),
        sent(by_event)[sent_before(by_event, k) as int] == EmissionView::ResultsReset,
        sent_before(by_event, k) < sent_before(by_event, j),
{
    lemma_live_query(start, events, k, j);
    lemma_result_under_live_query(oracle, criteria, start, events, by_event, j);
    lemma_reset_precedes_results(oracle, criteria, start, events, by_event, k, j);
}

/// No result across queries, as the consumer sees it: a result that is sent
/// after a reset was computed under the configuration of a query that was
/// set by the change which that reset answers, or by a later one, and
/// never under a configuration that the reset replaced.
pub proof fn lemma_result_after_reset_is_fresh<F: Fn(&[char], &[char], &[char]) -> Answer>(
    oracle: &F,
    criteria: Seq<RankCriteria>,
    start: Option<Seq<char>>,
    events: Seq<EventView>,
    by_event: Seq<Option<EmissionView>>,
    r: int,
    p: int,
)
    requires
        transcript(oracle, criteria, start, events, by_event),
        0 <= r < p < sent(by_event).len(),
        sent(by_event)[r] is ResultsReset,
        sent(by_event)[p] is NewResult,
    ensures
        0 <= origin(by_event, r) <= latest_change(events, origin(by_event, p)) < origin(
            by_event,
            p,
        ) < events.len(),
        events[origin(by_event, r)] is QueryChanged,
        events[latest_change(events, origin(by_event, p))] is QueryChanged,
        events[origin(by_event, p)] is ItemArrived,
        evaluates_to(
            oracle,
            EngineView {
                query: events[latest_change(events, origin(by_event, p))]->QueryChanged_0,
                criteria,
            },
            events[origin(by_event, p)]->ItemArrived_0,
            Some(sent(by_event)[p]->NewResult_0),
        ),
{
    let k = origin(by_event, r);
    let j = origin(by_event, p);
    lemma_origin(by_event, r);
    lemma_origin(by_event, p);
    assert(replies(oracle, criteria, live_before(start, events, k), events[k], by_event[k]));
    assert(replies(oracle, criteria, live_before(start, events, j), events[j], by_event[j]));
    if j < k {
        lemma_sent_in_order(by_event, j, k);
    }
    lemma_latest_change(start, events, j);
    lemma_result_under_live_query(oracle, criteria, start, events, by_event, j);
}

} // verus!
