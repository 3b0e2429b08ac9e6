//! What a report holds, and the aggregator run against the in-memory store.
//!
//! [`report_of`] says what the response to a request is, given what the
//! store holds. [`machine_follows_store`] shows that the state machine, fed
//! with the store's answers, arrives at exactly that response;
//! [`streams_report`] is that run, carried out.

use crate::aggregator::{
    at_entity, at_metric, begin, next_registered, next_registered_is_first, Action, ActionView,
    Event, EventView, Pending, ReportState, ReportStateView, Step, StepView,
};
use crate::metric::MetricKind;
use crate::query::{ReportRequest, ReportRequestView, StreamsReportRequestQuery};
use crate::series::{
    series_of, StreamsReportResponseBody, StreamsReportResponseBodyView, StreamsReportView,
};
use crate::store::{Store, StoreView};
use crate::stream::StreamView;
use crate::time::TimeRange;
use vstd::prelude::*;
use vstd::string::*;

verus! {

/// The lookup of a stream in `store`, as a function of the identifier.
pub open spec fn resolver(store: StoreView) -> spec_fn(Seq<char>) -> Option<StreamView> {
    |id: Seq<char>| store.resolve(id)
}

/// The series that a metric name yields for the stream `id`: the stored rows
/// within `range` when the name is registered, nothing when it is not.
pub open spec fn series_for(store: StoreView, id: Seq<char>, range: TimeRange) -> spec_fn(
    Seq<char>,
) -> Option<StreamsReportView> {
    |name: Seq<char>|
        match MetricKind::registered(name) {
            Some(kind) => Some(series_of(kind, id, store.series(kind, id, range))),
            None => None,
        }
}

/// The series that an identifier contributes to the response: one for each
/// registered name among the requested metrics, in request order, when the
/// identifier resolves; none when it does not.
pub open spec fn reports_for(store: StoreView, request: ReportRequestView) -> spec_fn(
    Seq<char>,
) -> Seq<StreamsReportView> {
    |id: Seq<char>|
        if store.resolve(id) is Some {
            request.metrics.filter_map(series_for(store, id, request.range))
        } else {
            Seq::empty()
        }
}

/// The response to `request` over `store`: the metadata of every identifier
/// that resolves, in request order, and their series, identifier by
/// identifier and metric by metric. Nothing is reordered and nothing is
/// merged: an identifier or a metric name given twice counts twice.
pub open spec fn report_of(
    store: StoreView,
    request: ReportRequestView,
) -> StreamsReportResponseBodyView {
    StreamsReportResponseBodyView {
        streams: request.ids.filter_map(resolver(store)),
        reports: request.ids.flat_map(reports_for(store, request)),
    }
}

impl StoreView {
    /// The store's answer to a question. This store always answers.
    pub open spec fn answer<E>(self, action: ActionView) -> EventView<E> {
        match action {
            ActionView::Resolve { id } => EventView::Entity(self.resolve(id)),
            ActionView::Fetch { kind, id, range } => EventView::Series(
                self.series(kind, id, range),
            ),
        }
    }
}

/// What a state has gathered is what `store` holds for the part of the
/// request that lies behind it.
pub open spec fn tracks(store: StoreView, state: ReportStateView) -> bool {
    let request = state.request;
    let behind = request.ids.take(state.at);
    match state.pending {
        Pending::Entity => {
            &&& state.streams == behind.filter_map(resolver(store))
            &&& state.reports == behind.flat_map(reports_for(store, request))
        },
        Pending::Series { metric, kind } => {
            let id = request.ids[state.at];
            &&& store.resolve(id) is Some
            &&& state.streams == request.ids.take(state.at + 1).filter_map(resolver(store))
            &&& state.reports == behind.flat_map(reports_for(store, request))
                + request.metrics.take(metric).filter_map(series_for(store, id, request.range))
        },
    }
}

/// A step of the machine agrees with `store` on `request`: a state on the
/// way tracks the store, and the outcome at the end is the report.
pub open spec fn follows<E>(
    store: StoreView,
    request: ReportRequestView,
    step: StepView<E>,
) -> bool {
    match step {
        StepView::Ask { state } => state.request == request && state.wf() && tracks(store, state),
        StepView::Done { outcome } => outcome == Ok::<StreamsReportResponseBodyView, E>(
            report_of(store, request),
        ),
    }
}

proof fn lemma_entity_follows<E>(
    store: StoreView,
    request: ReportRequestView,
    at: int,
    streams: Seq<StreamView>,
    reports: Seq<StreamsReportView>,
)
    requires
        0 <= at <= request.ids.len(),
        streams == request.ids.take(at).filter_map(resolver(store)),
        reports == request.ids.take(at).flat_map(reports_for(store, request)),
    ensures
        follows(store, request, at_entity::<E>(request, at, streams, reports)),
{
    if at >= request.ids.len() {
        assert(request.ids.take(at) =~= request.ids);
    }
}

proof fn lemma_metric_follows<E>(
    store: StoreView,
    request: ReportRequestView,
    at: int,
    from: int,
    streams: Seq<StreamView>,
    reports: Seq<StreamsReportView>,
)
    requires
        0 <= at < request.ids.len(),
        0 <= from <= request.metrics.len(),
        store.resolve(request.ids[at]) is Some,
        streams == request.ids.take(at + 1).filter_map(resolver(store)),
        reports == request.ids.take(at).flat_map(reports_for(store, request))
            + request.metrics.take(from).filter_map(
            series_for(store, request.ids[at], request.range),
        ),
    ensures
        follows(store, request, at_metric::<E>(request, at, from, streams, reports)),
    decreases request.metrics.len() - from,
{
    let id = request.ids[at];
    let yields = series_for(store, id, request.range);
    let metric = next_registered(request.metrics, from);
    next_registered_is_first(request.metrics, from);
    lemma_skipped_yield_nothing(request.metrics, yields, from, metric);
    if metric < request.metrics.len() {
    } else {
        assert(request.metrics.take(metric) =~= request.metrics);
        request.ids.lemma_flat_map_take_append(reports_for(store, request), at);
        lemma_entity_follows::<E>(store, request, at + 1, streams, reports);
    }
}

proof fn lemma_skipped_yield_nothing(
    metrics: Seq<Seq<char>>,
    yields: spec_fn(Seq<char>) -> Option<StreamsReportView>,
    from: int,
    to: int,
)
    requires
        0 <= from <= to <= metrics.len(),
        forall|k: int| from <= k < to ==> yields(#[trigger] metrics[k]) is None,
    ensures
        metrics.take(to).filter_map(yields) == metrics.take(from).filter_map(yields),
    decreases to - from,
{
    if from < to {
        lemma_skipped_yield_nothing(metrics, yields, from, to - 1);
        metrics.lemma_filter_map_take_succ(yields, to - 1);
    }
}

/// Fed with the answers of a store, the machine builds the report of that
/// store: it starts in agreement with the store, every move on the store's
/// answer to the pending question keeps it there, and where the machine is
/// done its outcome is `report_of` the store and the request.
pub proof fn machine_follows_store<E>(
    store: StoreView,
    request: ReportRequestView,
    state: ReportStateView,
)
    requires
        state.wf(),
        tracks(store, state),
    ensures
        follows(store, request, begin::<E>(request)),
        follows(store, state.request, state.step(store.answer::<E>(state.action()))),
{
    lemma_start_follows::<E>(store, request);
    lemma_answer_follows::<E>(store, state);
}

proof fn lemma_answer_follows<E>(store: StoreView, state: ReportStateView)
    requires
        state.wf(),
        tracks(store, state),
    ensures
        follows(store, state.request, state.step(store.answer::<E>(state.action()))),
{
    let request = state.request;
    let at = state.at;
    let id = request.ids[at];
    request.ids.lemma_filter_map_take_succ(resolver(store), at);
    match state.pending {
        Pending::Entity => {
            match store.resolve(id) {
                Some(stream) => {
                    assert(resolver(store)(id) == Some(stream));
                    assert(state.streams.push(stream) =~= state.streams + seq![stream]);
                    assert(request.metrics.take(0) =~= Seq::<Seq<char>>::empty());
                    assert(state.reports + request.metrics.take(0).filter_map(
                        series_for(store, id, request.range),
                    ) =~= state.reports);
                    lemma_metric_follows::<E>(
                        store,
                        request,
                        at,
                        0,
                        state.streams.push(stream),
                        state.reports,
                    );
                },
                None => {
                    request.ids.lemma_flat_map_take_append(reports_for(store, request), at);
                    assert(state.reports + Seq::<StreamsReportView>::empty() =~= state.reports);
                    lemma_entity_follows::<E>(
                        store,
                        request,
                        at + 1,
                        state.streams,
                        state.reports,
                    );
                },
            }
        },
        Pending::Series { metric, kind } => {
            let yields = series_for(store, id, request.range);
            let rows = store.series(kind, id, request.range);
            let behind = request.ids.take(at).flat_map(reports_for(store, request));
            let gathered = request.metrics.take(metric).filter_map(yields);
            request.metrics.lemma_filter_map_take_succ(yields, metric);
            assert(state.reports.push(series_of(kind, id, rows)) =~= behind + (gathered + seq![
                series_of(kind, id, rows),
            ]));
            lemma_metric_follows::<E>(
                store,
                request,
                at,
                metric + 1,
                state.streams,
                state.reports.push(series_of(kind, id, rows)),
            );
        },
    }
}

impl Store {
    /// Answers a question of the aggregator from what the store holds.
    pub fn answer<E>(&self, action: &Action) -> (event: Event<E>)
        ensures
            event@ == self@.answer::<E>(action@),
    {
        match action {
            Action::Resolve { id } => Event::Entity(self.resolve(id.as_str())),
            Action::Fetch { kind, id, range } => Event::Series(
                self.fetch(*kind, id.as_str(), *range),
            ),
        }
    }
}

/// The failure of a store that has none: the in-memory store always answers.
struct Unfailing;

/// Builds the report of `request` over `store` by running the aggregator
/// with the store's answers.
pub fn build_report(request: ReportRequest, store: &Store) -> (body: StreamsReportResponseBody)
    ensures
        body@ == report_of(store@, request@),
{
    let ghost asked = request@;
    let mut step: Step<Unfailing> = ReportState::start(request);
    proof {
        lemma_start_follows::<Unfailing>(store@, asked);
    }
    loop
        invariant
            asked == request@,
            follows(store@, asked, step@),
            step.asks_pending(),
        decreases step@.calls_left(),
    {
        match step {
            Step::Done { outcome } => {
                match outcome {
                    Ok(body) => {
                        return body;
                    },
                    Err(never) => {
                        return vstd::pervasive::unreached();
                    },
                }
            },
            Step::Ask { state, action } => {
                let event = store.answer::<Unfailing>(&action);
                proof {
                    lemma_answer_follows::<Unfailing>(store@, state@);
                    crate::aggregator::machine_makes_progress::<Unfailing>(
                        asked,
                        state@,
                        event@,
                    );
                }
                step = state.step(event);
            },
        }
    }
}

proof fn lemma_start_follows<E>(store: StoreView, request: ReportRequestView)
    ensures
        follows(store, request, begin::<E>(request)),
{
    assert(request.ids.take(0) =~= Seq::<Seq<char>>::empty());
    assert(request.ids.take(0).flat_map(reports_for(store, request)) =~= Seq::<
        StreamsReportView,
    >::empty());
    lemma_entity_follows::<E>(store, request, 0, Seq::empty(), Seq::empty());
}

/// Answers a query over `store`: the two lists are split at their commas and
/// the report of the resulting request is built.
pub fn streams_report(query: &StreamsReportRequestQuery, store: &Store) -> (body:
    StreamsReportResponseBody)
    ensures
        body@ == report_of(store@, query@.request()),
{
    build_report(query.request(), store)
}

} // verus!
