//! The report aggregator as a state machine.
//!
//! Building a report alternates between asking the store and deciding what
//! the answer means. The asking is the caller's; the deciding is here. The
//! machine starts from a request and hands out one [`Action`] at a time. The
//! caller performs it and hands back an [`Event`]; the machine answers with
//! the next action, or with the finished outcome.
//!
//! Identifiers are taken in request order. An identifier that the store does
//! not know is passed over. For one that it knows, the metadata is kept and
//! the requested metric names are taken in request order; a name that is not
//! registered is passed over without asking the store. A failure of the store
//! ends the report at once, and nothing gathered so far is handed out.

use crate::metric::MetricKind;
use crate::query::{ReportRequest, ReportRequestView};
use crate::series::{
    report_views, series_of, Row, StreamsReport, StreamsReportResponseBody,
    StreamsReportResponseBodyView, StreamsReportView,
};
use crate::stream::{stream_views, Stream, StreamView};
use crate::time::TimeRange;
use vstd::prelude::*;
use vstd::string::*;

verus! {

/// A question to the store.
#[derive(Clone, Debug, PartialEq, Eq)]
pub enum Action {
    /// Look up the stream that carries `id`.
    Resolve { id: String },
    /// Read the series of `kind` for the stream `id` within `range`.
    Fetch { kind: MetricKind, id: String, range: TimeRange },
}

/// A question with its identifier as a character sequence.
pub enum ActionView {
    Resolve { id: Seq<char> },
    Fetch { kind: MetricKind, id: Seq<char>, range: TimeRange },
}

impl View for Action {
    type V = ActionView;

    open spec fn view(&self) -> ActionView {
        match *self {
            Action::Resolve { id } => ActionView::Resolve { id: id@ },
            Action::Fetch { kind, id, range } => ActionView::Fetch { kind, id: id@, range },
        }
    }
}

/// The store's answer to a question. `E` is whatever the caller's store
/// reports when it fails; the machine never looks into it.
#[derive(Debug)]
pub enum Event<E> {
    /// The stream that was looked up, or `None` when no stream carries the
    /// identifier.
    Entity(Option<Stream>),
    /// The rows that were read.
    Series(Vec<Row>),
    /// The store could not answer.
    Failure(E),
}

/// An answer with its texts as character sequences.
pub enum EventView<E> {
    Entity(Option<StreamView>),
    Series(Seq<Row>),
    Failure(E),
}

impl<E> View for Event<E> {
    type V = EventView<E>;

    open spec fn view(&self) -> EventView<E> {
        match *self {
            Event::Entity(Some(stream)) => EventView::Entity(Some(stream@)),
            Event::Entity(None) => EventView::Entity(None),
            Event::Series(rows) => EventView::Series(rows@),
            Event::Failure(error) => EventView::Failure(error),
        }
    }
}

/// Which answer a state is waiting for.
pub enum Pending {
    /// The stream of the current identifier.
    Entity,
    /// The series of the metric name at index `metric`, registered as `kind`,
    /// for the current identifier.
    Series { metric: int, kind: MetricKind },
}

/// A state of the machine: the request, the index of the identifier in
/// work, the answer awaited, and what was gathered so far.
pub struct ReportStateView {
    pub request: ReportRequestView,
    pub at: int,
    pub pending: Pending,
    pub streams: Seq<StreamView>,
    pub reports: Seq<StreamsReportView>,
}

/// Where the machine stands after a move: at a question, or at the end.
pub enum StepView<E> {
    Ask { state: ReportStateView },
    Done { outcome: Result<StreamsReportResponseBodyView, E> },
}

/// The index of the first registered name in `metrics` at or after `from`,
/// or the length of `metrics` when there is none.
pub open spec fn next_registered(metrics: Seq<Seq<char>>, from: int) -> int
    decreases metrics.len() - from,
{
    if from < 0 || from >= metrics.len() {
        metrics.len() as int
    } else if MetricKind::registered(metrics[from]) is Some {
        from
    } else {
        next_registered(metrics, from + 1)
    }
}

/// The machine turns to the identifier at index `at`: it asks for its stream,
/// or is done when the identifiers are used up.
pub open spec fn at_entity<E>(
    request: ReportRequestView,
    at: int,
    streams: Seq<StreamView>,
    reports: Seq<StreamsReportView>,
) -> StepView<E> {
    if at < request.ids.len() {
        StepView::Ask {
            state: ReportStateView { request, at, pending: Pending::Entity, streams, reports },
        }
    } else {
        StepView::Done { outcome: Ok(StreamsReportResponseBodyView { streams, reports }) }
    }
}

/// The machine turns to the metric names from index `from` on, for the
/// identifier at index `at`: it asks for the series of the first registered
/// one, or turns to the next identifier when none is left.
pub open spec fn at_metric<E>(
    request: ReportRequestView,
    at: int,
    from: int,
    streams: Seq<StreamView>,
    reports: Seq<StreamsReportView>,
) -> StepView<E> {
    let metric = next_registered(request.metrics, from);
    if metric < request.metrics.len() {
        StepView::Ask {
            state: ReportStateView {
                request,
                at,
                pending: Pending::Series {
                    metric,
                    kind: MetricKind::registered(request.metrics[metric])->0,
                },
                streams,
                reports,
            },
        }
    } else {
        at_entity(request, at + 1, streams, reports)
    }
}

/// Where the machine stands before the first answer.
pub open spec fn begin<E>(request: ReportRequestView) -> StepView<E> {
    at_entity(request, 0, Seq::empty(), Seq::empty())
}

impl ReportStateView {
    /// The identifier in work exists, and so does the awaited metric name,
    /// which is registered as the kind that the state holds.
    pub open spec fn wf(self) -> bool {
        &&& 0 <= self.at < self.request.ids.len()
        &&& self.pending matches Pending::Series { metric, kind } ==> {
            &&& 0 <= metric < self.request.metrics.len()
            &&& MetricKind::registered(self.request.metrics[metric]) == Some(kind)
        }
    }

    /// The question that the state waits on.
    pub open spec fn action(self) -> ActionView {
        let id = self.request.ids[self.at];
        match self.pending {
            Pending::Entity => ActionView::Resolve { id },
            Pending::Series { metric, kind } => ActionView::Fetch {
                kind,
                id,
                range: self.request.range,
            },
        }
    }

    /// The move that `event` causes.
    ///
    /// A failure ends the report with that failure. A stream that was found
    /// is kept, and the machine turns to the metric names; a stream that was
    /// not found is passed over. Rows that were read become the series of the
    /// awaited kind for the identifier in work, and the machine turns to the
    /// following metric names. An answer to a question that was not asked
    /// changes nothing: the state asks again.
    pub open spec fn step<E>(self, event: EventView<E>) -> StepView<E> {
        match (event, self.pending) {
            (EventView::Failure(error), _) => StepView::Done { outcome: Err(error) },
            (EventView::Entity(Some(stream)), Pending::Entity) => at_metric(
                self.request,
                self.at,
                0,
                self.streams.push(stream),
                self.reports,
            ),
            (EventView::Entity(None), Pending::Entity) => at_entity(
                self.request,
                self.at + 1,
                self.streams,
                self.reports,
            ),
            (EventView::Series(rows), Pending::Series { metric, kind }) => at_metric(
                self.request,
                self.at,
                metric + 1,
                self.streams,
                self.reports.push(series_of(kind, self.request.ids[self.at], rows)),
            ),
            _ => StepView::Ask { state: self },
        }
    }

    /// A bound on the questions still to come, the pending one included.
    pub open spec fn calls_left(self) -> int {
        let per_entity = self.request.metrics.len() + 1;
        let open = (self.request.ids.len() - self.at) * per_entity;
        match self.pending {
            Pending::Entity => open,
            Pending::Series { metric, kind } => open - (metric + 1),
        }
    }
}

impl<E> StepView<E> {
    /// A bound on the questions still to come.
    pub open spec fn calls_left(self) -> int {
        match self {
            StepView::Ask { state } => state.calls_left(),
            StepView::Done { outcome } => 0,
        }
    }

    /// Where the machine asks, it asks from a well-formed state.
    pub open spec fn wf(self) -> bool {
        self matches StepView::Ask { state } ==> state.wf()
    }
}

impl<E> EventView<E> {
    /// The event answers the question that `state` waits on: a failure
    /// answers any question, a stream a lookup, rows a read.
    pub open spec fn answers(self, state: ReportStateView) -> bool {
        match (self, state.pending) {
            (EventView::Failure(error), _) => true,
            (EventView::Entity(found), Pending::Entity) => true,
            (EventView::Series(rows), Pending::Series { metric, kind }) => true,
            _ => false,
        }
    }
}

proof fn lemma_at_entity<E>(
    request: ReportRequestView,
    at: int,
    streams: Seq<StreamView>,
    reports: Seq<StreamsReportView>,
)
    requires
        0 <= at <= request.ids.len(),
    ensures
        at_entity::<E>(request, at, streams, reports).wf(),
        0 <= at_entity::<E>(request, at, streams, reports).calls_left() <= (request.ids.len() - at)
            * (request.metrics.len() + 1),
{
    let left = request.ids.len() - at;
    let per_entity = request.metrics.len() + 1;
    assert(0 <= left * per_entity) by (nonlinear_arith)
        requires
            0 <= left,
            0 <= per_entity,
    ;
}

proof fn lemma_at_metric<E>(
    request: ReportRequestView,
    at: int,
    from: int,
    streams: Seq<StreamView>,
    reports: Seq<StreamsReportView>,
)
    requires
        0 <= at < request.ids.len(),
        0 <= from <= request.metrics.len(),
    ensures
        at_metric::<E>(request, at, from, streams, reports).wf(),
        0 <= at_metric::<E>(request, at, from, streams, reports).calls_left() <= (
        request.ids.len() - at) * (request.metrics.len() + 1) - (from + 1),
{
    let metric = next_registered(request.metrics, from);
    next_registered_is_first(request.metrics, from);
    let left = request.ids.len() - at;
    let per_entity = request.metrics.len() + 1;
    assert((left - 1) * per_entity == left * per_entity - per_entity) by (nonlinear_arith);
    assert(left * per_entity >= per_entity) by (nonlinear_arith)
        requires
            1 <= left,
            0 <= per_entity,
    ;
    if metric < request.metrics.len() {
    } else {
        lemma_at_entity::<E>(request, at + 1, streams, reports);
    }
}

/// The next registered name lies at or after the start of the search, and
/// every name passed over on the way is unregistered.
pub proof fn next_registered_is_first(metrics: Seq<Seq<char>>, from: int)
    requires
        0 <= from <= metrics.len(),
    ensures
        from <= next_registered(metrics, from) <= metrics.len(),
        next_registered(metrics, from) < metrics.len() ==> MetricKind::registered(
            metrics[next_registered(metrics, from)],
        ) is Some,
        forall|k: int|
            from <= k < next_registered(metrics, from) ==> MetricKind::registered(
                #[trigger] metrics[k],
            ) is None,
    decreases metrics.len() - from,
{
    if from < metrics.len() && MetricKind::registered(metrics[from]) is None {
        next_registered_is_first(metrics, from + 1);
    }
}

/// The machine never asks from a state that is out of bounds: it starts well
/// formed and every move keeps it so.
pub proof fn machine_stays_well_formed<E>(
    request: ReportRequestView,
    state: ReportStateView,
    event: EventView<E>,
)
    requires
        state.wf(),
    ensures
        begin::<E>(request).wf(),
        state.step(event).wf(),
{
    lemma_at_entity::<E>(request, 0, Seq::empty(), Seq::empty());
    lemma_step::<E>(state, event);
}

/// Every answer to the pending question brings the end nearer: the bound on
/// the questions still to come drops with each move, and never below zero.
/// From the start at most one lookup per identifier and one read per
/// identifier and metric name are made.
pub proof fn machine_makes_progress<E>(
    request: ReportRequestView,
    state: ReportStateView,
    event: EventView<E>,
)
    requires
        state.wf(),
        event.answers(state),
    ensures
        0 <= begin::<E>(request).calls_left() <= request.ids.len() * (request.metrics.len() + 1),
        0 <= state.step(event).calls_left() < state.calls_left(),
{
    lemma_at_entity::<E>(request, 0, Seq::empty(), Seq::empty());
    lemma_step::<E>(state, event);
}

/// A failure of the store ends the report with that failure, whatever was
/// gathered before; an answer to a question that was not asked changes
/// nothing.
pub proof fn machine_aborts_on_failure<E>(state: ReportStateView, error: E, event: EventView<E>)
    ensures
        state.step(EventView::Failure(error)) == (StepView::<E>::Done { outcome: Err(error) }),
        !event.answers(state) ==> state.step(event) == (StepView::<E>::Ask { state }),
{
}

proof fn lemma_step<E>(state: ReportStateView, event: EventView<E>)
    requires
        state.wf(),
    ensures
        state.step(event).wf(),
        event.answers(state) ==> 0 <= state.step(event).calls_left() < state.calls_left(),
{
    let request = state.request;
    let left = request.ids.len() - state.at;
    let per_entity = request.metrics.len() + 1;
    assert((left - 1) * per_entity == left * per_entity - per_entity) by (nonlinear_arith);
    assert(left * per_entity >= per_entity) by (nonlinear_arith)
        requires
            1 <= left,
            0 <= per_entity,
    ;
    match (event, state.pending) {
        (EventView::Failure(error), _) => {},
        (EventView::Entity(Some(stream)), Pending::Entity) => {
            lemma_at_metric::<E>(request, state.at, 0, state.streams.push(stream), state.reports);
        },
        (EventView::Entity(None), Pending::Entity) => {
            lemma_at_entity::<E>(request, state.at + 1, state.streams, state.reports);
        },
        (EventView::Series(rows), Pending::Series { metric, kind }) => {
            lemma_at_metric::<E>(
                request,
                state.at,
                metric + 1,
                state.streams,
                state.reports.push(series_of(kind, request.ids[state.at], rows)),
            );
        },
        _ => {},
    }
}

#[derive(Debug)]
enum Cursor {
    Entity,
    Series { metric: usize, kind: MetricKind },
}

/// A report in the making, waiting for the answer to its pending question.
#[derive(Debug)]
pub struct ReportState {
    request: ReportRequest,
    at: usize,
    cursor: Cursor,
    streams: Vec<Stream>,
    reports: Vec<StreamsReport>,
}

impl View for ReportState {
    type V = ReportStateView;

    closed spec fn view(&self) -> ReportStateView {
        ReportStateView {
            request: self.request@,
            at: self.at as int,
            pending: match self.cursor {
                Cursor::Entity => Pending::Entity,
                Cursor::Series { metric, kind } => Pending::Series { metric: metric as int, kind },
            },
            streams: stream_views(self.streams@),
            reports: report_views(self.reports@),
        }
    }
}

/// The result of a move: the next state with its question, or the outcome
/// of the whole report.
#[derive(Debug)]
pub enum Step<E> {
    Ask { state: ReportState, action: Action },
    Done { outcome: Result<StreamsReportResponseBody, E> },
}

impl<E> View for Step<E> {
    type V = StepView<E>;

    open spec fn view(&self) -> StepView<E> {
        match *self {
            Step::Ask { state, action } => StepView::Ask { state: state@ },
            Step::Done { outcome: Ok(body) } => StepView::Done { outcome: Ok(body@) },
            Step::Done { outcome: Err(error) } => StepView::Done { outcome: Err(error) },
        }
    }
}

impl<E> Step<E> {
    /// The question handed out is the one that the state waits on.
    pub open spec fn asks_pending(&self) -> bool {
        *self matches Step::Ask { state, action } ==> action@ == state@.action()
    }
}

impl ReportState {
    #[verifier::type_invariant]
    spec fn inv(self) -> bool {
        self@.wf()
    }

    /// Starts a report: the first question, or the empty response when the
    /// request names no identifier.
    pub fn start<E>(request: ReportRequest) -> (step: Step<E>)
        ensures
            step@ == begin::<E>(request@),
            step@.wf(),
            step.asks_pending(),
    {
        let streams: Vec<Stream> = Vec::new();
        let reports: Vec<StreamsReport> = Vec::new();
        assert(stream_views(streams@) =~= Seq::empty());
        assert(report_views(reports@) =~= Seq::empty());
        enter_entity(request, 0, streams, reports)
    }

    /// The pending question.
    pub fn action(&self) -> (action: Action)
        ensures
            action@ == self@.action(),
    {
        proof {
            use_type_invariant(self);
        }
        let id = self.request.ids[self.at].clone();
        match self.cursor {
            Cursor::Entity => Action::Resolve { id },
            Cursor::Series { metric, kind } => Action::Fetch {
                kind,
                id,
                range: self.request.range,
            },
        }
    }

    /// Takes the store's answer and moves on.
    pub fn step<E>(self, event: Event<E>) -> (next: Step<E>)
        ensures
            next@ == self@.step(event@),
            next@.wf(),
            next.asks_pending(),
    {
        proof {
            use_type_invariant(&self);
        }
        match event {
            Event::Failure(error) => Step::Done { outcome: Err(error) },
            Event::Entity(found) => match self.cursor {
                Cursor::Entity => {
                    let ReportState { request, at, cursor, streams, reports } = self;
                    assert(at < request.ids.len());
                    match found {
                        Some(stream) => {
                            let mut streams = streams;
                            proof {
                                assert(stream_views(streams@.push(stream)) =~= stream_views(
                                    streams@,
                                ).push(stream@));
                            }
                            streams.push(stream);
                            enter_metric(request, at, 0, streams, reports)
                        },
                        None => enter_entity(request, at + 1, streams, reports),
                    }
                },
                Cursor::Series { .. } => {
                    let action = self.action();
                    Step::Ask { state: self, action }
                },
            },
            Event::Series(rows) => match self.cursor {
                Cursor::Series { metric, kind } => {
                    let ReportState { request, at, cursor, streams, reports } = self;
                    assert(at < request.ids.len());
                    assert(metric < request.metrics.len());
                    let report = kind.series(request.ids[at].clone(), rows);
                    let mut reports = reports;
                    proof {
                        assert(report_views(reports@.push(report)) =~= report_views(
                            reports@,
                        ).push(report@));
                    }
                    reports.push(report);
                    enter_metric(request, at, metric + 1, streams, reports)
                },
                Cursor::Entity => {
                    let action = self.action();
                    Step::Ask { state: self, action }
                },
            },
        }
    }
}

fn enter_entity<E>(
    request: ReportRequest,
    at: usize,
    streams: Vec<Stream>,
    reports: Vec<StreamsReport>,
) -> (step: Step<E>)
    requires
        at <= request.ids.len(),
    ensures
        step@ == at_entity::<E>(
            request@,
            at as int,
            stream_views(streams@),
            report_views(reports@),
        ),
        step@.wf(),
        step.asks_pending(),
{
    if at < request.ids.len() {
        let state = ReportState { request, at, cursor: Cursor::Entity, streams, reports };
        let action = state.action();
        Step::Ask { state, action }
    } else {
        Step::Done { outcome: Ok(StreamsReportResponseBody { streams, reports }) }
    }
}

fn enter_metric<E>(
    request: ReportRequest,
    at: usize,
    from: usize,
    streams: Vec<Stream>,
    reports: Vec<StreamsReport>,
) -> (step: Step<E>)
    requires
        at < request.ids.len(),
        from <= request.metrics.len(),
    ensures
        step@ == at_metric::<E>(
            request@,
            at as int,
            from as int,
            stream_views(streams@),
            report_views(reports@),
        ),
        step@.wf(),
        step.asks_pending(),
{
    let mut metric: usize = from;
    while metric < request.metrics.len()
        invariant
            from <= metric <= request.metrics.len(),
            at < request.ids.len(),
            next_registered(request@.metrics, from as int) == next_registered(
                request@.metrics,
                metric as int,
            ),
        decreases request.metrics.len() - metric,
    {
        assert(request@.metrics[metric as int] == request.metrics[metric as int]@);
        match MetricKind::lookup(request.metrics[metric].as_str()) {
            Some(kind) => {
                let state = ReportState {
                    request,
                    at,
                    cursor: Cursor::Series { metric, kind },
                    streams,
                    reports,
                };
                let action = state.action();
                return Step::Ask { state, action };
            },
            None => {
                metric = metric + 1;
            },
        }
    }
    enter_entity(request, at + 1, streams, reports)
}

} // verus!
